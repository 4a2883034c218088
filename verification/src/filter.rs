use vstd::prelude::*;
use crate::dates::get_datetime_from_play_item;
use crate::dates::record_ts;
use crate::group::GroupBy;
use crate::plays::{PlayItem, PlayRecord};
use crate::plays::records_of;

verus! {

/// Whether a record's timestamp is present, parseable and within the
/// inclusive window.
pub open spec fn in_window(r: PlayRecord, start_ts: i64, end_ts: i64) -> bool {
    record_ts(r) matches Some(t) && start_ts <= t <= end_ts
}

/// The records whose timestamps parse and fall within the inclusive window,
/// in their original order.
pub open spec fn filter_spec(records: Seq<PlayRecord>, start_ts: i64, end_ts: i64) -> Seq<
    PlayRecord,
> {
    records.filter(|r: PlayRecord| in_window(r, start_ts, end_ts))
}

/// The filter settings a session holds: the grouping dimension, the
/// explicit date window if one is set, and the full date bounds of the
/// loaded data (the default window).
pub struct Filter {
    pub group_by: GroupBy,
    pub date_range: Option<(i64, i64)>,
    pub date_range_boundaries: (i64, i64),
}

impl Default for Filter {
    /// Group by song, no explicit window, empty boundaries.
    fn default() -> (r: Self)
        ensures
            r.group_by == GroupBy::Song,
            r.date_range is None,
            r.date_range_boundaries == (0i64, 0i64),
    {
        Filter { group_by: GroupBy::Song, date_range: None, date_range_boundaries: (0, 0) }
    }
}

impl Filter {
    /// The window to filter by: the explicit range when one is set, else
    /// the full boundaries of the loaded data.
    pub fn effective_date_range(&self) -> (r: (i64, i64))
        ensures
            r == match self.date_range {
                Some(range) => range,
                None => self.date_range_boundaries,
            },
    {
        match self.date_range {
            Some(range) => range,
            None => self.date_range_boundaries,
        }
    }
}

/// Whether an instant lies within the inclusive window.
pub fn ts_in_window(t: i64, start_ts: i64, end_ts: i64) -> (r: bool)
    ensures
        r == (start_ts <= t <= end_ts),
{
    start_ts <= t && t <= end_ts
}

/// Keep the records whose timestamp parses to an instant within the
/// inclusive window, in input order. A missing or unparsable timestamp
/// excludes the record silently: malformed timestamps are expected data
/// variance, not an error.
pub fn get_play_items_between_dates(
    all_play_items: &Vec<PlayItem>,
    start_date: i64,
    end_date: i64,
) -> (r: Vec<PlayItem>)
    ensures
        records_of(r@) == filter_spec(records_of(all_play_items@), start_date, end_date),
{
    let ghost records = records_of(all_play_items@);
    let ghost pred = |rec: PlayRecord| in_window(rec, start_date, end_date);
    let mut all_played_items_in_range: Vec<PlayItem> = Vec::new();
    let n = all_play_items.len();
    for idx in 0..n
        invariant
            n == all_play_items@.len(),
            records == records_of(all_play_items@),
            pred == (|rec: PlayRecord| in_window(rec, start_date, end_date)),
            records_of(all_played_items_in_range@) == records.take(idx as int).filter(pred),
    {
        let single_played_item = &all_play_items[idx];
        let ghost pre = all_played_items_in_range@;
        proof {
            assert(records[idx as int] == all_play_items@[idx as int]@);
            assert(records.take(idx as int + 1).drop_last() =~= records.take(idx as int));
            assert(records.take(idx as int + 1).last() == records[idx as int]);
            reveal(Seq::filter);
        }
        let mut included = false;
        if let Some(t) = get_datetime_from_play_item(single_played_item) {
            if ts_in_window(t, start_date, end_date) {
                all_played_items_in_range.push(single_played_item.clone());
                included = true;
            }
        }
        proof {
            if included {
                assert(pred(records[idx as int]));
                assert(records_of(all_played_items_in_range@) =~= records_of(pre).push(
                    records[idx as int],
                ));
            } else {
                assert(!pred(records[idx as int]));
                assert(all_played_items_in_range@ == pre);
            }
        }
    }
    proof {
        assert(records.take(n as int) =~= records);
    }
    all_played_items_in_range
}

/// A filtered collection is no longer, and plays no more milliseconds,
/// than the collection it came from.
pub proof fn lemma_filter_spec_bounds(records: Seq<PlayRecord>, start_ts: i64, end_ts: i64)
    ensures
        filter_spec(records, start_ts, end_ts).len() <= records.len(),
        crate::group::sum_ms(filter_spec(records, start_ts, end_ts)) <= crate::group::sum_ms(
            records,
        ),
        crate::group::sum_ms(filter_spec(records, start_ts, end_ts)) >= 0,
    decreases records.len(),
{
    reveal(Seq::filter);
    let pred = |r: PlayRecord| in_window(r, start_ts, end_ts);
    if records.len() == 0 {
    } else {
        lemma_filter_spec_bounds(records.drop_last(), start_ts, end_ts);
        let prev = records.drop_last().filter(pred);
        if pred(records.last()) {
            assert(records.filter(pred) == prev.push(records.last()));
            assert(prev.push(records.last()).drop_last() =~= prev);
            assert(prev.push(records.last()).last() == records.last());
        }
    }
}

/// Filtering is idempotent: filtering an already-filtered collection with
/// the same bounds changes nothing.
pub proof fn lemma_filter_idempotent(records: Seq<PlayRecord>, start_ts: i64, end_ts: i64)
    ensures
        filter_spec(filter_spec(records, start_ts, end_ts), start_ts, end_ts) == filter_spec(
            records,
            start_ts,
            end_ts,
        ),
    decreases records.len(),
{
    reveal(Seq::filter);
    let pred = |r: PlayRecord| in_window(r, start_ts, end_ts);
    let once = records.filter(pred);
    if records.len() == 0 {
        assert(once.filter(pred) =~= once);
    } else {
        lemma_filter_idempotent(records.drop_last(), start_ts, end_ts);
        let prev_once = records.drop_last().filter(pred);
        if pred(records.last()) {
            assert(once == prev_once.push(records.last()));
            assert(once.drop_last() =~= prev_once);
            assert(once.filter(pred) == prev_once.filter(pred).push(records.last()));
        } else {
            assert(once == prev_once);
        }
    }
}

} // verus!
