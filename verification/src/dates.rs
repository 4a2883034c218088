use vstd::prelude::*;
use crate::errors::StatsError;
use crate::plays::{PlayItem, PlayRecord};
use crate::plays::records_of;

verus! {

/// The instant a timestamp string denotes, in milliseconds since the Unix
/// epoch, or `None` for a string that does not parse as a timestamp. This
/// names the outcome of chrono's timestamp parsing, which depends on the
/// characters alone.
pub uninterp spec fn ts_millis(s: Seq<char>) -> Option<i64>;

/// Relies on chrono: `str::parse::<DateTime<Utc>>` (RFC 3339, with `T` or a
/// space as the separator) followed by `DateTime::timestamp_millis`. Both
/// depend on the characters alone; `timestamp_millis` is a monotone image
/// of chrono's own `DateTime<Utc>` ordering, so comparing the returned
/// milliseconds compares the instants.
#[verifier::external_body]
fn parse_timestamp(ts: &str) -> (r: Option<i64>)
    ensures
        r == ts_millis(ts@),
{
    match ts.parse::<chrono::DateTime<chrono::Utc>>() {
        Ok(parsed) => Some(parsed.timestamp_millis()),
        Err(_) => None,
    }
}

/// The instant of a record's timestamp, when the timestamp is present and
/// parseable.
pub open spec fn record_ts(r: PlayRecord) -> Option<i64> {
    match r.ts {
        Some(s) => ts_millis(s),
        None => None,
    }
}

/// The record's timestamp as an instant; `None` when the timestamp is
/// missing or does not parse.
pub fn get_datetime_from_play_item(play_item: &PlayItem) -> (r: Option<i64>)
    ensures
        r == record_ts(play_item@),
{
    let mut dt_result: Option<i64> = None;
    if let Some(ts) = &play_item.ts {
        if let Some(timestamp_ms) = parse_timestamp(ts.as_str()) {
            dt_result = Some(timestamp_ms);
        }
    }
    dt_result
}

/// Whether any record of the sequence has a parseable timestamp.
pub open spec fn some_parseable(records: Seq<PlayRecord>) -> bool {
    exists|i: int| 0 <= i < records.len() && record_ts(#[trigger] records[i]) is Some
}

/// The minimum and maximum parseable timestamps of the collection (the
/// default date window). Records whose timestamp is missing or unparsable
/// are ignored; the one dataset-level failure is a collection in which no
/// record has a parseable timestamp at all.
pub fn get_date_bounds_from_play_items(all_play_items: &Vec<PlayItem>) -> (r: Result<
    (i64, i64),
    StatsError,
>)
    ensures
        r is Ok <==> some_parseable(records_of(all_play_items@)),
        r is Err ==> r == Err::<(i64, i64), StatsError>(StatsError::NoParseableTimestamps),
        r matches Ok((min_ts, max_ts)) ==> {
            let records = records_of(all_play_items@);
            &&& min_ts <= max_ts
            &&& exists|i: int|
                0 <= i < records.len() && record_ts(#[trigger] records[i]) == Some(min_ts)
            &&& exists|i: int|
                0 <= i < records.len() && record_ts(#[trigger] records[i]) == Some(max_ts)
            &&& forall|i: int|
                0 <= i < records.len() ==> (record_ts(#[trigger] records[i]) matches Some(t)
                    ==> min_ts <= t <= max_ts)
        },
{
    let ghost records = records_of(all_play_items@);
    let mut bounds: Option<(i64, i64)> = None;
    let n = all_play_items.len();
    for idx in 0..n
        invariant
            n == all_play_items@.len(),
            records == records_of(all_play_items@),
            match bounds {
                None => forall|j: int|
                    0 <= j < idx ==> record_ts(#[trigger] records[j]) is None,
                Some((mn, mx)) => {
                    &&& mn <= mx
                    &&& exists|j: int|
                        0 <= j < idx && record_ts(#[trigger] records[j]) == Some(mn)
                    &&& exists|j: int|
                        0 <= j < idx && record_ts(#[trigger] records[j]) == Some(mx)
                    &&& forall|j: int|
                        0 <= j < idx ==> (record_ts(#[trigger] records[j]) matches Some(t)
                            ==> mn <= t <= mx)
                },
            },
    {
        proof {
            assert(records[idx as int] == all_play_items@[idx as int]@);
        }
        if let Some(t) = get_datetime_from_play_item(&all_play_items[idx]) {
            bounds = match bounds {
                None => Some((t, t)),
                Some((mn, mx)) => Some(
                    (if t < mn { t } else { mn }, if t > mx { t } else { mx }),
                ),
            };
        }
    }
    match bounds {
        Some((mn, mx)) => Ok((mn, mx)),
        None => Err(StatsError::NoParseableTimestamps),
    }
}

} // verus!
