use vstd::prelude::*;
use crate::errors::StatsError;
use crate::filter::{Filter, filter_spec, get_play_items_between_dates, lemma_filter_spec_bounds};
use crate::group::{Group, GroupBy, aggregate_spec, get_grouped_data, groups_view, parsed_group_by, sum_ms};
use crate::plays::{PlayItem, records_of};
use crate::sort::{SortSpotifyDataBy, parsed_sort_by, sort_by_metric, sort_grouped_data};

verus! {

/// One session's state: the loaded play records, the current filter and
/// sort settings, and the groups last produced. The caller owns it and
/// passes it explicitly into each pipeline call; nothing here is shared or
/// locked.
pub struct DioState {
    pub spotify_plays_data: Vec<PlayItem>,
    pub filter: Filter,
    pub processed_data: Vec<Group>,
    pub group_by: GroupBy,
    pub sort_by: SortSpotifyDataBy,
    pub sort_order_descending: bool,
}

impl Default for DioState {
    /// No data loaded yet: group by song, sort by total listening time,
    /// descending.
    fn default() -> (r: Self)
        ensures
            r.spotify_plays_data@.len() == 0,
            r.processed_data@.len() == 0,
            r.group_by == GroupBy::Song,
            r.sort_by == SortSpotifyDataBy::TotalListenTime,
            r.sort_order_descending,
            r.filter.group_by == GroupBy::Song,
            r.filter.date_range is None,
            r.filter.date_range_boundaries == (0i64, 0i64),
    {
        DioState {
            spotify_plays_data: Vec::new(),
            filter: Filter::default(),
            processed_data: Vec::new(),
            group_by: GroupBy::Song,
            sort_by: SortSpotifyDataBy::TotalListenTime,
            sort_order_descending: true,
        }
    }
}

impl DioState {
    /// Set the grouping dimension from its identifier; an unrecognized
    /// identifier is rejected and leaves the state untouched.
    pub fn set_group_by(&mut self, new_filter_group: &str) -> (r: Result<(), StatsError>)
        ensures
            match parsed_group_by(new_filter_group@) {
                Ok(group_by) => r == Ok::<(), StatsError>(()) && *final(self) == (DioState {
                    group_by,
                    ..*old(self)
                }),
                Err(e) => r == Err::<(), StatsError>(e) && *final(self) == *old(self),
            },
    {
        proof {
            lemma_dio_state_fields(old(self));
        }
        match GroupBy::from_identifier(new_filter_group) {
            Ok(group_by) => {
                self.group_by = group_by;
                Ok(())
            },
            Err(e) => Err(e),
        }
    }

    /// Set the sort metric from its identifier and the direction; an
    /// unrecognized identifier is rejected and leaves the state untouched.
    pub fn set_sort(&mut self, new_sort: &str, descending: bool) -> (r: Result<(), StatsError>)
        ensures
            match parsed_sort_by(new_sort@) {
                Ok(sort_by) => r == Ok::<(), StatsError>(()) && *final(self) == (DioState {
                    sort_by,
                    sort_order_descending: descending,
                    ..*old(self)
                }),
                Err(e) => r == Err::<(), StatsError>(e) && *final(self) == *old(self),
            },
    {
        proof {
            lemma_dio_state_fields(old(self));
        }
        match SortSpotifyDataBy::from_identifier(new_sort) {
            Ok(sort_by) => {
                self.sort_by = sort_by;
                self.sort_order_descending = descending;
                Ok(())
            },
            Err(e) => Err(e),
        }
    }

    /// Clear the explicit date window and return grouping and sorting to
    /// their defaults.
    pub fn reset_filter(&mut self)
        ensures
            *final(self) == (DioState {
                filter: Filter { date_range: None, ..old(self).filter },
                group_by: GroupBy::Song,
                sort_by: SortSpotifyDataBy::TotalListenTime,
                ..*old(self)
            }),
    {
        proof {
            lemma_dio_state_fields(old(self));
            lemma_filter_fields(&old(self).filter);
        }
        self.filter.date_range = None;
        self.group_by = GroupBy::Song;
        self.sort_by = SortSpotifyDataBy::TotalListenTime;
    }

    /// Filter the loaded records to the effective date window (the explicit
    /// range when set, else the data's full bounds) and group them by the
    /// current dimension, replacing the processed groups.
    pub fn apply_filters_and_group(&mut self)
        requires
            old(self).spotify_plays_data@.len() <= u32::MAX,
            sum_ms(records_of(old(self).spotify_plays_data@)) <= u64::MAX,
        ensures
            ({
                let window = match old(self).filter.date_range {
                    Some(range) => range,
                    None => old(self).filter.date_range_boundaries,
                };
                let kept = filter_spec(
                    records_of(old(self).spotify_plays_data@),
                    window.0,
                    window.1,
                );
                &&& groups_view(final(self).processed_data@) == aggregate_spec(
                    old(self).group_by,
                    kept,
                )
                &&& forall|i: int|
                    0 <= i < final(self).processed_data@.len()
                        ==> (#[trigger] final(self).processed_data@[i]).wf()
                        && final(self).processed_data@[i].dim() == old(self).group_by
            }),
            final(self).spotify_plays_data == old(self).spotify_plays_data,
            final(self).filter == old(self).filter,
            final(self).group_by == old(self).group_by,
            final(self).sort_by == old(self).sort_by,
            final(self).sort_order_descending == old(self).sort_order_descending,
    {
        let window = self.filter.effective_date_range();
        let play_data_within_filter_dates = get_play_items_between_dates(
            &self.spotify_plays_data,
            window.0,
            window.1,
        );
        proof {
            lemma_filter_spec_bounds(
                records_of(self.spotify_plays_data@),
                window.0,
                window.1,
            );
        }
        let grouped_data = get_grouped_data(&self.group_by, play_data_within_filter_dates);
        self.processed_data = grouped_data;
    }

    /// Sort the processed groups by the current metric and direction.
    pub fn apply_sort(&mut self)
        ensures
            ({
                let ascending = sort_by_metric(
                    old(self).sort_by,
                    false,
                    groups_view(old(self).processed_data@),
                );
                groups_view(final(self).processed_data@) == if old(self).sort_order_descending {
                    ascending.reverse()
                } else {
                    ascending
                }
            }),
            final(self).spotify_plays_data == old(self).spotify_plays_data,
            final(self).filter == old(self).filter,
            final(self).group_by == old(self).group_by,
            final(self).sort_by == old(self).sort_by,
            final(self).sort_order_descending == old(self).sort_order_descending,
    {
        let sort_by = self.sort_by.clone();
        let sort_order_descending = self.sort_order_descending;
        sort_grouped_data(&mut self.processed_data, sort_by, sort_order_descending);
    }

    /// The groups last produced, as a fresh copy the caller may keep.
    pub fn get_processed_data(&self) -> (r: Vec<Group>)
        ensures
            r@ == self.processed_data@,
    {
        let r = self.processed_data.clone();
        proof {
            assert(r@ =~= self.processed_data@);
        }
        r
    }
}

/// A state value is the record of its fields.
proof fn lemma_dio_state_fields(state: &DioState)
    ensures
        *state == (DioState {
            spotify_plays_data: state.spotify_plays_data,
            filter: state.filter,
            processed_data: state.processed_data,
            group_by: state.group_by,
            sort_by: state.sort_by,
            sort_order_descending: state.sort_order_descending,
        }),
{
}

/// A filter value is the record of its fields.
proof fn lemma_filter_fields(filter: &Filter)
    ensures
        *filter == (Filter {
            group_by: filter.group_by,
            date_range: filter.date_range,
            date_range_boundaries: filter.date_range_boundaries,
        }),
{
}

} // verus!
