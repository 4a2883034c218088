use spotify_stats::group::{AggregatedData, Group, GroupBy, GroupData, MetaData};
use spotify_stats::plays::PlayItem;
use spotify_stats::sort::{sort_grouped_data, SortSpotifyDataBy};
use spotify_stats::state::DioState;
use spotify_stats::StatsError;

fn artist_group(name: &str, aggregated_data: AggregatedData) -> Group {
    Group::Artist(GroupData {
        meta_data: MetaData::Artist { artist_name: name.to_string() },
        aggregated_data,
    })
}

fn counted(ms_played: u64, play_count: u32) -> AggregatedData {
    AggregatedData { ms_played, play_count, ..AggregatedData::default() }
}

fn artist_names(groups: &Vec<Group>) -> Vec<String> {
    let mut names: Vec<String> = Vec::new();
    for group in groups.iter() {
        names.push(group.get_metadata().as_string());
    }
    names
}

fn listen(ts: &str, artist: &str, ms: u64) -> PlayItem {
    PlayItem {
        ts: Some(ts.to_string()),
        ms_played: Some(ms),
        master_metadata_track_name: None,
        master_metadata_album_album_name: None,
        master_metadata_album_artist_name: Some(artist.to_string()),
        episode_name: None,
        episode_show_name: None,
        reason_start: None,
        skipped: None,
        shuffle: None,
    }
}

#[test]
fn sort_by_play_count_ascending() {
    let mut groups = vec![
        artist_group("three", counted(0, 3)),
        artist_group("one", counted(0, 1)),
        artist_group("two", counted(0, 2)),
    ];
    sort_grouped_data(&mut groups, SortSpotifyDataBy::PlayCount, false);
    assert_eq!(artist_names(&groups), vec!["\"one\"", "\"two\"", "\"three\""]);
}

#[test]
fn sort_descending_reverses_the_ascending_order() {
    let mut ascending = vec![
        artist_group("b", counted(20, 2)),
        artist_group("c", counted(30, 3)),
        artist_group("a", counted(10, 1)),
    ];
    let mut descending = vec![
        artist_group("b", counted(20, 2)),
        artist_group("c", counted(30, 3)),
        artist_group("a", counted(10, 1)),
    ];
    sort_grouped_data(&mut ascending, SortSpotifyDataBy::TotalListenTime, false);
    sort_grouped_data(&mut descending, SortSpotifyDataBy::TotalListenTime, true);
    let mut reversed = artist_names(&ascending);
    reversed.reverse();
    assert_eq!(artist_names(&descending), reversed);
    assert_eq!(artist_names(&descending), vec!["\"c\"", "\"b\"", "\"a\""]);
}

#[test]
fn sort_is_stable_on_ties() {
    let mut groups = vec![
        artist_group("first", counted(100, 2)),
        artist_group("second", counted(100, 2)),
        artist_group("small", counted(50, 2)),
    ];
    sort_grouped_data(&mut groups, SortSpotifyDataBy::TotalListenTime, false);
    assert_eq!(artist_names(&groups), vec!["\"small\"", "\"first\"", "\"second\""]);
}

#[test]
fn sort_by_click_pct_orders_exact_fractions() {
    // 1/3 and 167/500 both round to 33 percent, but 167/500 = 0.334 is the
    // larger exact ratio, so it must come second ascending.
    let third = AggregatedData {
        click_count: 1,
        click_valid_plays: 3,
        ..AggregatedData::default()
    };
    let a_bit_more = AggregatedData {
        click_count: 167,
        click_valid_plays: 500,
        ..AggregatedData::default()
    };
    assert_eq!(third.get_click_pct(), 33);
    assert_eq!(a_bit_more.get_click_pct(), 33);
    let mut groups = vec![
        artist_group("more", a_bit_more),
        artist_group("less", third),
    ];
    sort_grouped_data(&mut groups, SortSpotifyDataBy::ClickPct, false);
    assert_eq!(artist_names(&groups), vec!["\"less\"", "\"more\""]);
}

#[test]
fn sort_treats_zero_denominator_as_zero_pct() {
    let no_observations = AggregatedData { play_count: 5, ..AggregatedData::default() };
    let half = AggregatedData {
        skip_count: 1,
        skip_valid_plays: 2,
        ..AggregatedData::default()
    };
    let mut groups = vec![artist_group("half", half), artist_group("none", no_observations)];
    sort_grouped_data(&mut groups, SortSpotifyDataBy::SkipPct, false);
    assert_eq!(artist_names(&groups), vec!["\"none\"", "\"half\""]);
}

#[test]
fn sort_metric_identifiers_parse_or_reject() {
    assert_eq!(
        SortSpotifyDataBy::from_identifier("auto_play_pct"),
        Ok(SortSpotifyDataBy::AutoPlayPct)
    );
    assert_eq!(SortSpotifyDataBy::from_identifier("click_pct"), Ok(SortSpotifyDataBy::ClickPct));
    assert_eq!(SortSpotifyDataBy::from_identifier("play_count"), Ok(SortSpotifyDataBy::PlayCount));
    assert_eq!(
        SortSpotifyDataBy::from_identifier("shuffle_pct"),
        Ok(SortSpotifyDataBy::ShufflePct)
    );
    assert_eq!(SortSpotifyDataBy::from_identifier("skip_pct"), Ok(SortSpotifyDataBy::SkipPct));
    assert_eq!(
        SortSpotifyDataBy::from_identifier("total_listening_time"),
        Ok(SortSpotifyDataBy::TotalListenTime)
    );
    assert_eq!(
        SortSpotifyDataBy::from_identifier("listen_time"),
        Err(StatsError::InvalidSortMetric)
    );
}

#[test]
fn state_defaults() {
    let state = DioState::default();
    assert_eq!(state.spotify_plays_data.len(), 0);
    assert_eq!(state.processed_data.len(), 0);
    assert_eq!(state.group_by, GroupBy::Song);
    assert_eq!(state.sort_by, SortSpotifyDataBy::TotalListenTime);
    assert!(state.sort_order_descending);
}

#[test]
fn state_set_group_by_accepts_and_rejects() {
    let mut state = DioState::default();
    assert_eq!(state.set_group_by("artists"), Ok(()));
    assert_eq!(state.group_by, GroupBy::Artist);
    assert_eq!(state.set_group_by("nonsense"), Err(StatsError::InvalidDimension));
    assert_eq!(state.group_by, GroupBy::Artist);
}

#[test]
fn state_set_sort_accepts_and_rejects() {
    let mut state = DioState::default();
    assert_eq!(state.set_sort("play_count", false), Ok(()));
    assert_eq!(state.sort_by, SortSpotifyDataBy::PlayCount);
    assert!(!state.sort_order_descending);
    assert_eq!(state.set_sort("hours", true), Err(StatsError::InvalidSortMetric));
    assert_eq!(state.sort_by, SortSpotifyDataBy::PlayCount);
    assert!(!state.sort_order_descending);
}

#[test]
fn state_reset_filter_restores_defaults() {
    let mut state = DioState::default();
    state.filter.date_range = Some((10, 20));
    state.filter.date_range_boundaries = (0, 100);
    state.set_group_by("albums").unwrap();
    state.set_sort("skip_pct", false).unwrap();
    state.reset_filter();
    assert_eq!(state.filter.date_range, None);
    assert_eq!(state.filter.date_range_boundaries, (0, 100));
    assert_eq!(state.group_by, GroupBy::Song);
    assert_eq!(state.sort_by, SortSpotifyDataBy::TotalListenTime);
}

#[test]
fn state_pipeline_filters_groups_and_sorts() {
    let mut state = DioState::default();
    state.spotify_plays_data = vec![
        listen("1970-01-01T00:00:01Z", "quiet", 100),
        listen("1970-01-01T00:00:02Z", "loud", 500),
        listen("1970-01-01T00:00:03Z", "loud", 600),
        listen("1970-01-01T00:00:09Z", "out of window", 9_999),
    ];
    state.filter.date_range = Some((1000, 3000));
    state.set_group_by("artists").unwrap();
    state.set_sort("total_listening_time", true).unwrap();

    state.apply_filters_and_group();
    assert_eq!(state.processed_data.len(), 2);

    state.apply_sort();
    let names = artist_names(&state.processed_data);
    assert_eq!(names, vec!["\"loud\"", "\"quiet\""]);
    assert_eq!(state.processed_data[0].get_aggregated_data().get_ms_played(), 1100);
    assert_eq!(state.processed_data[0].get_aggregated_data().get_play_count(), 2);

    let copy = state.get_processed_data();
    assert_eq!(copy.len(), 2);
    assert_eq!(copy[0].get_metadata(), state.processed_data[0].get_metadata());
}

#[test]
fn state_uses_boundaries_when_no_window_set() {
    let mut state = DioState::default();
    state.spotify_plays_data = vec![
        listen("1970-01-01T00:00:01Z", "a", 1),
        listen("1970-01-01T00:00:05Z", "b", 2),
    ];
    state.filter.date_range_boundaries = (1000, 5000);
    state.set_group_by("artists").unwrap();
    state.apply_filters_and_group();
    assert_eq!(state.processed_data.len(), 2);
}
