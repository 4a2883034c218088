use spotify_stats::dates::{get_date_bounds_from_play_items, get_datetime_from_play_item};
use spotify_stats::filter::{get_play_items_between_dates, Filter};
use spotify_stats::group::GroupBy;
use spotify_stats::plays::PlayItem;
use spotify_stats::StatsError;

fn empty_record() -> PlayItem {
    PlayItem {
        ts: None,
        ms_played: None,
        master_metadata_track_name: None,
        master_metadata_album_album_name: None,
        master_metadata_album_artist_name: None,
        episode_name: None,
        episode_show_name: None,
        reason_start: None,
        skipped: None,
        shuffle: None,
    }
}

fn stamped(ts: &str, ms: u64) -> PlayItem {
    PlayItem { ts: Some(ts.to_string()), ms_played: Some(ms), ..empty_record() }
}

#[test]
fn timestamps_parse_to_real_instants() {
    let item = stamped("1970-01-01T00:00:01Z", 1);
    assert_eq!(get_datetime_from_play_item(&item), Some(1000));
    let later = stamped("1970-01-01 00:00:02Z", 2);
    assert_eq!(get_datetime_from_play_item(&later), Some(2000));
    let modern = stamped("2021-01-01T00:00:00Z", 3);
    assert_eq!(get_datetime_from_play_item(&modern), Some(1_609_459_200_000));
    let garbage = stamped("yesterday about noon", 4);
    assert_eq!(get_datetime_from_play_item(&garbage), None);
    assert_eq!(get_datetime_from_play_item(&empty_record()), None);
}

#[test]
fn filter_window_is_inclusive() {
    let items = vec![
        stamped("1970-01-01T00:00:01Z", 1),
        stamped("1970-01-01T00:00:02Z", 2),
        stamped("1970-01-01T00:00:03Z", 3),
        stamped("1970-01-01T00:00:04Z", 4),
    ];
    let kept = get_play_items_between_dates(&items, 2000, 3000);
    assert_eq!(kept.len(), 2);
    assert_eq!(kept[0].ms_played, Some(2));
    assert_eq!(kept[1].ms_played, Some(3));
}

#[test]
fn filter_drops_missing_and_unparsable_timestamps() {
    let items = vec![
        stamped("1970-01-01T00:00:01Z", 1),
        PlayItem { ms_played: Some(9), ..empty_record() },
        stamped("not a timestamp", 8),
        stamped("1970-01-01T00:00:02Z", 2),
    ];
    let kept = get_play_items_between_dates(&items, 0, 10_000);
    assert_eq!(kept.len(), 2);
    assert_eq!(kept[0].ms_played, Some(1));
    assert_eq!(kept[1].ms_played, Some(2));
}

#[test]
fn filter_keeps_input_order() {
    let items = vec![
        stamped("1970-01-01T00:00:03Z", 3),
        stamped("1970-01-01T00:00:01Z", 1),
        stamped("1970-01-01T00:00:02Z", 2),
    ];
    let kept = get_play_items_between_dates(&items, 0, 10_000);
    assert_eq!(kept.len(), 3);
    assert_eq!(kept[0].ms_played, Some(3));
    assert_eq!(kept[1].ms_played, Some(1));
    assert_eq!(kept[2].ms_played, Some(2));
}

#[test]
fn filtering_twice_changes_nothing() {
    let items = vec![
        stamped("1970-01-01T00:00:01Z", 1),
        stamped("junk", 9),
        stamped("1970-01-01T00:00:05Z", 5),
        stamped("1970-01-01T00:00:03Z", 3),
    ];
    let once = get_play_items_between_dates(&items, 1000, 3000);
    let twice = get_play_items_between_dates(&once, 1000, 3000);
    assert_eq!(once, twice);
}

#[test]
fn date_bounds_are_min_and_max() {
    let items = vec![
        stamped("1970-01-01T00:00:03Z", 3),
        stamped("1970-01-01T00:00:01Z", 1),
        stamped("garbled", 9),
        stamped("1970-01-01T00:00:02Z", 2),
    ];
    assert_eq!(get_date_bounds_from_play_items(&items), Ok((1000, 3000)));
}

#[test]
fn date_bounds_fail_without_any_parseable_timestamp() {
    let items = vec![
        PlayItem { ms_played: Some(1), ..empty_record() },
        stamped("who knows when", 2),
    ];
    assert_eq!(
        get_date_bounds_from_play_items(&items),
        Err(StatsError::NoParseableTimestamps)
    );
    let no_items: Vec<PlayItem> = vec![];
    assert_eq!(
        get_date_bounds_from_play_items(&no_items),
        Err(StatsError::NoParseableTimestamps)
    );
}

#[test]
fn filter_defaults_and_effective_range() {
    let filter = Filter::default();
    assert_eq!(filter.group_by, GroupBy::Song);
    assert_eq!(filter.date_range, None);
    assert_eq!(filter.effective_date_range(), (0, 0));

    let explicit = Filter {
        group_by: GroupBy::Album,
        date_range: Some((5, 9)),
        date_range_boundaries: (0, 100),
    };
    assert_eq!(explicit.effective_date_range(), (5, 9));

    let defaulted = Filter {
        group_by: GroupBy::Album,
        date_range: None,
        date_range_boundaries: (0, 100),
    };
    assert_eq!(defaulted.effective_date_range(), (0, 100));
}
