use spotify_stats::group::{
    get_grouped_data, update_hash_map_entry, AggregatedData, Group, GroupBy, MetaData,
};
use spotify_stats::plays::PlayItem;
use spotify_stats::StatsError;

fn blank_play() -> PlayItem {
    PlayItem {
        ts: None,
        ms_played: None,
        master_metadata_track_name: None,
        master_metadata_album_album_name: None,
        master_metadata_album_artist_name: None,
        episode_name: None,
        episode_show_name: None,
        reason_start: None,
        skipped: None,
        shuffle: None,
    }
}

fn song_play(track: &str, album: &str, artist: &str, ms: u64) -> PlayItem {
    PlayItem {
        ms_played: Some(ms),
        master_metadata_track_name: Some(track.to_string()),
        master_metadata_album_album_name: Some(album.to_string()),
        master_metadata_album_artist_name: Some(artist.to_string()),
        ..blank_play()
    }
}

#[test]
fn end_to_end_track_example() {
    let first = PlayItem {
        reason_start: Some("clickrow".to_string()),
        ..song_play("A", "X", "Y", 1000)
    };
    let second = PlayItem { skipped: Some(true), ..song_play("A", "X", "Y", 2000) };

    let groups = get_grouped_data(&GroupBy::Song, vec![first, second]);
    assert_eq!(groups.len(), 1);
    let stats = groups[0].get_aggregated_data();
    assert_eq!(stats.get_play_count(), 2);
    assert_eq!(stats.get_ms_played(), 3000);
    assert_eq!(stats.click_valid_plays, 1);
    assert_eq!(stats.click_count, 1);
    assert_eq!(stats.get_click_pct(), 100);
    assert_eq!(stats.skip_valid_plays, 1);
    assert_eq!(stats.skip_count, 1);
    assert_eq!(stats.get_skip_pct(), 100);
    assert_eq!(stats.shuffle_valid_plays, 0);
    assert_eq!(stats.get_shuffle_pct(), 0);
    assert_eq!(stats.autoplay_valid_plays, 1);
    assert_eq!(stats.autoplay_count, 0);
    assert_eq!(stats.get_autoplay_pct(), 0);
}

#[test]
fn cross_dimension_collapse() {
    let first = song_play("T1", "A1", "Shared Artist", 100);
    let second = song_play("T2", "A2", "Shared Artist", 200);

    let by_artist = get_grouped_data(&GroupBy::Artist, vec![first, second]);
    assert_eq!(by_artist.len(), 1);
    assert_eq!(by_artist[0].get_aggregated_data().get_play_count(), 2);
    assert_eq!(by_artist[0].get_aggregated_data().get_ms_played(), 300);

    let first_again = song_play("T1", "A1", "Shared Artist", 100);
    let second_again = song_play("T2", "A2", "Shared Artist", 200);
    let by_track = get_grouped_data(&GroupBy::Song, vec![first_again, second_again]);
    assert_eq!(by_track.len(), 2);
    assert_eq!(by_track[0].get_aggregated_data().get_play_count(), 1);
    assert_eq!(by_track[1].get_aggregated_data().get_play_count(), 1);
}

#[test]
fn distinct_identities_stay_separate() {
    // Identities whose naive field concatenations collide ("ab"+"c" vs
    // "a"+"bc") must still form two groups.
    let first = PlayItem {
        ms_played: Some(10),
        master_metadata_album_album_name: Some("ab".to_string()),
        master_metadata_album_artist_name: Some("c".to_string()),
        ..blank_play()
    };
    let second = PlayItem {
        ms_played: Some(20),
        master_metadata_album_album_name: Some("a".to_string()),
        master_metadata_album_artist_name: Some("bc".to_string()),
        ..blank_play()
    };
    let groups = get_grouped_data(&GroupBy::Album, vec![first, second]);
    assert_eq!(groups.len(), 2);
}

#[test]
fn ms_total_is_exact_integer_sum() {
    // Values this large lose precision in 64-bit floating point; the sum
    // must stay exact.
    let first = song_play("A", "X", "Y", 9_007_199_254_740_993);
    let second = song_play("A", "X", "Y", 3);
    let groups = get_grouped_data(&GroupBy::Song, vec![first, second]);
    assert_eq!(groups.len(), 1);
    assert_eq!(groups[0].get_aggregated_data().get_ms_played(), 9_007_199_254_740_996);
}

#[test]
fn records_without_ms_are_skipped() {
    let mut no_ms = song_play("A", "X", "Y", 0);
    no_ms.ms_played = None;
    let counted = song_play("A", "X", "Y", 50);
    let groups = get_grouped_data(&GroupBy::Song, vec![no_ms, counted]);
    assert_eq!(groups.len(), 1);
    assert_eq!(groups[0].get_aggregated_data().get_play_count(), 1);
    assert_eq!(groups[0].get_aggregated_data().get_ms_played(), 50);
}

#[test]
fn records_missing_identity_fields_are_skipped() {
    let no_track = PlayItem {
        ms_played: Some(10),
        master_metadata_album_album_name: Some("X".to_string()),
        master_metadata_album_artist_name: Some("Y".to_string()),
        ..blank_play()
    };
    let by_song = get_grouped_data(&GroupBy::Song, vec![no_track]);
    assert_eq!(by_song.len(), 0);

    let no_track_again = PlayItem {
        ms_played: Some(10),
        master_metadata_album_album_name: Some("X".to_string()),
        master_metadata_album_artist_name: Some("Y".to_string()),
        ..blank_play()
    };
    let by_artist = get_grouped_data(&GroupBy::Artist, vec![no_track_again]);
    assert_eq!(by_artist.len(), 1);
    assert_eq!(by_artist[0].get_aggregated_data().get_play_count(), 1);
}

#[test]
fn podcast_dimensions_use_show_and_episode() {
    let listen = PlayItem {
        ms_played: Some(700),
        episode_name: Some("Pilot".to_string()),
        episode_show_name: Some("Some Show".to_string()),
        ..blank_play()
    };
    let by_podcast = get_grouped_data(&GroupBy::Podcast, vec![listen]);
    assert_eq!(by_podcast.len(), 1);
    assert_eq!(
        by_podcast[0].get_metadata(),
        &MetaData::Podcast { podcast_name: "Some Show".to_string() }
    );

    let listen_again = PlayItem {
        ms_played: Some(700),
        episode_name: Some("Pilot".to_string()),
        episode_show_name: Some("Some Show".to_string()),
        ..blank_play()
    };
    let by_episode = get_grouped_data(&GroupBy::PodcastEpisode, vec![listen_again]);
    assert_eq!(by_episode.len(), 1);
    assert_eq!(
        by_episode[0].get_metadata(),
        &MetaData::PodcastEpisode {
            episode_name: "Pilot".to_string(),
            podcast_name: "Some Show".to_string(),
        }
    );
}

#[test]
fn reason_start_is_case_insensitive() {
    let click = PlayItem {
        reason_start: Some("ClickRow".to_string()),
        ..song_play("A", "X", "Y", 1)
    };
    let autoplay = PlayItem {
        reason_start: Some("TRACKDONE".to_string()),
        ..song_play("A", "X", "Y", 1)
    };
    let neither = PlayItem {
        reason_start: Some("fwdbtn".to_string()),
        ..song_play("A", "X", "Y", 1)
    };
    let groups = get_grouped_data(&GroupBy::Song, vec![click, autoplay, neither]);
    assert_eq!(groups.len(), 1);
    let stats = groups[0].get_aggregated_data();
    assert_eq!(stats.click_valid_plays, 3);
    assert_eq!(stats.click_count, 1);
    assert_eq!(stats.autoplay_valid_plays, 3);
    assert_eq!(stats.autoplay_count, 1);
}

#[test]
fn percentages_zero_when_no_valid_observations() {
    let stats = AggregatedData::default();
    assert_eq!(stats.get_skip_pct(), 0);
    assert_eq!(stats.get_click_pct(), 0);
    assert_eq!(stats.get_shuffle_pct(), 0);
    assert_eq!(stats.get_autoplay_pct(), 0);
}

#[test]
fn percentage_is_integer_division_of_exact_ratio() {
    let stats = AggregatedData {
        skip_count: 1,
        skip_valid_plays: 3,
        shuffle_count: 2,
        shuffle_valid_plays: 3,
        ..AggregatedData::default()
    };
    assert_eq!(stats.get_skip_pct(), 33);
    assert_eq!(stats.get_shuffle_pct(), 66);
}

#[test]
fn group_constructors_require_their_fields() {
    let missing_artist = PlayItem {
        ms_played: Some(5),
        master_metadata_track_name: Some("T".to_string()),
        master_metadata_album_album_name: Some("A".to_string()),
        ..blank_play()
    };
    assert!(Group::new_song(&missing_artist).is_err());
    assert!(Group::new_album(&missing_artist).is_err());
    assert!(Group::new_artist(&missing_artist).is_err());
    assert!(Group::new_podcast(&missing_artist).is_err());
    assert!(Group::new_podcast_episode(&missing_artist).is_err());

    let full = song_play("T", "A", "R", 5);
    assert!(Group::new_song(&full).is_ok());
    let group = Group::new_song(&full).unwrap();
    assert_eq!(group.get_aggregated_data().get_play_count(), 0);
    assert_eq!(group.get_aggregated_data().get_ms_played(), 0);
}

#[test]
fn update_entry_applies_every_rule() {
    let full = song_play("T", "A", "R", 5);
    let mut group = Group::new_song(&full).unwrap();
    let item = PlayItem {
        reason_start: Some("trackdone".to_string()),
        skipped: Some(false),
        shuffle: Some(true),
        ..song_play("T", "A", "R", 41)
    };
    update_hash_map_entry(&mut group, &item, &41);
    let stats = group.get_aggregated_data();
    assert_eq!(stats.play_count, 1);
    assert_eq!(stats.ms_played, 41);
    assert_eq!(stats.click_valid_plays, 1);
    assert_eq!(stats.click_count, 0);
    assert_eq!(stats.autoplay_valid_plays, 1);
    assert_eq!(stats.autoplay_count, 1);
    assert_eq!(stats.skip_valid_plays, 1);
    assert_eq!(stats.skip_count, 0);
    assert_eq!(stats.shuffle_valid_plays, 1);
    assert_eq!(stats.shuffle_count, 1);
}

#[test]
fn metadata_as_string_formats_each_dimension() {
    let song = MetaData::Song {
        track_name: "T".to_string(),
        album_name: "A".to_string(),
        artist_name: "R".to_string(),
    };
    assert_eq!(song.as_string(), "\"T\" on \"A\" by \"R\"");
    let artist = MetaData::Artist { artist_name: "R".to_string() };
    assert_eq!(artist.as_string(), "\"R\"");
    let album = MetaData::Album { album_name: "A".to_string(), artist_name: "R".to_string() };
    assert_eq!(album.as_string(), "\"A\" by \"R\"");
}

#[test]
fn same_identity_compares_fieldwise() {
    let left = MetaData::Album { album_name: "ab".to_string(), artist_name: "c".to_string() };
    let right = MetaData::Album { album_name: "a".to_string(), artist_name: "bc".to_string() };
    assert!(!left.same_identity(&right));
    let same = MetaData::Album { album_name: "ab".to_string(), artist_name: "c".to_string() };
    assert!(left.same_identity(&same));
    let artist = MetaData::Artist { artist_name: "ab".to_string() };
    assert!(!left.same_identity(&artist));
}

#[test]
fn group_by_identifiers_parse_or_reject() {
    assert_eq!(GroupBy::from_identifier("songs"), Ok(GroupBy::Song));
    assert_eq!(GroupBy::from_identifier("artists"), Ok(GroupBy::Artist));
    assert_eq!(GroupBy::from_identifier("albums"), Ok(GroupBy::Album));
    assert_eq!(GroupBy::from_identifier("podcasts"), Ok(GroupBy::Podcast));
    assert_eq!(GroupBy::from_identifier("podcast_episodes"), Ok(GroupBy::PodcastEpisode));
    assert_eq!(GroupBy::from_identifier("tracks"), Err(StatsError::InvalidDimension));
    assert_eq!(GroupBy::from_identifier(""), Err(StatsError::InvalidDimension));
}
