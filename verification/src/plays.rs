use vstd::prelude::*;

verus! {

/// The mathematical model of one play record: every field an independently
/// optional plain value, with strings modelled as character sequences.
pub struct PlayRecord {
    pub ts: Option<Seq<char>>,
    pub ms_played: Option<u64>,
    pub track_name: Option<Seq<char>>,
    pub album_name: Option<Seq<char>>,
    pub artist_name: Option<Seq<char>>,
    pub episode_name: Option<Seq<char>>,
    pub podcast_name: Option<Seq<char>>,
    pub reason_start: Option<Seq<char>>,
    pub skipped: Option<bool>,
    pub shuffle: Option<bool>,
}

/// One observed play event from a streaming-history export.
///
/// Every field is independently optional: absence is meaningful (the record
/// simply does not contribute to the statistics that need the field), never
/// an error. A record without `ms_played` is not a contributing play at all.
#[derive(Debug, PartialEq)]
pub struct PlayItem {
    pub ts: Option<String>,
    pub ms_played: Option<u64>,
    pub master_metadata_track_name: Option<String>,
    pub master_metadata_album_album_name: Option<String>,
    pub master_metadata_album_artist_name: Option<String>,
    pub episode_name: Option<String>,
    pub episode_show_name: Option<String>,
    pub reason_start: Option<String>,
    pub skipped: Option<bool>,
    pub shuffle: Option<bool>,
}

impl View for PlayItem {
    type V = PlayRecord;

    open spec fn view(&self) -> PlayRecord {
        PlayRecord {
            ts: self.ts.deep_view(),
            ms_played: self.ms_played,
            track_name: self.master_metadata_track_name.deep_view(),
            album_name: self.master_metadata_album_album_name.deep_view(),
            artist_name: self.master_metadata_album_artist_name.deep_view(),
            episode_name: self.episode_name.deep_view(),
            podcast_name: self.episode_show_name.deep_view(),
            reason_start: self.reason_start.deep_view(),
            skipped: self.skipped,
            shuffle: self.shuffle,
        }
    }
}

impl Clone for PlayItem {
    /// A clone is the very same record.
    fn clone(&self) -> (r: Self)
        ensures
            r == *self,
    {
        let r = PlayItem {
            ts: self.ts.clone(),
            ms_played: self.ms_played,
            master_metadata_track_name: self.master_metadata_track_name.clone(),
            master_metadata_album_album_name: self.master_metadata_album_album_name.clone(),
            master_metadata_album_artist_name: self.master_metadata_album_artist_name.clone(),
            episode_name: self.episode_name.clone(),
            episode_show_name: self.episode_show_name.clone(),
            reason_start: self.reason_start.clone(),
            skipped: self.skipped,
            shuffle: self.shuffle,
        };
        proof {
            assert(*self == PlayItem {
                ts: self.ts,
                ms_played: self.ms_played,
                master_metadata_track_name: self.master_metadata_track_name,
                master_metadata_album_album_name: self.master_metadata_album_album_name,
                master_metadata_album_artist_name: self.master_metadata_album_artist_name,
                episode_name: self.episode_name,
                episode_show_name: self.episode_show_name,
                reason_start: self.reason_start,
                skipped: self.skipped,
                shuffle: self.shuffle,
            });
        }
        r
    }
}

/// The records modelled by a sequence of play items.
pub open spec fn records_of(items: Seq<PlayItem>) -> Seq<PlayRecord> {
    items.map_values(|p: PlayItem| p@)
}

} // verus!
