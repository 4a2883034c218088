use vstd::prelude::*;
use vstd::string::StringExecFns;
use crate::plays::{PlayItem, PlayRecord};
use crate::plays::records_of;
use crate::errors::StatsError;
use crate::text::eq_ignore_ascii_case;
use crate::text::eq_ignore_case;
use crate::text::str_eq;

verus! {

/// The grouping dimension: which identity fields of a play record define a
/// group.
#[derive(Clone, Copy, Debug, PartialEq, Eq, Structural)]
pub enum GroupBy {
    Album,
    Artist,
    Song,
    Podcast,
    PodcastEpisode,
}

/// The dimension named by a caller-supplied identifier, or the error for
/// an unrecognized one.
pub open spec fn parsed_group_by(name: Seq<char>) -> Result<GroupBy, StatsError> {
    if name == "songs"@ {
        Ok(GroupBy::Song)
    } else if name == "artists"@ {
        Ok(GroupBy::Artist)
    } else if name == "albums"@ {
        Ok(GroupBy::Album)
    } else if name == "podcasts"@ {
        Ok(GroupBy::Podcast)
    } else if name == "podcast_episodes"@ {
        Ok(GroupBy::PodcastEpisode)
    } else {
        Err(StatsError::InvalidDimension)
    }
}

impl GroupBy {
    /// The dimension a caller-supplied identifier names. An unrecognized
    /// identifier is rejected, never coerced to a default.
    pub fn from_identifier(name: &str) -> (r: Result<GroupBy, StatsError>)
        ensures
            r == parsed_group_by(name@),
    {
        if str_eq(name, "songs") {
            Ok(GroupBy::Song)
        } else if str_eq(name, "artists") {
            Ok(GroupBy::Artist)
        } else if str_eq(name, "albums") {
            Ok(GroupBy::Album)
        } else if str_eq(name, "podcasts") {
            Ok(GroupBy::Podcast)
        } else if str_eq(name, "podcast_episodes") {
            Ok(GroupBy::PodcastEpisode)
        } else {
            Err(StatsError::InvalidDimension)
        }
    }
}

/// The model of a group identity: the dimension-specific fields that
/// identify one group, as character sequences. Two records land in the same
/// group exactly when their identities are equal values of this type, so the
/// identity itself is the (collision-free, structured) grouping key.
pub enum MetaDataView {
    Album { album_name: Seq<char>, artist_name: Seq<char> },
    Artist { artist_name: Seq<char> },
    Song { track_name: Seq<char>, album_name: Seq<char>, artist_name: Seq<char> },
    Podcast { podcast_name: Seq<char> },
    PodcastEpisode { episode_name: Seq<char>, podcast_name: Seq<char> },
}

/// The dimension an identity belongs to.
pub open spec fn meta_dim(m: MetaDataView) -> GroupBy {
    match m {
        MetaDataView::Album { .. } => GroupBy::Album,
        MetaDataView::Artist { .. } => GroupBy::Artist,
        MetaDataView::Song { .. } => GroupBy::Song,
        MetaDataView::Podcast { .. } => GroupBy::Podcast,
        MetaDataView::PodcastEpisode { .. } => GroupBy::PodcastEpisode,
    }
}

/// The identity a record derives for a dimension, or `None` when any field
/// the dimension requires is absent (such a record is skipped for that
/// dimension).
pub open spec fn identity_of(group_by: GroupBy, r: PlayRecord) -> Option<MetaDataView> {
    match group_by {
        GroupBy::Album => match (r.album_name, r.artist_name) {
            (Some(album_name), Some(artist_name)) => Some(
                MetaDataView::Album { album_name, artist_name },
            ),
            _ => None,
        },
        GroupBy::Artist => match r.artist_name {
            Some(artist_name) => Some(MetaDataView::Artist { artist_name }),
            None => None,
        },
        GroupBy::Song => match (r.track_name, r.album_name, r.artist_name) {
            (Some(track_name), Some(album_name), Some(artist_name)) => Some(
                MetaDataView::Song { track_name, album_name, artist_name },
            ),
            _ => None,
        },
        GroupBy::Podcast => match r.podcast_name {
            Some(podcast_name) => Some(MetaDataView::Podcast { podcast_name }),
            None => None,
        },
        GroupBy::PodcastEpisode => match (r.episode_name, r.podcast_name) {
            (Some(episode_name), Some(podcast_name)) => Some(
                MetaDataView::PodcastEpisode { episode_name, podcast_name },
            ),
            _ => None,
        },
    }
}

/// The dimension-specific identity of one group.
#[derive(Debug, PartialEq)]
pub enum MetaData {
    Album { album_name: String, artist_name: String },
    Artist { artist_name: String },
    Song { track_name: String, album_name: String, artist_name: String },
    Podcast { podcast_name: String },
    PodcastEpisode { episode_name: String, podcast_name: String },
}

impl View for MetaData {
    type V = MetaDataView;

    open spec fn view(&self) -> MetaDataView {
        match self {
            MetaData::Album { album_name, artist_name } => MetaDataView::Album {
                album_name: album_name@,
                artist_name: artist_name@,
            },
            MetaData::Artist { artist_name } => MetaDataView::Artist {
                artist_name: artist_name@,
            },
            MetaData::Song { track_name, album_name, artist_name } => MetaDataView::Song {
                track_name: track_name@,
                album_name: album_name@,
                artist_name: artist_name@,
            },
            MetaData::Podcast { podcast_name } => MetaDataView::Podcast {
                podcast_name: podcast_name@,
            },
            MetaData::PodcastEpisode { episode_name, podcast_name } => MetaDataView::PodcastEpisode {
                episode_name: episode_name@,
                podcast_name: podcast_name@,
            },
        }
    }
}

/// The rendering of an identity as a display string.
pub open spec fn meta_display(m: MetaDataView) -> Seq<char> {
    match m {
        MetaDataView::Album { album_name, artist_name } => "\""@ + album_name + "\" by \""@
            + artist_name + "\""@,
        MetaDataView::Artist { artist_name } => "\""@ + artist_name + "\""@,
        MetaDataView::Song { track_name, album_name, artist_name } => "\""@ + track_name
            + "\" on \""@ + album_name + "\" by \""@ + artist_name + "\""@,
        MetaDataView::Podcast { podcast_name } => "\""@ + podcast_name + "\""@,
        MetaDataView::PodcastEpisode { episode_name, podcast_name } => "\""@ + episode_name
            + "\" on \""@ + podcast_name + "\""@,
    }
}

impl Clone for MetaData {
    /// A clone is the very same identity.
    fn clone(&self) -> (r: Self)
        ensures
            r == *self,
    {
        match self {
            MetaData::Album { album_name, artist_name } => MetaData::Album {
                album_name: album_name.clone(),
                artist_name: artist_name.clone(),
            },
            MetaData::Artist { artist_name } => MetaData::Artist {
                artist_name: artist_name.clone(),
            },
            MetaData::Song { track_name, album_name, artist_name } => MetaData::Song {
                track_name: track_name.clone(),
                album_name: album_name.clone(),
                artist_name: artist_name.clone(),
            },
            MetaData::Podcast { podcast_name } => MetaData::Podcast {
                podcast_name: podcast_name.clone(),
            },
            MetaData::PodcastEpisode { episode_name, podcast_name } => MetaData::PodcastEpisode {
                episode_name: episode_name.clone(),
                podcast_name: podcast_name.clone(),
            },
        }
    }
}

impl MetaData {
    /// Render the identity for display.
    pub fn as_string(&self) -> (r: String)
        ensures
            r@ == meta_display(self@),
    {
        let mut s = String::new();
        s.append("\"");
        match self {
            MetaData::Album { album_name, artist_name } => {
                s.append(album_name.as_str());
                s.append("\" by \"");
                s.append(artist_name.as_str());
            },
            MetaData::Artist { artist_name } => {
                s.append(artist_name.as_str());
            },
            MetaData::Song { track_name, album_name, artist_name } => {
                s.append(track_name.as_str());
                s.append("\" on \"");
                s.append(album_name.as_str());
                s.append("\" by \"");
                s.append(artist_name.as_str());
            },
            MetaData::Podcast { podcast_name } => {
                s.append(podcast_name.as_str());
            },
            MetaData::PodcastEpisode { episode_name, podcast_name } => {
                s.append(episode_name.as_str());
                s.append("\" on \"");
                s.append(podcast_name.as_str());
            },
        }
        s.append("\"");
        s
    }

    /// Decide whether two identities are equal (the grouping-key test).
    pub fn same_identity(&self, other: &MetaData) -> (r: bool)
        ensures
            r == (self@ == other@),
    {
        match (self, other) {
            (
                MetaData::Album { album_name: a1, artist_name: r1 },
                MetaData::Album { album_name: a2, artist_name: r2 },
            ) => *a1 == *a2 && *r1 == *r2,
            (
                MetaData::Artist { artist_name: r1 },
                MetaData::Artist { artist_name: r2 },
            ) => *r1 == *r2,
            (
                MetaData::Song { track_name: t1, album_name: a1, artist_name: r1 },
                MetaData::Song { track_name: t2, album_name: a2, artist_name: r2 },
            ) => *t1 == *t2 && *a1 == *a2 && *r1 == *r2,
            (
                MetaData::Podcast { podcast_name: p1 },
                MetaData::Podcast { podcast_name: p2 },
            ) => *p1 == *p2,
            (
                MetaData::PodcastEpisode { episode_name: e1, podcast_name: p1 },
                MetaData::PodcastEpisode { episode_name: e2, podcast_name: p2 },
            ) => *e1 == *e2 && *p1 == *p2,
            _ => false,
        }
    }
}

/// The model of per-group statistics, over the unbounded integers: the
/// exact sums and counts, free of any machine-width concern.
pub struct StatsModel {
    pub ms_played: int,
    pub play_count: int,
    pub skip_count: int,
    pub skip_valid_plays: int,
    pub click_count: int,
    pub click_valid_plays: int,
    pub shuffle_count: int,
    pub shuffle_valid_plays: int,
    pub autoplay_count: int,
    pub autoplay_valid_plays: int,
}

/// The statistics aggregated for one group. Each `*_count` counts the
/// contributing records whose relevant optional field was present and
/// positive for the classification; each `*_valid_plays` counts those where
/// the field was present at all (the percentage denominator).
#[derive(Clone, Copy, Debug, PartialEq, Eq, Structural)]
pub struct AggregatedData {
    pub ms_played: u64,
    pub play_count: u32,
    pub skip_count: u32,
    pub skip_valid_plays: u32,
    pub click_count: u32,
    pub click_valid_plays: u32,
    pub shuffle_count: u32,
    pub shuffle_valid_plays: u32,
    pub autoplay_count: u32,
    pub autoplay_valid_plays: u32,
}

impl View for AggregatedData {
    type V = StatsModel;

    open spec fn view(&self) -> StatsModel {
        StatsModel {
            ms_played: self.ms_played as int,
            play_count: self.play_count as int,
            skip_count: self.skip_count as int,
            skip_valid_plays: self.skip_valid_plays as int,
            click_count: self.click_count as int,
            click_valid_plays: self.click_valid_plays as int,
            shuffle_count: self.shuffle_count as int,
            shuffle_valid_plays: self.shuffle_valid_plays as int,
            autoplay_count: self.autoplay_count as int,
            autoplay_valid_plays: self.autoplay_valid_plays as int,
        }
    }
}

/// Zeroed statistics: the state of a freshly created group.
pub open spec fn stats_zero() -> StatsModel {
    StatsModel {
        ms_played: 0,
        play_count: 0,
        skip_count: 0,
        skip_valid_plays: 0,
        click_count: 0,
        click_valid_plays: 0,
        shuffle_count: 0,
        shuffle_valid_plays: 0,
        autoplay_count: 0,
        autoplay_valid_plays: 0,
    }
}

/// The start reason counted as a click.
pub open spec fn is_click_reason(s: Seq<char>) -> bool {
    eq_ignore_case(s, "clickrow"@)
}

/// The start reason counted as an autoplay.
pub open spec fn is_autoplay_reason(s: Seq<char>) -> bool {
    eq_ignore_case(s, "trackdone"@)
}

pub open spec fn stats_add_ms(s: StatsModel, ms: u64) -> StatsModel {
    StatsModel { ms_played: s.ms_played + ms, ..s }
}

pub open spec fn stats_inc_play(s: StatsModel) -> StatsModel {
    StatsModel { play_count: s.play_count + 1, ..s }
}

pub open spec fn stats_add_skip(s: StatsModel, skipped: bool) -> StatsModel {
    StatsModel {
        skip_count: s.skip_count + if skipped { 1int } else { 0int },
        skip_valid_plays: s.skip_valid_plays + 1,
        ..s
    }
}

pub open spec fn stats_add_shuffle(s: StatsModel, shuffled: bool) -> StatsModel {
    StatsModel {
        shuffle_count: s.shuffle_count + if shuffled { 1int } else { 0int },
        shuffle_valid_plays: s.shuffle_valid_plays + 1,
        ..s
    }
}

pub open spec fn stats_add_click(s: StatsModel, reason: Seq<char>) -> StatsModel {
    StatsModel {
        click_count: s.click_count + if is_click_reason(reason) { 1int } else { 0int },
        click_valid_plays: s.click_valid_plays + 1,
        ..s
    }
}

pub open spec fn stats_add_autoplay(s: StatsModel, reason: Seq<char>) -> StatsModel {
    StatsModel {
        autoplay_count: s.autoplay_count + if is_autoplay_reason(reason) { 1int } else { 0int },
        autoplay_valid_plays: s.autoplay_valid_plays + 1,
        ..s
    }
}

/// How one contributing record (with `ms` milliseconds played) updates a
/// group's statistics.
pub open spec fn stats_updated(s: StatsModel, r: PlayRecord, ms: u64) -> StatsModel {
    let s1 = stats_add_ms(stats_inc_play(s), ms);
    let s2 = match r.reason_start {
        Some(reason) => stats_add_autoplay(stats_add_click(s1, reason), reason),
        None => s1,
    };
    let s3 = match r.skipped {
        Some(skipped) => stats_add_skip(s2, skipped),
        None => s2,
    };
    match r.shuffle {
        Some(shuffled) => stats_add_shuffle(s3, shuffled),
        None => s3,
    }
}

/// Well-formedness of group statistics: every classification count is
/// bounded by its valid count, and every valid count by the play count.
pub open spec fn stats_wf(s: StatsModel) -> bool {
    &&& 0 <= s.ms_played
    &&& 0 <= s.skip_count <= s.skip_valid_plays <= s.play_count
    &&& 0 <= s.click_count <= s.click_valid_plays <= s.play_count
    &&& 0 <= s.shuffle_count <= s.shuffle_valid_plays <= s.play_count
    &&& 0 <= s.autoplay_count <= s.autoplay_valid_plays <= s.play_count
}

/// A percentage with an explicit zero-denominator convention: 0 when
/// `valid` is 0, else `100 * count / valid`, always within `[0, 100]`
/// whenever `count <= valid`.
pub open spec fn pct_of(count: int, valid: int) -> int {
    if valid <= 0 {
        0
    } else {
        100 * count / valid
    }
}

/// Percentage bounds: a percentage over a valid-count denominator lies in
/// `[0, 100]`, and is 0 whenever its denominator is 0.
pub proof fn lemma_percentage_bounds(count: int, valid: int)
    requires
        0 <= count <= valid,
    ensures
        0 <= pct_of(count, valid) <= 100,
        valid == 0 ==> pct_of(count, valid) == 0,
{
    if valid > 0 {
        assert(100 * count <= 100 * valid) by (nonlinear_arith)
            requires
                count <= valid,
        ;
        assert(0 <= 100 * count / valid <= 100) by (nonlinear_arith)
            requires
                valid > 0,
                0 <= 100 * count,
                100 * count <= 100 * valid,
        ;
    }
}

impl Default for AggregatedData {
    /// Zeroed statistics for a freshly created group.
    fn default() -> (r: Self)
        ensures
            r@ == stats_zero(),
    {
        AggregatedData {
            ms_played: 0,
            play_count: 0,
            skip_count: 0,
            skip_valid_plays: 0,
            click_count: 0,
            click_valid_plays: 0,
            shuffle_count: 0,
            shuffle_valid_plays: 0,
            autoplay_count: 0,
            autoplay_valid_plays: 0,
        }
    }
}

impl AggregatedData {
    /// Add a record's play time to the exact millisecond total.
    pub fn add_time_to_ms_played(&mut self, new_ms_played: &u64)
        requires
            old(self).ms_played + *new_ms_played <= u64::MAX,
        ensures
            final(self)@ == stats_add_ms(old(self)@, *new_ms_played),
    {
        self.ms_played = self.ms_played + *new_ms_played;
    }

    /// Count one more contributing record.
    pub fn increment_play_count(&mut self)
        requires
            old(self).play_count < u32::MAX,
        ensures
            final(self)@ == stats_inc_play(old(self)@),
    {
        self.play_count = self.play_count + 1;
    }

    /// Record a present skipped flag: one more valid observation, counted
    /// when the flag is set.
    pub fn add_to_skip_count(&mut self, skipped: bool)
        requires
            old(self).skip_count < u32::MAX,
            old(self).skip_valid_plays < u32::MAX,
        ensures
            final(self)@ == stats_add_skip(old(self)@, skipped),
    {
        if skipped {
            self.skip_count = self.skip_count + 1;
        }
        self.skip_valid_plays = self.skip_valid_plays + 1;
    }

    /// Record a present shuffle flag: one more valid observation, counted
    /// when the flag is set.
    pub fn add_to_shuffle_count(&mut self, shuffled: bool)
        requires
            old(self).shuffle_count < u32::MAX,
            old(self).shuffle_valid_plays < u32::MAX,
        ensures
            final(self)@ == stats_add_shuffle(old(self)@, shuffled),
    {
        if shuffled {
            self.shuffle_count = self.shuffle_count + 1;
        }
        self.shuffle_valid_plays = self.shuffle_valid_plays + 1;
    }

    /// Record a present start reason for the click classification: one more
    /// valid observation, counted when the reason is the row click.
    pub fn add_to_click_count(&mut self, reason_start: &String)
        requires
            old(self).click_count < u32::MAX,
            old(self).click_valid_plays < u32::MAX,
        ensures
            final(self)@ == stats_add_click(old(self)@, reason_start@),
    {
        if eq_ignore_ascii_case(reason_start.as_str(), "clickrow") {
            self.click_count = self.click_count + 1;
        }
        self.click_valid_plays = self.click_valid_plays + 1;
    }

    /// Record a present start reason for the autoplay classification: one
    /// more valid observation, counted when the reason is the track-finished
    /// one.
    pub fn add_to_autoplay_count(&mut self, reason_start: &String)
        requires
            old(self).autoplay_count < u32::MAX,
            old(self).autoplay_valid_plays < u32::MAX,
        ensures
            final(self)@ == stats_add_autoplay(old(self)@, reason_start@),
    {
        if eq_ignore_ascii_case(reason_start.as_str(), "trackdone") {
            self.autoplay_count = self.autoplay_count + 1;
        }
        self.autoplay_valid_plays = self.autoplay_valid_plays + 1;
    }

    /// The exact total of milliseconds played.
    pub fn get_ms_played(&self) -> (r: u64)
        ensures
            r == self@.ms_played,
    {
        self.ms_played
    }

    /// The number of contributing records.
    pub fn get_play_count(&self) -> (r: u32)
        ensures
            r == self@.play_count,
    {
        self.play_count
    }

    /// The skip percentage over the records with a present skipped flag.
    pub fn get_skip_pct(&self) -> (r: u64)
        ensures
            r == pct_of(self@.skip_count, self@.skip_valid_plays),
    {
        if self.skip_valid_plays == 0 {
            0
        } else {
            100u64 * (self.skip_count as u64) / (self.skip_valid_plays as u64)
        }
    }

    /// The click percentage over the records with a present start reason.
    pub fn get_click_pct(&self) -> (r: u64)
        ensures
            r == pct_of(self@.click_count, self@.click_valid_plays),
    {
        if self.click_valid_plays == 0 {
            0
        } else {
            100u64 * (self.click_count as u64) / (self.click_valid_plays as u64)
        }
    }

    /// The shuffle percentage over the records with a present shuffle flag.
    pub fn get_shuffle_pct(&self) -> (r: u64)
        ensures
            r == pct_of(self@.shuffle_count, self@.shuffle_valid_plays),
    {
        if self.shuffle_valid_plays == 0 {
            0
        } else {
            100u64 * (self.shuffle_count as u64) / (self.shuffle_valid_plays as u64)
        }
    }

    /// The autoplay percentage over the records with a present start reason.
    pub fn get_autoplay_pct(&self) -> (r: u64)
        ensures
            r == pct_of(self@.autoplay_count, self@.autoplay_valid_plays),
    {
        if self.autoplay_valid_plays == 0 {
            0
        } else {
            100u64 * (self.autoplay_count as u64) / (self.autoplay_valid_plays as u64)
        }
    }
}

/// The model of one group: its identity and its exact statistics.
pub struct GroupDataView {
    pub meta_data: MetaDataView,
    pub aggregated_data: StatsModel,
}

/// One group: its identity and the statistics aggregated for it.
#[derive(Debug, PartialEq)]
pub struct GroupData {
    pub meta_data: MetaData,
    pub aggregated_data: AggregatedData,
}

impl Clone for GroupData {
    /// A clone is the very same group.
    fn clone(&self) -> (r: Self)
        ensures
            r == *self,
    {
        let r = GroupData {
            meta_data: self.meta_data.clone(),
            aggregated_data: self.aggregated_data,
        };
        proof {
            assert(*self == GroupData {
                meta_data: self.meta_data,
                aggregated_data: self.aggregated_data,
            });
        }
        r
    }
}

impl View for GroupData {
    type V = GroupDataView;

    open spec fn view(&self) -> GroupDataView {
        GroupDataView { meta_data: self.meta_data@, aggregated_data: self.aggregated_data@ }
    }
}

/// A group tagged by its dimension. The tag always agrees with the identity
/// inside (see [`Group::wf`]).
#[derive(Debug, PartialEq)]
pub enum Group {
    Album(GroupData),
    Artist(GroupData),
    Song(GroupData),
    Podcast(GroupData),
    PodcastEpisode(GroupData),
}

impl Clone for Group {
    /// A clone is the very same group.
    fn clone(&self) -> (r: Self)
        ensures
            r == *self,
    {
        match self {
            Group::Album(group_data) => Group::Album(group_data.clone()),
            Group::Artist(group_data) => Group::Artist(group_data.clone()),
            Group::Song(group_data) => Group::Song(group_data.clone()),
            Group::Podcast(group_data) => Group::Podcast(group_data.clone()),
            Group::PodcastEpisode(group_data) => Group::PodcastEpisode(group_data.clone()),
        }
    }
}

impl View for Group {
    type V = GroupDataView;

    open spec fn view(&self) -> GroupDataView {
        match self {
            Group::Album(group_data) => group_data@,
            Group::Artist(group_data) => group_data@,
            Group::Song(group_data) => group_data@,
            Group::Podcast(group_data) => group_data@,
            Group::PodcastEpisode(group_data) => group_data@,
        }
    }
}

impl Group {
    /// The dimension this group was built for.
    pub open spec fn dim(&self) -> GroupBy {
        match self {
            Group::Album(_) => GroupBy::Album,
            Group::Artist(_) => GroupBy::Artist,
            Group::Song(_) => GroupBy::Song,
            Group::Podcast(_) => GroupBy::Podcast,
            Group::PodcastEpisode(_) => GroupBy::PodcastEpisode,
        }
    }

    /// The variant tag agrees with the identity stored inside.
    pub open spec fn wf(&self) -> bool {
        self.dim() == meta_dim(self@.meta_data)
    }

    /// The group's statistics, as the executable struct (used to state how
    /// mutation through [`Group::get_aggregated_data_mut`] acts).
    pub open spec fn spec_stats(&self) -> AggregatedData {
        match self {
            Group::Album(group_data) => group_data.aggregated_data,
            Group::Artist(group_data) => group_data.aggregated_data,
            Group::Song(group_data) => group_data.aggregated_data,
            Group::Podcast(group_data) => group_data.aggregated_data,
            Group::PodcastEpisode(group_data) => group_data.aggregated_data,
        }
    }

    /// The same group with its statistics replaced.
    pub open spec fn with_stats(self, stats: AggregatedData) -> Group {
        match self {
            Group::Album(group_data) => Group::Album(
                GroupData { aggregated_data: stats, ..group_data },
            ),
            Group::Artist(group_data) => Group::Artist(
                GroupData { aggregated_data: stats, ..group_data },
            ),
            Group::Song(group_data) => Group::Song(
                GroupData { aggregated_data: stats, ..group_data },
            ),
            Group::Podcast(group_data) => Group::Podcast(
                GroupData { aggregated_data: stats, ..group_data },
            ),
            Group::PodcastEpisode(group_data) => Group::PodcastEpisode(
                GroupData { aggregated_data: stats, ..group_data },
            ),
        }
    }

    /// A fresh album group for the record, if the record carries the album
    /// and artist names the dimension requires.
    pub fn new_album(play_item: &PlayItem) -> (r: Result<Self, ()>)
        ensures
            r is Ok <==> identity_of(GroupBy::Album, play_item@) is Some,
            r matches Ok(g) ==> identity_of(GroupBy::Album, play_item@) matches Some(id)
                && g@ == (GroupDataView { meta_data: id, aggregated_data: stats_zero() })
                && g.dim() == GroupBy::Album,
    {
        let album_name = match &play_item.master_metadata_album_album_name {
            Some(name) => name.clone(),
            None => { return Err(()); },
        };
        let artist_name = match &play_item.master_metadata_album_artist_name {
            Some(name) => name.clone(),
            None => { return Err(()); },
        };
        let meta_data = MetaData::Album { album_name, artist_name };
        let aggregated_data = AggregatedData::default();
        Ok(Self::Album(GroupData { meta_data, aggregated_data }))
    }

    /// A fresh artist group for the record, if the record carries the artist
    /// name.
    pub fn new_artist(play_item: &PlayItem) -> (r: Result<Self, ()>)
        ensures
            r is Ok <==> identity_of(GroupBy::Artist, play_item@) is Some,
            r matches Ok(g) ==> identity_of(GroupBy::Artist, play_item@) matches Some(id)
                && g@ == (GroupDataView { meta_data: id, aggregated_data: stats_zero() })
                && g.dim() == GroupBy::Artist,
    {
        let artist_name = match &play_item.master_metadata_album_artist_name {
            Some(name) => name.clone(),
            None => { return Err(()); },
        };
        let meta_data = MetaData::Artist { artist_name };
        let aggregated_data = AggregatedData::default();
        Ok(Self::Artist(GroupData { meta_data, aggregated_data }))
    }

    /// A fresh song group for the record, if the record carries the track,
    /// album and artist names the dimension requires.
    pub fn new_song(play_item: &PlayItem) -> (r: Result<Self, ()>)
        ensures
            r is Ok <==> identity_of(GroupBy::Song, play_item@) is Some,
            r matches Ok(g) ==> identity_of(GroupBy::Song, play_item@) matches Some(id)
                && g@ == (GroupDataView { meta_data: id, aggregated_data: stats_zero() })
                && g.dim() == GroupBy::Song,
    {
        let track_name = match &play_item.master_metadata_track_name {
            Some(name) => name.clone(),
            None => { return Err(()); },
        };
        let album_name = match &play_item.master_metadata_album_album_name {
            Some(name) => name.clone(),
            None => { return Err(()); },
        };
        let artist_name = match &play_item.master_metadata_album_artist_name {
            Some(name) => name.clone(),
            None => { return Err(()); },
        };
        let meta_data = MetaData::Song { track_name, album_name, artist_name };
        let aggregated_data = AggregatedData::default();
        Ok(Self::Song(GroupData { meta_data, aggregated_data }))
    }

    /// A fresh podcast group for the record, if the record carries the show
    /// name.
    pub fn new_podcast(play_item: &PlayItem) -> (r: Result<Self, ()>)
        ensures
            r is Ok <==> identity_of(GroupBy::Podcast, play_item@) is Some,
            r matches Ok(g) ==> identity_of(GroupBy::Podcast, play_item@) matches Some(id)
                && g@ == (GroupDataView { meta_data: id, aggregated_data: stats_zero() })
                && g.dim() == GroupBy::Podcast,
    {
        let podcast_name = match &play_item.episode_show_name {
            Some(name) => name.clone(),
            None => { return Err(()); },
        };
        let meta_data = MetaData::Podcast { podcast_name };
        let aggregated_data = AggregatedData::default();
        Ok(Self::Podcast(GroupData { meta_data, aggregated_data }))
    }

    /// A fresh podcast-episode group for the record, if the record carries
    /// the episode and show names the dimension requires.
    pub fn new_podcast_episode(play_item: &PlayItem) -> (r: Result<Self, ()>)
        ensures
            r is Ok <==> identity_of(GroupBy::PodcastEpisode, play_item@) is Some,
            r matches Ok(g) ==> identity_of(GroupBy::PodcastEpisode, play_item@) matches Some(id)
                && g@ == (GroupDataView { meta_data: id, aggregated_data: stats_zero() })
                && g.dim() == GroupBy::PodcastEpisode,
    {
        let episode_name = match &play_item.episode_name {
            Some(name) => name.clone(),
            None => { return Err(()); },
        };
        let podcast_name = match &play_item.episode_show_name {
            Some(name) => name.clone(),
            None => { return Err(()); },
        };
        let meta_data = MetaData::PodcastEpisode { episode_name, podcast_name };
        let aggregated_data = AggregatedData::default();
        Ok(Self::PodcastEpisode(GroupData { meta_data, aggregated_data }))
    }

    /// The group's statistics.
    pub fn get_aggregated_data(&self) -> (r: &AggregatedData)
        ensures
            *r == self.spec_stats(),
            r@ == self@.aggregated_data,
    {
        match self {
            Self::Album(group_data) => &group_data.aggregated_data,
            Self::Artist(group_data) => &group_data.aggregated_data,
            Self::Song(group_data) => &group_data.aggregated_data,
            Self::Podcast(group_data) => &group_data.aggregated_data,
            Self::PodcastEpisode(group_data) => &group_data.aggregated_data,
        }
    }

    /// Mutable access to the group's statistics; only the statistics can
    /// change through the returned reference.
    pub fn get_aggregated_data_mut(&mut self) -> (r: &mut AggregatedData)
        ensures
            *r == old(self).spec_stats(),
            *final(self) == old(self).with_stats(*final(r)),
    {
        match self {
            Self::Album(group_data) => &mut group_data.aggregated_data,
            Self::Artist(group_data) => &mut group_data.aggregated_data,
            Self::Song(group_data) => &mut group_data.aggregated_data,
            Self::Podcast(group_data) => &mut group_data.aggregated_data,
            Self::PodcastEpisode(group_data) => &mut group_data.aggregated_data,
        }
    }

    /// The group's identity.
    pub fn get_metadata(&self) -> (r: &MetaData)
        ensures
            r@ == self@.meta_data,
    {
        match self {
            Self::Album(group_data) => &group_data.meta_data,
            Self::Artist(group_data) => &group_data.meta_data,
            Self::Song(group_data) => &group_data.meta_data,
            Self::Podcast(group_data) => &group_data.meta_data,
            Self::PodcastEpisode(group_data) => &group_data.meta_data,
        }
    }
}

/// The models of a sequence of groups.
pub open spec fn groups_view(groups: Seq<Group>) -> Seq<GroupDataView> {
    groups.map_values(|g: Group| g@)
}

/// True when the record contributes a play for the dimension: it has a
/// milliseconds-played value and derives an identity.
pub open spec fn contributes(group_by: GroupBy, r: PlayRecord) -> bool {
    r.ms_played is Some && identity_of(group_by, r) is Some
}

/// Whether some group in `gs` carries identity `id`.
pub open spec fn has_group(gs: Seq<GroupDataView>, id: MetaDataView) -> bool {
    exists|i: int| 0 <= i < gs.len() && (#[trigger] gs[i]).meta_data == id
}

/// An index of a group in `gs` carrying identity `id` (unique whenever the
/// identities in `gs` are distinct).
pub open spec fn group_index(gs: Seq<GroupDataView>, id: MetaDataView) -> int {
    choose|i: int| 0 <= i < gs.len() && (#[trigger] gs[i]).meta_data == id
}

/// The identities in `gs` are pairwise distinct: the aggregation keeps at
/// most one group per identity.
pub open spec fn distinct_identities(gs: Seq<GroupDataView>) -> bool {
    forall|i: int, j: int|
        0 <= i < j < gs.len() ==> (#[trigger] gs[i]).meta_data != (#[trigger] gs[j]).meta_data
}

/// The exact sum of the milliseconds-played values present in `records`.
pub open spec fn sum_ms(records: Seq<PlayRecord>) -> int
    decreases records.len(),
{
    if records.len() == 0 {
        0
    } else {
        sum_ms(records.drop_last()) + match records.last().ms_played {
            Some(ms) => ms as int,
            None => 0int,
        }
    }
}

/// The aggregation of a record sequence for one dimension: records are
/// folded in order; a record without a milliseconds-played value or without
/// the dimension's identity fields is skipped; the first contributing record
/// of a new identity appends a fresh group, and every contributing record
/// updates its group's statistics.
pub open spec fn aggregate_spec(group_by: GroupBy, records: Seq<PlayRecord>) -> Seq<GroupDataView>
    decreases records.len(),
{
    if records.len() == 0 {
        Seq::empty()
    } else {
        let prev = aggregate_spec(group_by, records.drop_last());
        let r = records.last();
        match (r.ms_played, identity_of(group_by, r)) {
            (Some(ms), Some(id)) => if has_group(prev, id) {
                let i = group_index(prev, id);
                prev.update(
                    i,
                    GroupDataView {
                        meta_data: id,
                        aggregated_data: stats_updated(prev[i].aggregated_data, r, ms),
                    },
                )
            } else {
                prev.push(
                    GroupDataView {
                        meta_data: id,
                        aggregated_data: stats_updated(stats_zero(), r, ms),
                    },
                )
            },
            _ => prev,
        }
    }
}

/// A sum of milliseconds-played values is never negative.
pub proof fn lemma_sum_ms_nonneg(records: Seq<PlayRecord>)
    ensures
        sum_ms(records) >= 0,
    decreases records.len(),
{
    if records.len() > 0 {
        lemma_sum_ms_nonneg(records.drop_last());
    }
}

/// One record's update preserves well-formed statistics and grows the play
/// count by one and the millisecond total by the record's play time.
pub proof fn lemma_stats_updated_wf(s: StatsModel, r: PlayRecord, ms: u64)
    requires
        stats_wf(s),
    ensures
        ({
            let t = stats_updated(s, r, ms);
            &&& stats_wf(t)
            &&& t.play_count == s.play_count + 1
            &&& t.ms_played == s.ms_played + ms
        }),
{
}

/// Key collision-freedom, lifted to whole aggregations: the aggregation
/// never conflates two distinct identities, so its groups carry pairwise
/// distinct identities, each belonging to the requested dimension.
pub proof fn lemma_aggregate_distinct(group_by: GroupBy, records: Seq<PlayRecord>)
    ensures
        distinct_identities(aggregate_spec(group_by, records)),
        forall|i: int|
            0 <= i < aggregate_spec(group_by, records).len() ==> meta_dim(
                (#[trigger] aggregate_spec(group_by, records)[i]).meta_data,
            ) == group_by,
    decreases records.len(),
{
    if records.len() > 0 {
        lemma_aggregate_distinct(group_by, records.drop_last());
    }
}

/// Every group an aggregation produces is well formed: counts within valid
/// counts within the play count, the play count within the number of
/// records, and the millisecond total within the records' total.
pub proof fn lemma_aggregate_wf(group_by: GroupBy, records: Seq<PlayRecord>)
    ensures
        forall|i: int|
            0 <= i < aggregate_spec(group_by, records).len() ==> {
                let s = (#[trigger] aggregate_spec(group_by, records)[i]).aggregated_data;
                &&& stats_wf(s)
                &&& s.play_count <= records.len()
                &&& s.ms_played <= sum_ms(records)
            },
    decreases records.len(),
{
    if records.len() > 0 {
        let prefix = records.drop_last();
        let r = records.last();
        lemma_aggregate_wf(group_by, prefix);
        lemma_sum_ms_nonneg(prefix);
        let prev = aggregate_spec(group_by, prefix);
        let gs = aggregate_spec(group_by, records);
        assert(sum_ms(records) == sum_ms(prefix) + match r.ms_played {
            Some(ms) => ms as int,
            None => 0int,
        });
        assert forall|i: int| 0 <= i < gs.len() implies {
            let s = (#[trigger] gs[i]).aggregated_data;
            &&& stats_wf(s)
            &&& s.play_count <= records.len()
            &&& s.ms_played <= sum_ms(records)
        } by {
            match (r.ms_played, identity_of(group_by, r)) {
                (Some(ms), Some(id)) => {
                    if has_group(prev, id) {
                        let k = group_index(prev, id);
                        assert(0 <= k < prev.len() && prev[k].meta_data == id);
                        if i == k {
                            assert(gs[i].aggregated_data == stats_updated(
                                prev[k].aggregated_data,
                                r,
                                ms,
                            ));
                            assert(stats_wf(prev[k].aggregated_data));
                            lemma_stats_updated_wf(prev[k].aggregated_data, r, ms);
                        } else {
                            assert(gs[i] == prev[i]);
                        }
                    } else {
                        if i == prev.len() {
                            assert(gs[i].aggregated_data == stats_updated(stats_zero(), r, ms));
                            lemma_stats_updated_wf(stats_zero(), r, ms);
                        } else {
                            assert(gs[i] == prev[i]);
                        }
                    }
                },
                _ => {
                    assert(gs[i] == prev[i]);
                },
            }
        }
    }
}

/// Percentage bounds, for every group an aggregation produces and every
/// classification: the percentage lies in `[0, 100]`, and is 0 whenever its
/// valid-count denominator is 0.
pub proof fn lemma_group_percentages_bounded(group_by: GroupBy, records: Seq<PlayRecord>, i: int)
    requires
        0 <= i < aggregate_spec(group_by, records).len(),
    ensures
        ({
            let s = aggregate_spec(group_by, records)[i].aggregated_data;
            &&& 0 <= pct_of(s.skip_count, s.skip_valid_plays) <= 100
            &&& 0 <= pct_of(s.click_count, s.click_valid_plays) <= 100
            &&& 0 <= pct_of(s.shuffle_count, s.shuffle_valid_plays) <= 100
            &&& 0 <= pct_of(s.autoplay_count, s.autoplay_valid_plays) <= 100
            &&& s.skip_valid_plays == 0 ==> pct_of(s.skip_count, s.skip_valid_plays) == 0
            &&& s.click_valid_plays == 0 ==> pct_of(s.click_count, s.click_valid_plays) == 0
            &&& s.shuffle_valid_plays == 0 ==> pct_of(s.shuffle_count, s.shuffle_valid_plays) == 0
            &&& s.autoplay_valid_plays == 0 ==> pct_of(s.autoplay_count, s.autoplay_valid_plays)
                == 0
        }),
{
    lemma_aggregate_wf(group_by, records);
    let s = aggregate_spec(group_by, records)[i].aggregated_data;
    lemma_percentage_bounds(s.skip_count, s.skip_valid_plays);
    lemma_percentage_bounds(s.click_count, s.click_valid_plays);
    lemma_percentage_bounds(s.shuffle_count, s.shuffle_valid_plays);
    lemma_percentage_bounds(s.autoplay_count, s.autoplay_valid_plays);
}

/// The records that contribute to the group with identity `id`.
pub open spec fn contributing_to(
    group_by: GroupBy,
    records: Seq<PlayRecord>,
    id: MetaDataView,
) -> Seq<PlayRecord> {
    records.filter(|r: PlayRecord| r.ms_played is Some && identity_of(group_by, r) == Some(id))
}

/// Merge correctness and sum exactness: all records deriving one identity
/// merge into exactly one group; its play count is the number of those
/// records with a milliseconds-played value, and its millisecond total is
/// their exact integer sum.
pub proof fn lemma_merge_correctness(group_by: GroupBy, records: Seq<PlayRecord>, id: MetaDataView)
    ensures
        ({
            let gs = aggregate_spec(group_by, records);
            let matched = contributing_to(group_by, records, id);
            &&& (matched.len() == 0 <==> !has_group(gs, id))
            &&& (matched.len() > 0 ==> {
                let i = group_index(gs, id);
                &&& 0 <= i < gs.len()
                &&& gs[i].meta_data == id
                &&& forall|j: int|
                    0 <= j < gs.len() && j != i ==> (#[trigger] gs[j]).meta_data != id
                &&& gs[i].aggregated_data.play_count == matched.len()
                &&& gs[i].aggregated_data.ms_played == sum_ms(matched)
            })
        }),
    decreases records.len(),
{
    reveal(Seq::filter);
    lemma_aggregate_distinct(group_by, records);
    if records.len() == 0 {
    } else {
        let prefix = records.drop_last();
        let r = records.last();
        lemma_merge_correctness(group_by, prefix, id);
        lemma_aggregate_distinct(group_by, prefix);
        let prev = aggregate_spec(group_by, prefix);
        let gs = aggregate_spec(group_by, records);
        let matched_prev = contributing_to(group_by, prefix, id);
        let matched = contributing_to(group_by, records, id);
        if r.ms_played is Some && identity_of(group_by, r) == Some(id) {
            let ms = r.ms_played->0;
            assert(matched =~= matched_prev.push(r));
            assert(matched.drop_last() =~= matched_prev);
            assert(sum_ms(matched) == sum_ms(matched_prev) + ms);
            if has_group(prev, id) {
                let i = group_index(prev, id);
                assert(0 <= i < prev.len() && prev[i].meta_data == id);
                assert(gs == prev.update(
                    i,
                    GroupDataView {
                        meta_data: id,
                        aggregated_data: stats_updated(prev[i].aggregated_data, r, ms),
                    },
                ));
                assert(gs[i].meta_data == id);
                assert(has_group(gs, id));
                let w = group_index(gs, id);
                assert(0 <= w < gs.len() && gs[w].meta_data == id);
                assert(w == i);
                assert(matched_prev.len() > 0);
            } else {
                let i = prev.len() as int;
                assert(gs == prev.push(
                    GroupDataView {
                        meta_data: id,
                        aggregated_data: stats_updated(stats_zero(), r, ms),
                    },
                ));
                assert(gs[i].meta_data == id);
                assert(has_group(gs, id));
                let w = group_index(gs, id);
                assert(0 <= w < gs.len() && gs[w].meta_data == id);
                assert(w == i);
                assert(matched_prev.len() == 0);
                assert(sum_ms(matched_prev) == 0);
            }
        } else {
            assert(matched =~= matched_prev);
            if r.ms_played is Some && identity_of(group_by, r) is Some {
                let ms = r.ms_played->0;
                let other = identity_of(group_by, r)->0;
                assert(other != id);
                if has_group(prev, other) {
                    let k = group_index(prev, other);
                    assert(0 <= k < prev.len() && prev[k].meta_data == other);
                    assert(gs == prev.update(
                        k,
                        GroupDataView {
                            meta_data: other,
                            aggregated_data: stats_updated(prev[k].aggregated_data, r, ms),
                        },
                    ));
                    if has_group(prev, id) {
                        let w = group_index(prev, id);
                        assert(0 <= w < prev.len() && prev[w].meta_data == id);
                        assert(w != k);
                        assert(gs[w] == prev[w]);
                        assert(has_group(gs, id));
                        let wg = group_index(gs, id);
                        assert(0 <= wg < gs.len() && gs[wg].meta_data == id);
                        assert(wg == w);
                    } else {
                        if has_group(gs, id) {
                            let wg = group_index(gs, id);
                            assert(0 <= wg < gs.len() && gs[wg].meta_data == id);
                            assert(wg != k);
                            assert(prev[wg].meta_data == id);
                            assert(false);
                        }
                    }
                } else {
                    assert(gs == prev.push(
                        GroupDataView {
                            meta_data: other,
                            aggregated_data: stats_updated(stats_zero(), r, ms),
                        },
                    ));
                    if has_group(prev, id) {
                        let w = group_index(prev, id);
                        assert(0 <= w < prev.len() && prev[w].meta_data == id);
                        assert(gs[w] == prev[w]);
                        assert(has_group(gs, id));
                        let wg = group_index(gs, id);
                        assert(0 <= wg < gs.len() && gs[wg].meta_data == id);
                        assert(wg == w);
                    } else {
                        if has_group(gs, id) {
                            let wg = group_index(gs, id);
                            assert(0 <= wg < gs.len() && gs[wg].meta_data == id);
                            assert(wg != prev.len() as int);
                            assert(prev[wg].meta_data == id);
                            assert(false);
                        }
                    }
                }
            } else {
                assert(gs == prev);
            }
        }
    }
}

/// Stepping the prefix sum of milliseconds by one record.
pub proof fn lemma_sum_ms_take_step(records: Seq<PlayRecord>, i: int)
    requires
        0 <= i < records.len(),
    ensures
        sum_ms(records.take(i + 1)) == sum_ms(records.take(i)) + match records[i].ms_played {
            Some(ms) => ms as int,
            None => 0int,
        },
{
    assert(records.take(i + 1).drop_last() =~= records.take(i));
    assert(records.take(i + 1).last() == records[i]);
}

/// A prefix sum of milliseconds never exceeds the whole sum.
pub proof fn lemma_sum_ms_take_le(records: Seq<PlayRecord>, i: int)
    requires
        0 <= i <= records.len(),
    ensures
        sum_ms(records.take(i)) <= sum_ms(records),
    decreases records.len() - i,
{
    if i == records.len() {
        assert(records.take(i) =~= records);
    } else {
        lemma_sum_ms_take_step(records, i);
        lemma_sum_ms_take_le(records, i + 1);
    }
}

/// Fold one contributing record (whose play time is `ms_played`) into a
/// group's statistics, exactly as the aggregation rules say: count the
/// play, add the play time, and count each optional classification field
/// that is present.
pub fn update_hash_map_entry(entry: &mut Group, play_item: &PlayItem, ms_played: &u64)
    requires
        old(entry)@.aggregated_data.play_count < u32::MAX,
        old(entry)@.aggregated_data.skip_count < u32::MAX,
        old(entry)@.aggregated_data.skip_valid_plays < u32::MAX,
        old(entry)@.aggregated_data.click_count < u32::MAX,
        old(entry)@.aggregated_data.click_valid_plays < u32::MAX,
        old(entry)@.aggregated_data.shuffle_count < u32::MAX,
        old(entry)@.aggregated_data.shuffle_valid_plays < u32::MAX,
        old(entry)@.aggregated_data.autoplay_count < u32::MAX,
        old(entry)@.aggregated_data.autoplay_valid_plays < u32::MAX,
        old(entry)@.aggregated_data.ms_played + *ms_played <= u64::MAX,
    ensures
        final(entry)@.meta_data == old(entry)@.meta_data,
        final(entry).dim() == old(entry).dim(),
        final(entry)@.aggregated_data == stats_updated(
            old(entry)@.aggregated_data,
            play_item@,
            *ms_played,
        ),
{
    let aggregated_data = entry.get_aggregated_data_mut();
    aggregated_data.increment_play_count();
    aggregated_data.add_time_to_ms_played(ms_played);

    if let Some(reason_start) = &play_item.reason_start {
        aggregated_data.add_to_click_count(reason_start);
        aggregated_data.add_to_autoplay_count(reason_start);
    }

    if let Some(skipped) = play_item.skipped {
        aggregated_data.add_to_skip_count(skipped);
    }

    if let Some(shuffled) = play_item.shuffle {
        aggregated_data.add_to_shuffle_count(shuffled);
    }
}

/// Look up the group carrying the given identity.
fn find_group_index(groups: &Vec<Group>, meta_data: &MetaData) -> (r: Option<usize>)
    ensures
        match r {
            Some(i) => i < groups@.len() && groups@[i as int]@.meta_data == meta_data@,
            None => !has_group(groups_view(groups@), meta_data@),
        },
{
    let n = groups.len();
    for i in 0..n
        invariant
            n == groups@.len(),
            forall|j: int| 0 <= j < i ==> (#[trigger] groups@[j])@.meta_data != meta_data@,
    {
        if groups[i].get_metadata().same_identity(meta_data) {
            return Some(i);
        }
    }
    proof {
        assert forall|j: int| 0 <= j < groups_view(groups@).len() implies (#[trigger] groups_view(
            groups@,
        )[j]).meta_data != meta_data@ by {
            assert(groups_view(groups@)[j] == groups@[j]@);
        }
    }
    None
}

/// Mutable access to one group of the collection.
fn group_slot_mut(groups: &mut Vec<Group>, i: usize) -> (r: &mut Group)
    requires
        i < old(groups)@.len(),
    ensures
        *r == old(groups)@[i as int],
        final(groups)@ == old(groups)@.update(i as int, *final(r)),
{
    &mut groups[i]
}

/// Group the play records by the chosen dimension and aggregate each
/// group's statistics; the groups come back in first-appearance order of
/// their identities (no order is promised to be meaningful — the sort stage
/// imposes one).
///
/// The two bounds keep every counter within its machine width: they are
/// what lets the sums stay exact.
pub fn get_grouped_data(group_by: &GroupBy, played_items: Vec<PlayItem>) -> (r: Vec<Group>)
    requires
        played_items@.len() <= u32::MAX,
        sum_ms(records_of(played_items@)) <= u64::MAX,
    ensures
        groups_view(r@) == aggregate_spec(*group_by, records_of(played_items@)),
        forall|i: int|
            0 <= i < r@.len() ==> (#[trigger] r@[i]).wf() && r@[i].dim() == *group_by,
{
    let ghost all_records = records_of(played_items@);
    let mut grouped_data: Vec<Group> = Vec::new();
    let n = played_items.len();
    for idx in 0..n
        invariant
            n == played_items@.len(),
            played_items@.len() <= u32::MAX,
            sum_ms(records_of(played_items@)) <= u64::MAX,
            all_records == records_of(played_items@),
            groups_view(grouped_data@) == aggregate_spec(*group_by, all_records.take(idx as int)),
            forall|i: int|
                0 <= i < grouped_data@.len() ==> (#[trigger] grouped_data@[i]).wf()
                    && grouped_data@[i].dim() == *group_by,
    {
        let play_item = &played_items[idx];
        let ghost prefix = all_records.take(idx as int);
        let ghost prefix1 = all_records.take(idx as int + 1);
        proof {
            assert(all_records[idx as int] == played_items@[idx as int]@);
            assert(prefix1.drop_last() =~= prefix);
            assert(prefix1.last() == play_item@);
        }
        if let Some(ms) = play_item.ms_played {
            let group_result = match *group_by {
                GroupBy::Album => Group::new_album(play_item),
                GroupBy::Artist => Group::new_artist(play_item),
                GroupBy::Song => Group::new_song(play_item),
                GroupBy::Podcast => Group::new_podcast(play_item),
                GroupBy::PodcastEpisode => Group::new_podcast_episode(play_item),
            };
            if let Ok(group_for_play_item) = group_result {
                let ghost id = group_for_play_item@.meta_data;
                let ghost prev = aggregate_spec(*group_by, prefix);
                proof {
                    assert(identity_of(*group_by, play_item@) == Some(id));
                    lemma_aggregate_distinct(*group_by, prefix);
                    lemma_aggregate_wf(*group_by, prefix);
                    lemma_sum_ms_nonneg(prefix);
                    lemma_sum_ms_take_step(all_records, idx as int);
                    lemma_sum_ms_take_le(all_records, idx as int + 1);
                }
                match find_group_index(&grouped_data, group_for_play_item.get_metadata()) {
                    Some(i) => {
                        let ghost pre_groups = grouped_data@;
                        proof {
                            assert(groups_view(pre_groups)[i as int] == pre_groups[i as int]@);
                            assert(prev[i as int].meta_data == id);
                            assert(has_group(prev, id));
                            let w = group_index(prev, id);
                            assert(0 <= w < prev.len() && prev[w].meta_data == id);
                            assert(w == i as int);
                        }
                        let entry = group_slot_mut(&mut grouped_data, i);
                        update_hash_map_entry(entry, play_item, &ms);
                        proof {
                            assert forall|j: int|
                                0 <= j < grouped_data@.len() implies #[trigger] groups_view(
                                grouped_data@,
                            )[j] == aggregate_spec(*group_by, prefix1)[j] by {
                                assert(groups_view(grouped_data@)[j] == grouped_data@[j]@);
                                if j != i as int {
                                    assert(grouped_data@[j] == pre_groups[j]);
                                    assert(groups_view(pre_groups)[j] == pre_groups[j]@);
                                }
                            }
                            assert(groups_view(grouped_data@) =~= aggregate_spec(
                                *group_by,
                                prefix1,
                            ));
                            assert forall|k: int|
                                0 <= k < grouped_data@.len() implies (#[trigger] grouped_data@[k]).wf()
                                    && grouped_data@[k].dim() == *group_by by {
                                if k != i as int {
                                    assert(grouped_data@[k] == pre_groups[k]);
                                }
                            }
                        }
                    },
                    None => {
                        let ghost pre_groups = grouped_data@;
                        let mut new_group = group_for_play_item;
                        update_hash_map_entry(&mut new_group, play_item, &ms);
                        grouped_data.push(new_group);
                        proof {
                            assert(!has_group(prev, id));
                            assert forall|j: int|
                                0 <= j < grouped_data@.len() implies #[trigger] groups_view(
                                grouped_data@,
                            )[j] == aggregate_spec(*group_by, prefix1)[j] by {
                                assert(groups_view(grouped_data@)[j] == grouped_data@[j]@);
                                if j < pre_groups.len() {
                                    assert(grouped_data@[j] == pre_groups[j]);
                                    assert(groups_view(pre_groups)[j] == pre_groups[j]@);
                                }
                            }
                            assert(groups_view(grouped_data@) =~= aggregate_spec(
                                *group_by,
                                prefix1,
                            ));
                            assert forall|k: int|
                                0 <= k < grouped_data@.len() implies (#[trigger] grouped_data@[k]).wf()
                                    && grouped_data@[k].dim() == *group_by by {
                                if k < pre_groups.len() {
                                    assert(grouped_data@[k] == pre_groups[k]);
                                }
                            }
                        }
                    },
                }
            } else {
                proof {
                    assert(identity_of(*group_by, play_item@) is None);
                    assert(aggregate_spec(*group_by, prefix1) == aggregate_spec(*group_by, prefix));
                }
            }
        } else {
            proof {
                assert(aggregate_spec(*group_by, prefix1) == aggregate_spec(*group_by, prefix));
            }
        }
    }
    proof {
        assert(all_records.take(n as int) =~= all_records);
    }
    grouped_data
}

} // verus!
