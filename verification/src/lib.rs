//! Statistics over a personal streaming-history export: restrict the play
//! records to an inclusive date window, group them by a chosen dimension
//! (song, album, artist, podcast, podcast episode), fold each group into
//! exact aggregate listening statistics, and order the groups by a chosen
//! metric.

pub mod dates;
pub mod errors;
pub mod filter;
pub mod group;
pub mod plays;
pub mod sort;
pub mod state;
pub mod text;

pub use errors::StatsError;
pub use plays::PlayItem;
