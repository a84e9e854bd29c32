//! Locating and extracting the video stream that phone cameras embed in a
//! "motion photo" still image (JPEG or HEIC).
pub mod media;
pub mod motion;
pub mod resolve;
pub mod search;

pub use media::{context_duration, single_track_duration};
pub use motion::{DumpError, SmMotion};
pub use resolve::{is_video_brand_at, locate, resolve, scan_adjacent, scan_branded};
pub use search::{find_first, Bytes};
