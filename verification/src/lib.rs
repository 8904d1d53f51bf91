//! `retime` scans arbitrary text for numeric runs that plausibly encode a Unix
//! epoch timestamp (seconds, milliseconds, or nanoseconds since the epoch) and
//! rewrites each match in place as an RFC 3339 date, leaving every other
//! character untouched.
//!
//! The pipeline is: a [`Reformatter`] is calibrated once from a reference
//! instant and a year threshold; each line is then scanned into fragments
//! (literal text and timestamp candidates), candidates are classified by which
//! calibrated range contains their value, and matches are rendered either in
//! UTC or in the host-local offset.

pub mod config;
pub mod digits;
pub mod render;
pub mod scan;
pub mod timefmt;

pub use config::{Reformatter, Resolution};
pub use scan::Fragment;
