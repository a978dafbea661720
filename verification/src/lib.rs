//! Heat map of file change frequency over a version-control history.
//!
//! The library selects commits inside a time window, pairs each commit with
//! its predecessor, classifies the path-level deltas of each pair, follows
//! rename chains so counts attach to a file's newest known name, and merges
//! partial count tables into one aggregate.

mod aggregate;
mod counts;
mod delta;
mod error;
mod select;
mod tables;
mod time_norm;

pub use aggregate::get_files_changed;
pub use aggregate::process_delta;
pub use counts::ChangeCounts;
pub use delta::DeltaKind;
pub use delta::PathDelta;
pub use error::Error;
pub use tables::RenameTable;
pub use select::CommitInfo;
pub use select::commits_in_date_range;
pub use select::pair_commits;
pub use time_norm::NormalizedTime;
pub use time_norm::git2_time_to_offset;
