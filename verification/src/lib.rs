//! Verified core of `sever`, a tool that turns every hard link it is given
//! into a file of its own: a path whose inode has more than one link is
//! copied aside, the path's link is removed and the copy is moved into its
//! place.
//!
//! The library holds the decisions of that tool; the program around it does
//! the file-system work and hands the results back.
pub mod text;
pub mod error;
pub mod join;
pub mod dedup;
pub mod walk;
pub mod tree;
pub mod temp;
pub mod job;
pub mod report;
pub mod splash;

pub use error::{Error, ErrorKind};
pub use join::StringJoinExt;
