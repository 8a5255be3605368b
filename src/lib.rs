//! Secure removal of files and directory trees: every regular file that is
//! the only name for its data is overwritten four times, every entry is
//! renamed through shorter and shorter all-zero names and then deleted.
//!
//! The library decides; the caller touches the filesystem. Each module
//! holds the rules for one stage and states them in its contracts.
pub mod error;
pub mod path;
pub mod erase;
pub mod shred;
pub mod purge;
pub mod cli;
