//! Ferret's verified core: duplicate-file detection and the small rule sets
//! (configuration, name patterns, size classes) that the command-line tool is
//! built on.
//!
//! Nothing in this library touches the file system or the terminal. Callers
//! hand it plain values (paths as strings, sizes, bytes read from files) and
//! get plain values back.

pub mod browser;
pub mod config;
pub mod digest;
pub mod duplicates;
pub mod grep;
pub mod organize;
pub mod pattern;
pub mod ranking;
pub mod search;
pub mod sizes;
pub mod stats;
pub mod tally;
pub mod text;
