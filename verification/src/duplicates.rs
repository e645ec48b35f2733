//! Duplicate-file detection: files are grouped by size, the groups that are
//! small enough are grouped again by content digest, and every digest shared
//! by two or more files is reported with the space its extra copies take.
//!
//! A scan goes in steps. What a walk of the directory found becomes the
//! inventory ([`collect_inventory`]). A [`HashPlan`] names the files that
//! have to be hashed: those that share their size with another file and are
//! not larger than the ceiling. The caller reads and hashes them, in any
//! order and on as many threads as it likes, and hands the digests back;
//! the plan then makes the report ([`ScanResult`]), which
//! [`render_report`] writes as text. [`find_duplicates`] does the same for
//! an inventory whose digests are already known, and the single stages are
//! there to be used one by one.
//!
//! The modules `laws`, `classes` and `bounds` state what holds of every scan.

pub mod bounds;
pub mod classes;
pub mod grouping;
pub mod inventory;
pub mod laws;
pub mod partition;
pub mod plan;
pub mod render;
pub mod report;
pub mod scan;
pub mod seq_facts;
pub mod sets;

pub use bounds::inventory_size;
pub use inventory::{
    collect_inventory, passes_minimum, walk_depth, FileInfo, ScanError, WalkEvent,
};
pub use partition::{partition_by_size, SizeGroup};
pub use plan::HashPlan;
pub use render::{render_head, render_report, render_section};
pub use report::{aggregate, rank_by_wasted, ScanResult};
pub use scan::{collect_duplicate_sets, find_duplicates, hash_candidates, split_by_ceiling};
pub use sets::{partition_by_digest, DuplicateGroup};
