//! File records and the inventory of a scan.

use vstd::prelude::*;

verus! {

/// What a scan knows of one file.
pub struct Record {
    pub path: Seq<char>,
    pub size: u64,
    pub digest: Option<Seq<char>>,
}

/// A file found by a scan: its path, its size in bytes and, once it has been
/// hashed, the digest of its content.
#[derive(Debug, Clone)]
pub struct FileInfo {
    pub path: String,
    pub size: u64,
    pub hash: Option<String>,
}

impl View for FileInfo {
    type V = Record;

    open spec fn view(&self) -> Record {
        Record {
            path: self.path@,
            size: self.size,
            digest: match self.hash {
                Some(h) => Some(h@),
                None => None,
            },
        }
    }
}

/// Taking each file for its record.
pub open spec fn record_of() -> spec_fn(FileInfo) -> Record {
    |f: FileInfo| f@
}

/// The records of a sequence of files.
pub open spec fn records(files: Seq<FileInfo>) -> Seq<Record> {
    files.map_values(record_of())
}

/// What a walk over a directory tree reports, one event for each entry that
/// it comes to.
#[derive(Debug)]
pub enum WalkEvent {
    /// An entry was read.
    Entry {
        path: String,
        /// Whether the entry is a regular file.
        is_file: bool,
        /// The size in bytes; nothing where the entry's metadata could not
        /// be read.
        size: Option<u64>,
    },
    /// An entry could not be read. `depth` says how far below the root of
    /// the walk it lies; 0 is the root itself.
    Unreadable { depth: usize },
}

/// Why a scan could not be made.
#[derive(Debug, Clone, Copy, PartialEq, Eq, Structural)]
pub enum ScanError {
    /// The directory to scan does not exist or cannot be read.
    RootUnreadable,
}

/// A size passes the filter if there is none, or if it is not below it.
pub open spec fn meets_minimum(size: u64, min_size: Option<u64>) -> bool {
    match min_size {
        Some(min) => size >= min,
        None => true,
    }
}

/// Whether an event brings a file into the inventory: it is a regular file
/// whose size is known and passes the minimum-size filter.
pub open spec fn is_admitted(event: WalkEvent, min_size: Option<u64>) -> bool {
    match event {
        WalkEvent::Entry { path, is_file, size } => is_file && size is Some && meets_minimum(
            size->0,
            min_size,
        ),
        WalkEvent::Unreadable { depth } => false,
    }
}

/// The record of a file that was just found: nothing is hashed yet.
pub open spec fn fresh_record(event: WalkEvent) -> Record {
    match event {
        WalkEvent::Entry { path, is_file, size } => Record {
            path: path@,
            size: match size {
                Some(bytes) => bytes,
                None => 0,
            },
            digest: None,
        },
        WalkEvent::Unreadable { depth } => Record { path: Seq::empty(), size: 0, digest: None },
    }
}

/// The test that an event brings a file into the inventory.
pub open spec fn admitted(min_size: Option<u64>) -> spec_fn(WalkEvent) -> bool {
    |event: WalkEvent| is_admitted(event, min_size)
}

/// Turning an event into the fresh record of its file.
pub open spec fn to_fresh_record() -> spec_fn(WalkEvent) -> Record {
    |event: WalkEvent| fresh_record(event)
}

/// The inventory of a scan: the regular files that the walk found, whose size
/// is known and passes the minimum-size filter, in the order in which they
/// were found, none of them hashed.
pub open spec fn inventory(events: Seq<WalkEvent>, min_size: Option<u64>) -> Seq<Record> {
    events.filter(admitted(min_size)).map_values(to_fresh_record())
}

/// Whether the walk failed at its root, so that there is nothing to scan.
pub open spec fn root_failed(events: Seq<WalkEvent>) -> bool {
    exists|i: int|
        0 <= i < events.len() && #[trigger] events[i] == (WalkEvent::Unreadable { depth: 0 })
}

/// How deep a scan walks: one level where it is not recursive, else without
/// limit.
pub open spec fn depth_limit(recursive: bool) -> Option<usize> {
    if recursive {
        None
    } else {
        Some(1usize)
    }
}

/// No two records have the same path.
pub open spec fn distinct_paths(files: Seq<Record>) -> bool {
    forall|i: int, j: int|
        0 <= i < files.len() && 0 <= j < files.len() && i != j ==> #[trigger] files[i].path
            != #[trigger] files[j].path
}

impl FileInfo {
    /// The record of a file that has not been hashed.
    pub fn new(path: String, size: u64) -> (file: FileInfo)
        ensures
            file@ == (Record { path: path@, size, digest: None }),
            file.path == path,
    {
        FileInfo { path, size, hash: None }
    }

    /// A copy of this record.
    pub fn duplicate(&self) -> (copy: FileInfo)
        ensures
            copy == *self,
    {
        let hash = match &self.hash {
            Some(h) => Some(h.clone()),
            None => None,
        };
        FileInfo { path: self.path.clone(), size: self.size, hash }
    }
}

/// Whether a file of `size` bytes is taken into the inventory.
pub fn passes_minimum(size: u64, min_size: Option<u64>) -> (keep: bool)
    ensures
        keep == meets_minimum(size, min_size),
{
    match min_size {
        Some(min) => size >= min,
        None => true,
    }
}

/// How deep a scan walks: one level where it is not recursive, else without
/// limit.
pub fn walk_depth(recursive: bool) -> (depth: Option<usize>)
    ensures
        depth == depth_limit(recursive),
{
    if recursive {
        None
    } else {
        Some(1)
    }
}

/// Builds the inventory from what a walk reported. Regular files whose size
/// is known and not below `min_size` are taken, in order, none of them
/// hashed; everything else is passed over, and so are entries that could not
/// be read. Only a walk that failed at its root is an error.
pub fn collect_inventory(events: Vec<WalkEvent>, min_size: Option<u64>) -> (found: Result<
    Vec<FileInfo>,
    ScanError,
>)
    ensures
        match found {
            Ok(files) => {
                &&& !root_failed(events@)
                &&& records(files@) == inventory(events@, min_size)
                &&& forall|i: int|
                    0 <= i < files.len() ==> meets_minimum(#[trigger] files[i].size, min_size)
            },
            Err(ScanError::RootUnreadable) => root_failed(events@),
        },
{
    let ghost all = events@;
    let mut files: Vec<FileInfo> = Vec::new();
    proof {
        assert(all.take(0) =~= Seq::<WalkEvent>::empty());
        assert(all.take(0).filter(admitted(min_size)) =~= Seq::<WalkEvent>::empty()) by {
            reveal(Seq::filter);
        }
        assert(records(files@) =~= inventory(all.take(0), min_size));
    }
    for event in it: events.into_iter()
        invariant
            it.seq() == all,
            records(files@) == inventory(all.take(it.index() as int), min_size),
            forall|i: int|
                0 <= i < files.len() ==> meets_minimum(#[trigger] files[i].size, min_size),
            forall|i: int|
                0 <= i < it.index() ==> #[trigger] all[i] != (WalkEvent::Unreadable { depth: 0 }),
    {
        proof {
            let seen = all.take(it.index() as int);
            assert(all.take(it.index() as int + 1) =~= seen.push(event));
            seen.lemma_filter_push(event, admitted(min_size));
            seen.filter(admitted(min_size)).lemma_push_map_commute(to_fresh_record(), event);
        }
        match event {
            WalkEvent::Entry { path, is_file, size } => {
                if let Some(bytes) = size {
                    if is_file && passes_minimum(bytes, min_size) {
                        let ghost before = files@;
                        let file = FileInfo::new(path, bytes);
                        files.push(file);
                        proof {
                            before.lemma_push_map_commute(record_of(), file);
                        }
                    }
                }
            },
            WalkEvent::Unreadable { depth } => {
                if depth == 0 {
                    assert(all[it.index() as int] == (WalkEvent::Unreadable { depth: 0 }));
                    return Err(ScanError::RootUnreadable);
                }
            },
        }
    }
    proof {
        assert(all.take(all.len() as int) =~= all);
    }
    Ok(files)
}

} // verus!
