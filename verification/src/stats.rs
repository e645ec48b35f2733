//! Statistics of a directory: how many files and directories it holds, how
//! large they are together, and how they spread over extensions and sizes.

use crate::ranking::{by_weight, first_n, rank, HasWeight, Weighted};
use crate::search::{is_hidden, EntryKind};
use crate::sizes::{class_of, SizeClass};
use crate::tally::{capped_sum, counted, Count, Tally, TallyEntry};
use crate::text::{lowercase, optional_chars, starts_with_char, to_lowercase};
use vstd::prelude::*;

verus! {

/// An entry of the directory as the statistics see it.
#[derive(Debug)]
pub struct StatEntry {
    /// The entry's own name, without its directory.
    pub name: String,
    /// How deep below the directory the entry lies; 0 is the directory itself.
    pub depth: usize,
    pub kind: EntryKind,
    /// The size in bytes; nothing where the metadata could not be read.
    pub size: Option<u64>,
    /// The extension of the name, where it has one that is text.
    pub extension: Option<String>,
}

/// The statistics of a directory.
pub struct StatsModel {
    pub total_files: u64,
    pub total_dirs: u64,
    pub total_size: u64,
    pub extensions: Seq<Count>,
    pub sizes: Seq<u64>,
}

/// The statistics of a directory: the number of files and of directories,
/// the bytes of all files, a count for each extension, and the number of
/// files in each size class. All numbers stop at the largest that 64 bits
/// hold.
pub struct DirectoryStats {
    total_files: u64,
    total_dirs: u64,
    total_size: u64,
    extensions: Tally,
    sizes: [u64; 6],
}

/// A file with its size.
#[derive(Debug)]
pub struct SizedPath {
    pub path: String,
    pub size: u64,
}

impl HasWeight for SizedPath {
    /// Files are ordered by their size.
    open spec fn weight(&self) -> nat {
        self.size as nat
    }
}

impl Weighted for SizedPath {
    fn weigh(&self) -> (w: u64) {
        self.size
    }
}

/// The label under which a file is counted: its extension in lower case, or
/// `(no extension)`.
pub open spec fn extension_label(extension: Option<Seq<char>>) -> Seq<char> {
    match extension {
        Some(e) => lowercase(e),
        None => lowercase("(no extension)"@),
    }
}

/// The statistics after one more entry was seen. A hidden entry changes
/// nothing unless hidden entries are asked for. A directory is counted as
/// one. A file is counted as one; where its size is known, the size is added
/// to the bytes, to the count of its extension and to that of its size class.
/// Anything else changes nothing.
pub open spec fn stats_after(
    before: StatsModel,
    name: Seq<char>,
    depth: usize,
    kind: EntryKind,
    size: Option<u64>,
    extension: Option<Seq<char>>,
    hidden: bool,
) -> StatsModel {
    if !hidden && is_hidden(name, depth) {
        before
    } else if kind == EntryKind::Dir {
        StatsModel { total_dirs: capped_sum(before.total_dirs, 1), ..before }
    } else if kind == EntryKind::File {
        match size {
            Some(bytes) => StatsModel {
                total_files: capped_sum(before.total_files, 1),
                total_size: capped_sum(before.total_size, bytes),
                extensions: counted(before.extensions, extension_label(extension), bytes),
                sizes: before.sizes.update(
                    class_of(bytes).rank() as int,
                    capped_sum(before.sizes[class_of(bytes).rank() as int], 1),
                ),
                ..before
            },
            None => StatsModel { total_files: capped_sum(before.total_files, 1), ..before },
        }
    } else {
        before
    }
}

impl DirectoryStats {
    /// The statistics as plain numbers.
    pub closed spec fn view(&self) -> StatsModel {
        StatsModel {
            total_files: self.total_files,
            total_dirs: self.total_dirs,
            total_size: self.total_size,
            extensions: self.extensions@,
            sizes: self.sizes@,
        }
    }

    /// The statistics of nothing.
    pub fn new() -> (stats: DirectoryStats)
        ensures
            stats@.total_files == 0,
            stats@.total_dirs == 0,
            stats@.total_size == 0,
            stats@.extensions == Seq::<Count>::empty(),
            stats@.sizes == seq![0u64, 0u64, 0u64, 0u64, 0u64, 0u64],
    {
        let sizes: [u64; 6] = [0, 0, 0, 0, 0, 0];
        assert(sizes@ =~= seq![0u64, 0u64, 0u64, 0u64, 0u64, 0u64]);
        DirectoryStats {
            total_files: 0,
            total_dirs: 0,
            total_size: 0,
            extensions: Tally::new(),
            sizes,
        }
    }

    /// Takes one more entry into the statistics. `hidden` says whether
    /// hidden entries are counted.
    pub fn record(&mut self, entry: &StatEntry, hidden: bool)
        ensures
            final(self)@ == stats_after(
                old(self)@,
                entry.name@,
                entry.depth,
                entry.kind,
                entry.size,
                optional_chars(entry.extension),
                hidden,
            ),
    {
        if !hidden && starts_with_char(entry.name.as_str(), '.') && entry.depth > 0 {
            return ;
        }
        if entry.kind == EntryKind::Dir {
            self.total_dirs = self.total_dirs.saturating_add(1);
        } else if entry.kind == EntryKind::File {
            self.total_files = self.total_files.saturating_add(1);
            if let Some(bytes) = entry.size {
                self.total_size = self.total_size.saturating_add(bytes);
                let label = match &entry.extension {
                    Some(e) => to_lowercase(e.as_str()),
                    None => to_lowercase("(no extension)"),
                };
                self.extensions.add(label, bytes);
                let class = SizeClass::of(bytes).index();
                let count = self.sizes[class].saturating_add(1);
                self.sizes[class] = count;
            }
        }
    }

    /// The number of files.
    pub fn total_files(&self) -> (n: u64)
        ensures
            n == self@.total_files,
    {
        self.total_files
    }

    /// The number of directories.
    pub fn total_dirs(&self) -> (n: u64)
        ensures
            n == self@.total_dirs,
    {
        self.total_dirs
    }

    /// The bytes of all files whose size is known.
    pub fn total_size(&self) -> (n: u64)
        ensures
            n == self@.total_size,
    {
        self.total_size
    }

    /// The number of files in a size class.
    pub fn files_of_class(&self, class: SizeClass) -> (n: u64)
        ensures
            self@.sizes.len() == 6,
            n == self@.sizes[class.rank() as int],
    {
        self.sizes[class.index()]
    }

    /// The counts of the extensions, in the order in which they first
    /// occurred.
    pub fn extensions(&self) -> (tally: &Tally)
        ensures
            tally@ == self@.extensions,
    {
        &self.extensions
    }
}

/// A copy of each entry.
fn copy_entries(entries: &Vec<TallyEntry>) -> (copies: Vec<TallyEntry>)
    ensures
        copies@ == entries@,
{
    let mut copies: Vec<TallyEntry> = Vec::new();
    let mut i: usize = 0;
    while i < entries.len()
        invariant
            i <= entries.len(),
            copies@ == entries@.take(i as int),
        decreases entries.len() - i,
    {
        let entry = &entries[i];
        copies.push(
            TallyEntry { label: entry.label.clone(), count: entry.count, bytes: entry.bytes },
        );
        assert(copies@ =~= entries@.take(i as int + 1));
        i += 1;
    }
    assert(entries@.take(i as int) =~= entries@);
    copies
}

/// The `n` labels with the highest counts, the highest first; labels of the
/// same count in the order in which they first occurred.
pub fn top_counts(tally: &Tally, n: usize) -> (top: Vec<TallyEntry>)
    ensures
        top@ == if n <= tally.entries.len() {
            by_weight(tally.entries@).take(n as int)
        } else {
            by_weight(tally.entries@)
        },
{
    let ranked = rank(copy_entries(&tally.entries));
    proof {
        crate::ranking::lemma_by_weight_descends(tally.entries@);
    }
    first_n(ranked, n)
}

/// The `n` largest files, the largest first; files of the same size in the
/// order in which they were given.
pub fn largest_files(files: Vec<SizedPath>, n: usize) -> (largest: Vec<SizedPath>)
    ensures
        largest@ == if n <= files.len() {
            by_weight(files@).take(n as int)
        } else {
            by_weight(files@)
        },
{
    let ranked = rank(files);
    proof {
        crate::ranking::lemma_by_weight_descends(files@);
    }
    first_n(ranked, n)
}

/// The width of the column of paths in a terminal of `term_width` columns:
/// what is left beside 20 columns for the sizes, but 40 at least.
pub fn path_column_width(term_width: usize) -> (width: usize)
    ensures
        width == if term_width >= 60 {
            (term_width - 20) as usize
        } else {
            40usize
        },
{
    let left = term_width.saturating_sub(20);
    if left < 40 {
        40
    } else {
        left
    }
}

} // verus!
