//! A scan in two steps: first the files that have to be hashed are named,
//! then, with their digests, the report is made.

use super::bounds::{inventory_bytes, lemma_same_sizes_same_bytes};
use super::inventory::{records, FileInfo, Record};
use super::report::ScanResult;
use super::scan::{find_duplicates, hash_candidates, needs_hash, scan};
use crate::text::optional_chars;
use vstd::prelude::*;

verus! {

/// Taking each digest for its characters.
pub open spec fn digest_chars() -> spec_fn(Option<String>) -> Option<Seq<char>> {
    |digest: Option<String>| optional_chars(digest)
}

/// The digests of a list, as characters.
pub open spec fn digest_views(digests: Seq<Option<String>>) -> Seq<Option<Seq<char>>> {
    digests.map_values(digest_chars())
}

/// A record with another digest.
pub open spec fn with_digest(record: Record, digest: Option<Seq<char>>) -> Record {
    Record { path: record.path, size: record.size, digest }
}

/// The inventory with the digests attached: the file at the first place gets
/// the first digest, and so on; all other files stay as they are.
pub open spec fn attached(
    files: Seq<Record>,
    places: Seq<usize>,
    digests: Seq<Option<Seq<char>>>,
) -> Seq<Record>
    decreases places.len(),
{
    if places.len() == 0 || digests.len() != places.len() {
        files
    } else {
        let before = attached(files, places.drop_last(), digests.drop_last());
        before.update(
            places.last() as int,
            with_digest(before[places.last() as int], digests.last()),
        )
    }
}

/// The places are those of the files that are to be hashed, each once, in
/// ascending order.
pub open spec fn are_candidates(files: Seq<Record>, ceiling: u64, places: Seq<usize>) -> bool {
    &&& forall|k: int|
        0 <= k < places.len() ==> (#[trigger] places[k]) < files.len() && needs_hash(
            files,
            ceiling,
            places[k] as int,
        )
    &&& forall|i: int|
        0 <= i < files.len() && #[trigger] needs_hash(files, ceiling, i) ==> places.contains(
            i as usize,
        )
    &&& forall|a: int, b: int| 0 <= a < b < places.len() ==> places[a] < places[b]
}

/// Attaching digests changes no path and no size, gives each place its
/// digest, and leaves the digests of all other files as they were.
pub proof fn lemma_attached(
    files: Seq<Record>,
    places: Seq<usize>,
    digests: Seq<Option<Seq<char>>>,
)
    requires
        places.len() == digests.len(),
        forall|k: int| 0 <= k < places.len() ==> (#[trigger] places[k]) < files.len(),
        forall|a: int, b: int| 0 <= a < b < places.len() ==> places[a] < places[b],
    ensures
        attached(files, places, digests).len() == files.len(),
        forall|i: int|
            0 <= i < files.len() ==> (#[trigger] attached(files, places, digests)[i]).path
                == files[i].path && attached(files, places, digests)[i].size == files[i].size,
        forall|k: int|
            0 <= k < places.len() ==> (#[trigger] attached(
                files,
                places,
                digests,
            )[places[k] as int]).digest == digests[k],
        forall|i: int|
            0 <= i < files.len() && !places.contains(i as usize) ==> #[trigger] attached(
                files,
                places,
                digests,
            )[i] == files[i],
    decreases places.len(),
{
    if places.len() > 0 {
        let init = places.drop_last();
        let before = attached(files, init, digests.drop_last());
        lemma_attached(files, init, digests.drop_last());
        let out = attached(files, places, digests);
        let last = places.last() as int;
        assert forall|k: int| 0 <= k < places.len() implies (#[trigger] out[places[k] as int]).digest
            == digests[k] by {
            if k < places.len() - 1 {
                assert(places[k] < places[places.len() - 1]);
                assert(init[k] == places[k]);
                assert(before[init[k] as int].digest == digests.drop_last()[k]);
            }
        }
        assert forall|i: int| 0 <= i < files.len() && !places.contains(i as usize) implies #[trigger] out[i]
            == files[i] by {
            assert(places[places.len() - 1] != i as usize);
            if init.contains(i as usize) {
                let k = choose|k: int| 0 <= k < init.len() && init[k] == i as usize;
                assert(places[k] == i as usize);
            }
        }
    }
}

/// A scan whose inventory is taken and whose files are not yet hashed.
pub struct HashPlan {
    files: Vec<FileInfo>,
    places: Vec<usize>,
    max_size: u64,
}

impl HashPlan {
    #[verifier::type_invariant]
    spec fn well_formed(self) -> bool {
        are_candidates(records(self.files@), self.max_size, self.places@)
    }

    /// The inventory of the scan.
    pub closed spec fn inventory(&self) -> Seq<Record> {
        records(self.files@)
    }

    /// The places in the inventory of the files that are to be hashed.
    pub closed spec fn places(&self) -> Seq<usize> {
        self.places@
    }

    /// The size above which files are not hashed.
    pub closed spec fn ceiling(&self) -> u64 {
        self.max_size
    }

    /// Plans the hashing for an inventory: the files to hash are those that
    /// are not larger than `max_size` and whose size another file has.
    pub fn new(files: Vec<FileInfo>, max_size: u64) -> (plan: HashPlan)
        ensures
            plan.inventory() == records(files@),
            plan.ceiling() == max_size,
            are_candidates(plan.inventory(), max_size, plan.places()),
    {
        let places = hash_candidates(&files, max_size);
        HashPlan { files, places, max_size }
    }

    /// The paths of the files that are to be hashed, in the order in which
    /// their digests are expected.
    pub fn targets(&self) -> (paths: Vec<String>)
        ensures
            paths.len() == self.places().len(),
            forall|k: int|
                0 <= k < paths.len() ==> (#[trigger] paths[k])@ == self.inventory()[self.places()[k] as int].path,
    {
        proof {
            use_type_invariant(self);
        }
        let mut paths: Vec<String> = Vec::new();
        let mut k: usize = 0;
        while k < self.places.len()
            invariant
                k <= self.places.len(),
                paths.len() == k,
                are_candidates(records(self.files@), self.max_size, self.places@),
                forall|j: int|
                    0 <= j < k ==> (#[trigger] paths[j])@ == records(
                        self.files@,
                    )[self.places@[j] as int].path,
            decreases self.places.len() - k,
        {
            let place = self.places[k];
            assert(self.places@[k as int] < self.files.len());
            paths.push(self.files[place].path.clone());
            k += 1;
        }
        paths
    }

    /// Makes the report once the files are hashed. `digests` holds, for each
    /// target in order, its digest, or nothing where the file could not be
    /// read. The result is `None` only where a total does not fit its
    /// integer.
    pub fn finish(self, digests: Vec<Option<String>>) -> (report: Option<ScanResult>)
        requires
            digests.len() == self.places().len(),
        ensures
            match report {
                Some(report) => report@ == scan(
                    attached(self.inventory(), self.places(), digest_views(digests@)),
                    self.ceiling(),
                ),
                None => !scan(
                    attached(self.inventory(), self.places(), digest_views(digests@)),
                    self.ceiling(),
                ).fits(),
            },
            inventory_bytes(self.inventory()) <= u64::MAX ==> report is Some,
            report matches Some(report) ==> report@.wf() && forall|k: int|
                0 <= k < report@.sets.len() ==> (#[trigger] report@.sets[k]).wf(),
    {
        proof {
            use_type_invariant(&self);
            lemma_attached(records(self.files@), self.places@, digest_views(digests@));
            lemma_same_sizes_same_bytes(
                attached(records(self.files@), self.places@, digest_views(digests@)),
                records(self.files@),
            );
        }
        let ghost given = records(self.files@);
        let ghost wanted = digest_views(digests@);
        let ghost all = digests@;
        let places = self.places;
        let mut files = self.files;
        let max_size = self.max_size;
        let mut next: usize = 0;
        for digest in it: digests.into_iter()
            invariant
                it.seq() == all,
                next == it.index(),
                wanted == digest_views(all),
                all.len() == places.len(),
                files.len() == given.len(),
                are_candidates(given, max_size, places@),
                records(files@) == attached(
                    given,
                    places@.take(it.index() as int),
                    wanted.take(it.index() as int),
                ),
        {
            let ghost k = it.index() as int;
            let ghost before = files@;
            let place = places[next];
            proof {
                assert(places@[k] < given.len());
                assert(places@.take(k + 1).drop_last() =~= places@.take(k));
                assert(wanted.take(k + 1).drop_last() =~= wanted.take(k));
                assert(wanted.take(k + 1).last() == optional_chars(digest));
            }
            files[place].hash = digest;
            next += 1;
            proof {
                assert(records(files@) =~= records(before).update(
                    place as int,
                    with_digest(records(before)[place as int], optional_chars(digest)),
                ));
            }
        }
        proof {
            assert(places@.take(places@.len() as int) =~= places@);
            assert(wanted.take(wanted.len() as int) =~= wanted);
        }
        find_duplicates(files, max_size)
    }
}

} // verus!
