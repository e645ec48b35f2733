//! Grouping the files of one size by content digest.

use super::grouping::{
    buckets, distinct, lemma_buckets_push, lemma_distinct_contains, lemma_distinct_no_duplicates,
    Bucket,
};
use super::inventory::{records, FileInfo, Record};
use super::partition::SizeGroup;
use crate::text::{chars_of, optional_chars, string_views};
use vstd::prelude::*;

verus! {

/// A set of files with the same content.
pub struct DupSet {
    pub size: u64,
    pub members: Seq<Seq<char>>,
    pub wasted: nat,
}

/// A set of files with the same size and the same digest: their common size,
/// their paths, and the space that all copies but one take.
#[derive(Debug)]
pub struct DuplicateGroup {
    pub size: u64,
    pub files: Vec<String>,
    pub total_wasted: u64,
}

impl View for DuplicateGroup {
    type V = DupSet;

    open spec fn view(&self) -> DupSet {
        DupSet {
            size: self.size,
            members: string_views(self.files@),
            wasted: self.total_wasted as nat,
        }
    }
}

/// Taking each duplicate group for its view.
pub open spec fn set_view_of() -> spec_fn(DuplicateGroup) -> DupSet {
    |g: DuplicateGroup| g@
}

/// The views of a sequence of duplicate groups.
pub open spec fn set_views(groups: Seq<DuplicateGroup>) -> Seq<DupSet> {
    groups.map_values(set_view_of())
}

/// The space taken by all copies but one of `count` files of `size` bytes.
pub open spec fn wasted_space(size: u64, count: nat) -> nat {
    if count == 0 {
        0
    } else {
        (size * (count - 1)) as nat
    }
}

impl DupSet {
    /// The set is made of two files or more and its wasted space is that of
    /// all copies but one.
    pub open spec fn wf(self) -> bool {
        &&& self.members.len() >= 2
        &&& self.wasted == self.size * (self.members.len() - 1)
    }
}

/// The key by which the files of one size are grouped: the digest.
pub open spec fn digest_key() -> spec_fn(Record) -> Option<Seq<char>> {
    |r: Record| r.digest
}

/// Taking each record for its path.
pub open spec fn path_of() -> spec_fn(Record) -> Seq<char> {
    |r: Record| r.path
}

/// The test that a digest bucket is a duplicate set: its files were hashed,
/// and there are two or more of them.
pub open spec fn is_duplicate_set() -> spec_fn(Bucket<Option<Seq<char>>, Record>) -> bool {
    |b: Bucket<Option<Seq<char>>, Record>| b.key is Some && b.items.len() >= 2
}

/// The duplicate set made of the files of one digest bucket.
pub open spec fn set_of(size: u64) -> spec_fn(Bucket<Option<Seq<char>>, Record>) -> DupSet {
    |b: Bucket<Option<Seq<char>>, Record>|
        DupSet {
            size,
            members: b.items.map_values(path_of()),
            wasted: wasted_space(size, b.items.len()),
        }
}

/// The duplicate sets within one size group: its files are grouped by digest,
/// files without a digest are left out, and each digest that two files or more
/// have gives one set, in the order in which the digests first occur.
pub open spec fn duplicate_sets(group: Bucket<u64, Record>) -> Seq<DupSet> {
    buckets(group.items, digest_key()).filter(is_duplicate_set()).map_values(set_of(group.key))
}

/// The paths of the files of one digest; of those without a digest where
/// there is none.
struct DigestBucket {
    digest: Option<String>,
    paths: Vec<String>,
}

impl DigestBucket {
    /// The bucket holds the digest and the paths of `b`.
    spec fn stands_for(self, b: Bucket<Option<Seq<char>>, Record>) -> bool {
        &&& optional_chars(self.digest) == b.key
        &&& string_views(self.paths@) == b.items.map_values(path_of())
    }
}

/// The buckets hold, one by one, the digests and paths of `model`.
spec fn stand_for(all: Seq<DigestBucket>, model: Seq<Bucket<Option<Seq<char>>, Record>>) -> bool {
    &&& all.len() == model.len()
    &&& forall|j: int| 0 <= j < all.len() ==> (#[trigger] all[j]).stands_for(model[j])
}

/// Whether two files have the same digest, or both have none.
fn same_digest(a: &Option<String>, b: &Option<String>) -> (same: bool)
    ensures
        same == (optional_chars(*a) == optional_chars(*b)),
{
    match (a, b) {
        (Some(x), Some(y)) => {
            let same = *x == *y;
            assert(same == (Some(x@) == Some(y@)));
            same
        },
        (None, None) => true,
        _ => false,
    }
}

/// The place of the bucket of a digest, if there is one.
fn find_bucket(all: &Vec<DigestBucket>, digest: &Option<String>) -> (found: Option<usize>)
    ensures
        match found {
            Some(b) => b < all.len() && optional_chars(all[b as int].digest) == optional_chars(*digest),
            None => forall|j: int|
                0 <= j < all.len() ==> optional_chars(#[trigger] all[j].digest) != optional_chars(
                    *digest,
                ),
        },
{
    let mut j: usize = 0;
    while j < all.len()
        invariant
            j <= all.len(),
            forall|k: int|
                0 <= k < j ==> optional_chars(#[trigger] all[k].digest) != optional_chars(*digest),
        decreases all.len() - j,
    {
        if same_digest(&all[j].digest, digest) {
            return Some(j);
        }
        j += 1;
    }
    None
}

/// Sorts the files of one size into buckets by their digest.
fn bucket_by_digest(files: Vec<FileInfo>) -> (all: Vec<DigestBucket>)
    ensures
        stand_for(all@, buckets(records(files@), digest_key())),
{
    let ghost recs = records(files@);
    let ghost given = files@;
    let mut all: Vec<DigestBucket> = Vec::new();
    proof {
        assert(recs.take(0).map_values(digest_key()) =~= Seq::<Option<Seq<char>>>::empty());
        assert(buckets(recs.take(0), digest_key()) =~= Seq::empty());
    }
    for file in it: files.into_iter()
        invariant
            it.seq() == given,
            recs == records(given),
            stand_for(all@, buckets(recs.take(it.index() as int), digest_key())),
    {
        let ghost seen = recs.take(it.index() as int);
        let ghost keys = seen.map_values(digest_key());
        let ghost before = all@;
        let ghost model = buckets(seen, digest_key());
        let ghost grown = buckets(seen.push(file@), digest_key());
        proof {
            assert(recs.take(it.index() as int + 1) =~= seen.push(file@));
            lemma_buckets_push(seen, digest_key(), file@);
            lemma_distinct_contains(keys, file@.digest);
            lemma_distinct_no_duplicates(keys);
            assert(forall|j: int| 0 <= j < before.len() ==> before[j].stands_for(model[j]));
            if distinct(keys).contains(file@.digest) {
                let j = choose|j: int|
                    0 <= j < distinct(keys).len() && distinct(keys)[j] == file@.digest;
                assert(before[j].stands_for(model[j]));
            }
        }
        match find_bucket(&all, &file.hash) {
            Some(b) => {
                let ghost old_paths = all[b as int].paths@;
                all[b].paths.push(file.path);
                proof {
                    old_paths.lemma_push_map_commute(chars_of(), file.path);
                    model[b as int].items.lemma_push_map_commute(path_of(), file@);
                    assert(before[b as int].stands_for(model[b as int]));
                    assert forall|j: int| 0 <= j < all.len() implies (#[trigger] all[j]).stands_for(
                        grown[j],
                    ) by {
                        assert(before[j].stands_for(model[j]));
                        if j != b {
                            assert(all[j] == before[j]);
                            assert(distinct(keys)[j] != distinct(keys)[b as int]);
                        }
                    }
                }
            },
            None => {
                let mut paths: Vec<String> = Vec::new();
                paths.push(file.path);
                all.push(DigestBucket { digest: file.hash, paths });
                proof {
                    assert(string_views(seq![file.path]) =~= seq![file.path@]);
                    assert(seq![file@].map_values(path_of()) =~= seq![file.path@]);
                    assert forall|j: int| 0 <= j < all.len() implies (#[trigger] all[j]).stands_for(
                        grown[j],
                    ) by {
                        if j < before.len() {
                            assert(before[j].stands_for(model[j]));
                        }
                    }
                }
            },
        }
    }
    proof {
        assert(recs.take(recs.len() as int) =~= recs);
    }
    all
}

/// Whether the wasted space of every set fits in 64 bits.
pub open spec fn sets_fit(sets: Seq<DupSet>) -> bool {
    forall|i: int| 0 <= i < sets.len() ==> (#[trigger] sets[i]).wasted <= u64::MAX
}

/// Finds the duplicate sets within one size group. Files without a digest
/// take no part; a digest that only one file has gives no set. The result is
/// `None` only where the wasted space of some set does not fit in 64 bits.
pub fn partition_by_digest(group: SizeGroup) -> (sets: Option<Vec<DuplicateGroup>>)
    ensures
        match sets {
            Some(sets) => set_views(sets@) == duplicate_sets(group@),
            None => !sets_fit(duplicate_sets(group@)),
        },
{
    let size = group.size;
    let ghost model = buckets(group@.items, digest_key());
    let all = bucket_by_digest(group.files);
    let ghost given = all@;
    let mut sets: Vec<DuplicateGroup> = Vec::new();
    proof {
        assert(model.take(0).filter(is_duplicate_set()) =~= Seq::empty()) by {
            reveal(Seq::filter);
        }
        assert(set_views(sets@) =~= model.take(0).filter(is_duplicate_set()).map_values(
            set_of(size),
        ));
    }
    for bucket in it: all.into_iter()
        invariant
            it.seq() == given,
            stand_for(given, model),
            model == buckets(group@.items, digest_key()),
            size == group.size,
            set_views(sets@) == model.take(it.index() as int).filter(
                is_duplicate_set(),
            ).map_values(set_of(size)),
    {
        let ghost i = it.index() as int;
        let ghost seen = model.take(i);
        let ghost kept = seen.filter(is_duplicate_set());
        proof {
            assert(model.take(i + 1) =~= seen.push(model[i]));
            seen.lemma_filter_push(model[i], is_duplicate_set());
            kept.lemma_push_map_commute(set_of(size), model[i]);
            assert(given[i].stands_for(model[i]));
            assert(bucket == given[i]);
            assert(string_views(bucket.paths@).len() == bucket.paths@.len());
            assert(model[i].items.map_values(path_of()).len() == model[i].items.len());
        }
        if bucket.digest.is_some() && bucket.paths.len() >= 2 {
            let extra = (bucket.paths.len() - 1) as u64;
            match size.checked_mul(extra) {
                Some(wasted) => {
                    let ghost before = sets@;
                    let set = DuplicateGroup { size, files: bucket.paths, total_wasted: wasted };
                    assert(set@ == set_of(size)(model[i]));
                    sets.push(set);
                    proof {
                        before.lemma_push_map_commute(set_view_of(), set);
                    }
                },
                None => {
                    proof {
                        let found = model.filter(is_duplicate_set());
                        model.lemma_filter_contains(is_duplicate_set(), i);
                        let j = choose|j: int| 0 <= j < found.len() && found[j] == model[i];
                        assert(duplicate_sets(group@)[j] == set_of(size)(model[i]));
                        assert(duplicate_sets(group@)[j].wasted > u64::MAX);
                    }
                    return None;
                },
            }
        }
    }
    proof {
        assert(model.take(model.len() as int) =~= model);
    }
    Some(sets)
}

} // verus!
