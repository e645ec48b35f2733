//! Grouping the inventory by file size.

use super::grouping::{
    buckets, distinct, is_shared, lemma_buckets_push, lemma_distinct_contains,
    lemma_distinct_no_duplicates, lemma_kept_buckets, lemma_matching_member, shared_buckets,
    Bucket,
};
use super::inventory::{record_of, records, FileInfo, Record};
use std::collections::HashMap;
use vstd::prelude::*;

verus! {

/// The files of one size.
#[derive(Debug)]
pub struct SizeGroup {
    pub size: u64,
    pub files: Vec<FileInfo>,
}

impl View for SizeGroup {
    type V = Bucket<u64, Record>;

    open spec fn view(&self) -> Bucket<u64, Record> {
        Bucket { key: self.size, items: records(self.files@) }
    }
}

/// Taking each group for its view.
pub open spec fn group_view_of() -> spec_fn(SizeGroup) -> Bucket<u64, Record> {
    |g: SizeGroup| g@
}

/// The views of a sequence of groups.
pub open spec fn group_views(groups: Seq<SizeGroup>) -> Seq<Bucket<u64, Record>> {
    groups.map_values(group_view_of())
}

/// The key by which the inventory is grouped first: the size.
pub open spec fn size_key() -> spec_fn(Record) -> u64 {
    |r: Record| r.size
}

/// The size groups of an inventory: for each size that two files or more
/// have, those files in inventory order; the groups in the order in which
/// their sizes first occur.
pub open spec fn size_groups(files: Seq<Record>) -> Seq<Bucket<u64, Record>> {
    shared_buckets(files, size_key())
}

/// Sorts the inventory into buckets by size.
fn bucket_by_size(files: Vec<FileInfo>) -> (all: Vec<SizeGroup>)
    ensures
        group_views(all@) == buckets(records(files@), size_key()),
{
    broadcast use vstd::std_specs::hash::group_hash_axioms;

    let ghost recs = records(files@);
    let ghost given = files@;
    let mut all: Vec<SizeGroup> = Vec::new();
    let mut index: HashMap<u64, usize> = HashMap::new();
    proof {
        assert(recs.take(0).map_values(size_key()) =~= Seq::<u64>::empty());
        assert(group_views(all@) =~= buckets(recs.take(0), size_key()));
    }
    for file in it: files.into_iter()
        invariant
            it.seq() == given,
            recs == records(given),
            group_views(all@) == buckets(recs.take(it.index() as int), size_key()),
            forall|s: u64| #[trigger]
                index@.contains_key(s) ==> index@[s] < all.len() && all[index@[s] as int].size
                    == s,
            forall|j: int| 0 <= j < all.len() ==> index@.contains_key(#[trigger] all[j].size),
    {
        let ghost seen = recs.take(it.index() as int);
        let ghost keys = seen.map_values(size_key());
        let ghost before = all@;
        let size = file.size;
        proof {
            assert(recs.take(it.index() as int + 1) =~= seen.push(file@));
            lemma_buckets_push(seen, size_key(), file@);
            lemma_distinct_contains(keys, size);
            assert(forall|j: int|
                0 <= j < before.len() ==> #[trigger] group_views(before)[j].key == before[j].size);
            if distinct(keys).contains(size) {
                let j = choose|j: int| 0 <= j < distinct(keys).len() && distinct(keys)[j] == size;
                assert(buckets(seen, size_key())[j].key == size);
                assert(before[j].size == size);
            }
        }
        match index.get(&size) {
            Some(slot) => {
                let b = *slot;
                let ghost old_files = all[b as int].files@;
                all[b].files.push(file);
                proof {
                    old_files.lemma_push_map_commute(record_of(), file);
                    lemma_distinct_no_duplicates(keys);
                    let grown = buckets(seen.push(file@), size_key());
                    assert(distinct(keys)[b as int] == group_views(before)[b as int].key);
                    assert forall|j: int| 0 <= j < all.len() implies #[trigger] group_views(
                        all@,
                    )[j] == grown[j] by {
                        assert(group_views(before)[j] == buckets(seen, size_key())[j]);
                        if j != b {
                            assert(all[j] == before[j]);
                            assert(distinct(keys)[j] != distinct(keys)[b as int]);
                        }
                    }
                    assert(group_views(all@) =~= grown);
                }
            },
            None => {
                let mut members: Vec<FileInfo> = Vec::new();
                members.push(file);
                index.insert(size, all.len());
                all.push(SizeGroup { size, files: members });
                proof {
                    assert(records(seq![file]) =~= seq![file@]);
                    assert(group_views(all@) =~= buckets(seen.push(file@), size_key()));
                }
            },
        }
    }
    proof {
        assert(recs.take(recs.len() as int) =~= recs);
    }
    all
}

/// Keeps the groups of two files or more.
fn keep_shared(all: Vec<SizeGroup>) -> (groups: Vec<SizeGroup>)
    ensures
        group_views(groups@) == group_views(all@).filter(is_shared()),
{
    let ghost given = all@;
    let mut groups: Vec<SizeGroup> = Vec::new();
    proof {
        assert(group_views(given.take(0)) =~= Seq::<Bucket<u64, Record>>::empty());
        assert(group_views(given.take(0)).filter(is_shared()) =~= Seq::<
            Bucket<u64, Record>,
        >::empty()) by {
            reveal(Seq::filter);
        }
        assert(group_views(groups@) =~= group_views(given.take(0)).filter(is_shared()));
    }
    for group in it: all.into_iter()
        invariant
            it.seq() == given,
            group_views(groups@) == group_views(given.take(it.index() as int)).filter(
                is_shared(),
            ),
    {
        proof {
            let seen = given.take(it.index() as int);
            assert(given.take(it.index() as int + 1) =~= seen.push(group));
            seen.lemma_push_map_commute(group_view_of(), group);
            group_views(seen).lemma_filter_push(group@, is_shared());
        }
        if group.files.len() >= 2 {
            let ghost before = groups@;
            groups.push(group);
            proof {
                before.lemma_push_map_commute(group_view_of(), group);
            }
        }
    }
    proof {
        assert(given.take(given.len() as int) =~= given);
    }
    groups
}

/// Every size group holds two files or more, all of the size of the group,
/// and no two groups are of the same size.
pub proof fn law_size_groups_are_uniform(files: Seq<Record>)
    ensures
        forall|g: int|
            0 <= g < size_groups(files).len() ==> (#[trigger] size_groups(files)[g]).items.len()
                >= 2,
        forall|g: int, j: int|
            0 <= g < size_groups(files).len() && 0 <= j < size_groups(files)[g].items.len()
                ==> (#[trigger] size_groups(files)[g].items[j]).size == size_groups(files)[g].key,
        forall|g: int, h: int|
            0 <= g < size_groups(files).len() && 0 <= h < size_groups(files).len() && g != h ==> (
            #[trigger] size_groups(files)[g]).key != (#[trigger] size_groups(files)[h]).key,
{
    let groups = size_groups(files);
    lemma_kept_buckets(files, size_key(), is_shared());
    assert forall|g: int| 0 <= g < groups.len() implies (#[trigger] groups[g]).items.len() >= 2 by {
        buckets(files, size_key()).lemma_filter_pred(is_shared(), g);
    }
    assert forall|g: int, j: int|
        0 <= g < groups.len() && 0 <= j < groups[g].items.len() implies (#[trigger] groups[g].items[j]).size
        == groups[g].key by {
        lemma_matching_member(files, size_key(), groups[g].key, j);
    }
}

/// Groups the inventory by size and keeps the groups of two files or more: a
/// file whose size no other file has cannot have a duplicate.
pub fn partition_by_size(files: Vec<FileInfo>) -> (groups: Vec<SizeGroup>)
    ensures
        group_views(groups@) == size_groups(records(files@)),
        forall|g: int| 0 <= g < groups.len() ==> (#[trigger] groups[g]).files.len() >= 2,
        forall|g: int, j: int|
            0 <= g < groups.len() && 0 <= j < groups[g].files.len() ==> (#[trigger] groups[g].files[j]).size
                == groups[g].size,
{
    let groups = keep_shared(bucket_by_size(files));
    proof {
        law_size_groups_are_uniform(records(files@));
        let model = size_groups(records(files@));
        assert forall|g: int| 0 <= g < groups.len() implies (#[trigger] groups[g]).files.len()
            >= 2 by {
            assert(group_views(groups@)[g] == groups[g]@);
            assert(model[g].items.len() >= 2);
        }
        assert forall|g: int, j: int|
            0 <= g < groups.len() && 0 <= j < groups[g].files.len() implies (#[trigger] groups[g].files[j]).size
            == groups[g].size by {
            assert(group_views(groups@)[g] == groups[g]@);
            assert(model[g].items[j].size == model[g].key);
            assert(records(groups[g].files@)[j] == groups[g].files[j]@);
        }
    }
    groups
}

} // verus!
