//! The classes of files that a scan reports: a class is a size and a digest,
//! and it is reported if its size is within the ceiling and two files or
//! more are of it. The duplicate sets of a scan are the sets of the reported
//! classes, one each.

use super::grouping::{
    buckets, distinct, has_key, is_shared, lemma_distinct_contains, lemma_kept_buckets, matching,
    Bucket,
};
use super::bounds::measure;
use super::inventory::Record;
use super::partition::{size_groups, size_key};
use super::report::{sum_members, sum_wasted};
use super::scan::{all_sets, hashed_groups, sets_in, sets_of_groups, within_ceiling};
use super::seq_facts::{
    lemma_filter_keeps, lemma_filter_twice, lemma_filter_two_places, lemma_flatten_index,
    lemma_flatten_keeps, lemma_two_places_filter,
};
use super::sets::{
    digest_key, duplicate_sets, is_duplicate_set, path_of, wasted_space, DupSet,
};
use vstd::prelude::*;
use vstd::seq_lib::lemma_no_dup_in_concat;

verus! {

/// The test "is `size` bytes long and has the digest `digest`".
pub open spec fn same_content(size: u64, digest: Seq<char>) -> spec_fn(Record) -> bool {
    |r: Record| r.size == size && r.digest == Some(digest)
}

/// The files of an inventory that are `size` bytes long and have the digest
/// `digest`, in inventory order.
pub open spec fn copies(files: Seq<Record>, size: u64, digest: Seq<char>) -> Seq<Record> {
    files.filter(same_content(size, digest))
}

/// The test that a size group is hashed: it holds two files or more, of a
/// size within the ceiling.
pub open spec fn is_hashed_group(ceiling: u64) -> spec_fn(Bucket<u64, Record>) -> bool {
    |g: Bucket<u64, Record>| g.items.len() >= 2 && g.key <= ceiling
}

/// A class of files: the files of one size and one digest.
pub struct ClassKey {
    pub size: u64,
    pub digest: Seq<char>,
}

/// The number of files of a class in an inventory.
pub open spec fn class_count(files: Seq<Record>, class: ClassKey) -> nat {
    copies(files, class.size, class.digest).len()
}

/// Whether a class is reported: its size is within the ceiling, and two
/// files or more are of it.
pub open spec fn is_reported(files: Seq<Record>, ceiling: u64, class: ClassKey) -> bool {
    class.size <= ceiling && class_count(files, class) >= 2
}

/// The duplicate set of a class: the paths of its files in inventory order,
/// and the space that all of them but one take.
pub open spec fn class_set(files: Seq<Record>, class: ClassKey) -> DupSet {
    DupSet {
        size: class.size,
        members: copies(files, class.size, class.digest).map_values(path_of()),
        wasted: wasted_space(class.size, class_count(files, class)),
    }
}

/// Taking each class for its duplicate set.
pub open spec fn set_by(files: Seq<Record>) -> spec_fn(ClassKey) -> DupSet {
    |class: ClassKey| class_set(files, class)
}

/// Taking each digest bucket of a size group for its class.
pub open spec fn class_in(size: u64) -> spec_fn(Bucket<Option<Seq<char>>, Record>) -> ClassKey {
    |b: Bucket<Option<Seq<char>>, Record>| ClassKey { size, digest: b.key->0 }
}

/// The classes that one size group gives.
pub open spec fn classes_in(group: Bucket<u64, Record>) -> Seq<ClassKey> {
    buckets(group.items, digest_key()).filter(is_duplicate_set()).map_values(class_in(group.key))
}

/// Taking each size group for the classes that it gives.
pub open spec fn to_classes() -> spec_fn(Bucket<u64, Record>) -> Seq<ClassKey> {
    |group: Bucket<u64, Record>| classes_in(group)
}

/// The classes that a list of size groups gives, group by group.
pub open spec fn classes_of_groups(groups: Seq<Bucket<u64, Record>>) -> Seq<ClassKey> {
    groups.map_values(to_classes()).flatten()
}

/// The classes that a scan reports, in the order of its duplicate sets
/// before they are ranked.
pub open spec fn class_keys(files: Seq<Record>, ceiling: u64) -> Seq<ClassKey> {
    classes_of_groups(hashed_groups(files, ceiling))
}

/// The groups are size groups of the inventory: each holds the files of its
/// size.
pub open spec fn are_size_groups(files: Seq<Record>, groups: Seq<Bucket<u64, Record>>) -> bool {
    forall|g: int|
        0 <= g < groups.len() ==> (#[trigger] groups[g]).items == matching(
            files,
            size_key(),
            groups[g].key,
        )
}

/// The size groups that are hashed are size groups of the inventory, of two
/// files or more and within the ceiling, and no two are of the same size.
pub proof fn lemma_hashed_groups(files: Seq<Record>, ceiling: u64)
    ensures
        are_size_groups(files, hashed_groups(files, ceiling)),
        forall|g: int|
            0 <= g < hashed_groups(files, ceiling).len() ==> (#[trigger] hashed_groups(
                files,
                ceiling,
            )[g]).key <= ceiling && hashed_groups(files, ceiling)[g].items.len() >= 2,
        forall|g: int, h: int|
            0 <= g < hashed_groups(files, ceiling).len() && 0 <= h < hashed_groups(
                files,
                ceiling,
            ).len() && g != h ==> (#[trigger] hashed_groups(files, ceiling)[g]).key != (
            #[trigger] hashed_groups(files, ceiling)[h]).key,
{
    let by_size = buckets(files, size_key());
    let groups = hashed_groups(files, ceiling);
    lemma_filter_twice(by_size, is_shared(), within_ceiling(ceiling), is_hashed_group(ceiling));
    lemma_kept_buckets(files, size_key(), is_hashed_group(ceiling));
    assert forall|g: int| 0 <= g < groups.len() implies (#[trigger] groups[g]).key <= ceiling
        && groups[g].items.len() >= 2 by {
        by_size.lemma_filter_pred(is_hashed_group(ceiling), g);
    }
}

/// The duplicate sets of a size group of the inventory are the sets of the
/// classes that the group gives.
pub proof fn lemma_sets_of_group(files: Seq<Record>, group: Bucket<u64, Record>)
    requires
        group.items == matching(files, size_key(), group.key),
    ensures
        duplicate_sets(group) == classes_in(group).map_values(set_by(files)),
{
    let by_digest = buckets(group.items, digest_key());
    let kept = by_digest.filter(is_duplicate_set());
    lemma_kept_buckets(group.items, digest_key(), is_duplicate_set());
    let sets = duplicate_sets(group);
    let through = classes_in(group).map_values(set_by(files));
    assert(sets.len() == through.len());
    assert forall|j: int| 0 <= j < sets.len() implies sets[j] == through[j] by {
        let bucket = kept[j];
        by_digest.lemma_filter_pred(is_duplicate_set(), j);
        let digest = bucket.key->0;
        assert(bucket.items == matching(group.items, digest_key(), Some(digest)));
        lemma_filter_twice(
            files,
            has_key(size_key(), group.key),
            has_key(digest_key(), Some(digest)),
            same_content(group.key, digest),
        );
        assert(bucket.items == copies(files, group.key, digest));
    }
    assert(sets =~= through);
}

/// The duplicate sets of size groups of the inventory are the sets of the
/// classes that the groups give.
pub proof fn lemma_sets_of_classes(files: Seq<Record>, groups: Seq<Bucket<u64, Record>>)
    requires
        are_size_groups(files, groups),
    ensures
        sets_of_groups(groups) == classes_of_groups(groups).map_values(set_by(files)),
    decreases groups.len(),
{
    if groups.len() == 0 {
        assert(groups.map_values(sets_in()) =~= Seq::<Seq<DupSet>>::empty());
        assert(groups.map_values(to_classes()) =~= Seq::<Seq<ClassKey>>::empty());
        assert(sets_of_groups(groups) =~= classes_of_groups(groups).map_values(set_by(files)));
    } else {
        let init = groups.drop_last();
        let last = groups.last();
        assert(init.push(last) =~= groups);
        assert(are_size_groups(files, init)) by {
            assert forall|g: int| 0 <= g < init.len() implies (#[trigger] init[g]).items
                == matching(files, size_key(), init[g].key) by {
                assert(init[g] == groups[g]);
            }
        }
        lemma_sets_of_classes(files, init);
        assert(groups[groups.len() - 1].items == matching(files, size_key(), last.key));
        lemma_sets_of_group(files, last);
        init.lemma_push_map_commute(sets_in(), last);
        init.lemma_push_map_commute(to_classes(), last);
        init.map_values(sets_in()).lemma_flatten_push(duplicate_sets(last));
        init.map_values(to_classes()).lemma_flatten_push(classes_in(last));
        assert((classes_of_groups(init) + classes_in(last)).map_values(set_by(files))
            =~= classes_of_groups(init).map_values(set_by(files)) + classes_in(last).map_values(
            set_by(files),
        ));
    }
}

/// The duplicate sets of a scan, before they are ranked, are the sets of
/// the classes that it reports, one for each class and in the same order.
pub proof fn law_sets_are_class_sets(files: Seq<Record>, ceiling: u64)
    ensures
        all_sets(files, ceiling) == class_keys(files, ceiling).map_values(set_by(files)),
{
    lemma_hashed_groups(files, ceiling);
    lemma_sets_of_classes(files, hashed_groups(files, ceiling));
}

/// The classes that one size group gives are of the size of the group, and
/// no class is given twice.
pub proof fn lemma_classes_in_group(group: Bucket<u64, Record>)
    ensures
        classes_in(group).no_duplicates(),
        forall|j: int|
            0 <= j < classes_in(group).len() ==> (#[trigger] classes_in(group)[j]).size
                == group.key,
{
    let by_digest = buckets(group.items, digest_key());
    let kept = by_digest.filter(is_duplicate_set());
    lemma_kept_buckets(group.items, digest_key(), is_duplicate_set());
    let classes = classes_in(group);
    assert forall|i: int, j: int|
        0 <= i < classes.len() && 0 <= j < classes.len() && i != j implies classes[i]
        != classes[j] by {
        by_digest.lemma_filter_pred(is_duplicate_set(), i);
        by_digest.lemma_filter_pred(is_duplicate_set(), j);
        assert(kept[i].key != kept[j].key);
    }
}

/// Whether one of the groups is of the given size.
pub open spec fn has_group_of(groups: Seq<Bucket<u64, Record>>, size: u64) -> bool {
    exists|g: int| 0 <= g < groups.len() && (#[trigger] groups[g]).key == size
}

/// The classes that size groups of different sizes give are of the sizes of
/// the groups, and no class is given twice.
pub proof fn lemma_classes_distinct(groups: Seq<Bucket<u64, Record>>)
    requires
        forall|g: int, h: int|
            0 <= g < groups.len() && 0 <= h < groups.len() && g != h ==> (#[trigger] groups[g]).key
                != (#[trigger] groups[h]).key,
    ensures
        classes_of_groups(groups).no_duplicates(),
        forall|k: int|
            0 <= k < classes_of_groups(groups).len() ==> has_group_of(
                groups,
                (#[trigger] classes_of_groups(groups)[k]).size,
            ),
    decreases groups.len(),
{
    if groups.len() == 0 {
        assert(groups.map_values(to_classes()) =~= Seq::<Seq<ClassKey>>::empty());
    } else {
        let init = groups.drop_last();
        let last = groups.last();
        assert(init.push(last) =~= groups);
        assert forall|g: int, h: int|
            0 <= g < init.len() && 0 <= h < init.len() && g != h implies (#[trigger] init[g]).key != (
        #[trigger] init[h]).key by {
            assert(init[g] == groups[g] && init[h] == groups[h]);
        }
        lemma_classes_distinct(init);
        lemma_classes_in_group(last);
        init.lemma_push_map_commute(to_classes(), last);
        init.map_values(to_classes()).lemma_flatten_push(classes_in(last));
        let before = classes_of_groups(init);
        let added = classes_in(last);
        assert(classes_of_groups(groups) =~= before + added);
        assert forall|i: int, j: int| 0 <= i < before.len() && 0 <= j < added.len() implies before[i]
            != added[j] by {
            assert(has_group_of(init, before[i].size));
            let g = choose|g: int| 0 <= g < init.len() && (#[trigger] init[g]).key == before[i].size;
            assert(groups[g].key != groups[groups.len() - 1].key);
            assert(added[j].size == last.key);
        }
        lemma_no_dup_in_concat(before, added);
        assert forall|k: int| 0 <= k < classes_of_groups(groups).len() implies has_group_of(
            groups,
            (#[trigger] classes_of_groups(groups)[k]).size,
        ) by {
            if k < before.len() {
                assert(has_group_of(init, before[k].size));
                let g = choose|g: int|
                    0 <= g < init.len() && (#[trigger] init[g]).key == before[k].size;
                assert(groups[g].key == classes_of_groups(groups)[k].size);
            } else {
                assert(added[k - before.len()].size == last.key);
                assert(groups[groups.len() - 1].key == classes_of_groups(groups)[k].size);
            }
        }
    }
}

/// The classes of a scan are the reported classes: every class that the
/// scan gives is reported, and every reported class is given.
pub proof fn lemma_class_keys_are_reported(files: Seq<Record>, ceiling: u64, class: ClassKey)
    ensures
        class_keys(files, ceiling).contains(class) <==> is_reported(files, ceiling, class),
{
    let groups = hashed_groups(files, ceiling);
    let lists = groups.map_values(to_classes());
    lemma_hashed_groups(files, ceiling);
    if class_keys(files, ceiling).contains(class) {
        let k = choose|k: int|
            0 <= k < class_keys(files, ceiling).len() && class_keys(files, ceiling)[k] == class;
        let (g, j) = lemma_flatten_index(lists, k);
        let group = groups[g];
        let by_digest = buckets(group.items, digest_key());
        let kept = by_digest.filter(is_duplicate_set());
        lemma_kept_buckets(group.items, digest_key(), is_duplicate_set());
        by_digest.lemma_filter_pred(is_duplicate_set(), j);
        let digest = kept[j].key->0;
        lemma_filter_twice(
            files,
            has_key(size_key(), group.key),
            has_key(digest_key(), Some(digest)),
            same_content(group.key, digest),
        );
        assert(kept[j].items == copies(files, group.key, digest));
        assert(class == ClassKey { size: group.key, digest });
    }
    if is_reported(files, ceiling, class) {
        let size = class.size;
        let digest = class.digest;
        let (i, j) = lemma_filter_two_places(files, same_content(size, digest));
        // the size group
        let sizes = files.map_values(size_key());
        assert(sizes[i] == size);
        lemma_distinct_contains(sizes, size);
        let g2 = choose|g2: int| 0 <= g2 < distinct(sizes).len() && distinct(sizes)[g2] == size;
        let by_size = buckets(files, size_key());
        let group = by_size[g2];
        assert(group.items == matching(files, size_key(), size));
        lemma_two_places_filter(files, has_key(size_key(), size), i, j);
        let g1 = lemma_filter_keeps(by_size, is_shared(), g2);
        let g = lemma_filter_keeps(size_groups(files), within_ceiling(ceiling), g1);
        assert(groups[g] == group);
        // the digest bucket within it
        let at = lemma_filter_keeps(files, has_key(size_key(), size), i);
        let digests = group.items.map_values(digest_key());
        assert(digests[at] == Some(digest));
        lemma_distinct_contains(digests, Some(digest));
        let b = choose|b: int|
            0 <= b < distinct(digests).len() && distinct(digests)[b] == Some(digest);
        let by_digest = buckets(group.items, digest_key());
        let bucket = by_digest[b];
        assert(bucket.items == matching(group.items, digest_key(), Some(digest)));
        lemma_filter_twice(
            files,
            has_key(size_key(), size),
            has_key(digest_key(), Some(digest)),
            same_content(size, digest),
        );
        let s = lemma_filter_keeps(by_digest, is_duplicate_set(), b);
        assert(classes_in(group)[s] == class);
        let found = lemma_flatten_keeps(lists, g, s);
        assert(class_keys(files, ceiling)[found] == class);
    }
}

/// No class is given twice by a scan.
pub proof fn lemma_class_keys_distinct(files: Seq<Record>, ceiling: u64)
    ensures
        class_keys(files, ceiling).no_duplicates(),
{
    lemma_hashed_groups(files, ceiling);
    lemma_classes_distinct(hashed_groups(files, ceiling));
}

/// The measure that gives each class the space that its set wastes.
pub open spec fn wasted_by(files: Seq<Record>) -> spec_fn(ClassKey) -> nat {
    |class: ClassKey| class_set(files, class).wasted
}

/// The measure that gives each class the number of its files.
pub open spec fn members_by(files: Seq<Record>) -> spec_fn(ClassKey) -> nat {
    |class: ClassKey| class_set(files, class).members.len()
}

/// The totals of the sets of classes are the sums over the classes.
pub proof fn lemma_sums_by_class(files: Seq<Record>, classes: Seq<ClassKey>)
    ensures
        sum_wasted(classes.map_values(set_by(files))) == measure(classes, wasted_by(files)),
        sum_members(classes.map_values(set_by(files))) == measure(classes, members_by(files)),
    decreases classes.len(),
{
    if classes.len() > 0 {
        lemma_sums_by_class(files, classes.drop_last());
        assert(classes.map_values(set_by(files)).drop_last() =~= classes.drop_last().map_values(
            set_by(files),
        ));
    }
}

} // verus!
