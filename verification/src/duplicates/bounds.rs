//! How large the totals of a scan can get: no more is wasted than the files
//! of the inventory hold together, and no more files are in duplicate sets
//! than the inventory has.

use super::grouping::{
    buckets, distinct, is_shared, lemma_buckets_push, lemma_distinct_contains,
    lemma_distinct_no_duplicates, lemma_matching_member, Bucket,
};
use super::inventory::{records, FileInfo, Record};
use super::partition::size_key;
use super::report::{lemma_ranked_sums, sum_members, sum_wasted};
use super::scan::{all_sets, hashed_groups, scan, sets_in, sets_of_groups, within_ceiling};
use super::sets::{digest_key, duplicate_sets, is_duplicate_set, set_of, DupSet};
use vstd::prelude::*;

verus! {

/// The sum of a measure over the items of a sequence.
pub open spec fn measure<T>(items: Seq<T>, m: spec_fn(T) -> nat) -> nat
    decreases items.len(),
{
    if items.len() == 0 {
        0
    } else {
        measure(items.drop_last(), m) + m(items.last())
    }
}

/// The sum of a measure over the items of all buckets.
pub open spec fn spread<K, T>(groups: Seq<Bucket<K, T>>, m: spec_fn(T) -> nat) -> nat
    decreases groups.len(),
{
    if groups.len() == 0 {
        0
    } else {
        spread(groups.drop_last(), m) + measure(groups.last().items, m)
    }
}

/// The measure that counts the bytes of a file.
pub open spec fn bytes_of() -> spec_fn(Record) -> nat {
    |r: Record| r.size as nat
}

/// The measure that counts each file as one.
pub open spec fn one_each() -> spec_fn(Record) -> nat {
    |r: Record| 1nat
}

/// The bytes of all files of an inventory together.
pub open spec fn inventory_bytes(files: Seq<Record>) -> nat {
    measure(files, bytes_of())
}

/// Taking an item out of a sequence takes its measure out of the sum.
pub proof fn lemma_measure_remove<T>(items: Seq<T>, m: spec_fn(T) -> nat, i: int)
    requires
        0 <= i < items.len(),
    ensures
        measure(items, m) == measure(items.remove(i), m) + m(items[i]),
    decreases items.len(),
{
    let init = items.drop_last();
    if i == items.len() - 1 {
        assert(items.remove(i) =~= init);
    } else {
        lemma_measure_remove(init, m, i);
        assert(items.remove(i).drop_last() =~= init.remove(i));
        assert(items.remove(i).last() == items.last());
    }
}

/// Two sequences without repetition that hold the same items have the same
/// sum, whatever their order; and so have they under two measures that agree
/// on those items.
pub proof fn lemma_measure_same_items<T>(
    a: Seq<T>,
    b: Seq<T>,
    m: spec_fn(T) -> nat,
    n: spec_fn(T) -> nat,
)
    requires
        a.no_duplicates(),
        b.no_duplicates(),
        forall|x: T| #[trigger] a.contains(x) <==> b.contains(x),
        forall|x: T| #[trigger] a.contains(x) ==> m(x) == n(x),
    ensures
        measure(a, m) == measure(b, n),
        a.len() == b.len(),
    decreases a.len(),
{
    if a.len() == 0 {
        if b.len() > 0 {
            assert(b.contains(b[0]));
            assert(a.contains(b[0]));
        }
    } else {
        let x = a.last();
        assert(a[a.len() - 1] == x);
        assert(a.contains(x));
        assert(b.contains(x));
        let i = choose|i: int| 0 <= i < b.len() && b[i] == x;
        let rest_a = a.drop_last();
        let rest_b = b.remove(i);
        assert forall|y: T| #[trigger] rest_a.contains(y) implies rest_b.contains(y) by {
            let k = choose|k: int| 0 <= k < rest_a.len() && rest_a[k] == y;
            assert(a[k] == y);
            assert(a.contains(y));
            assert(a[k] != a[a.len() - 1]);
            let j = choose|j: int| 0 <= j < b.len() && b[j] == y;
            if j < i {
                assert(rest_b[j] == y);
            } else {
                assert(rest_b[j - 1] == y);
            }
        }
        assert forall|y: T| #[trigger] rest_b.contains(y) implies rest_a.contains(y) by {
            let j = choose|j: int| 0 <= j < rest_b.len() && rest_b[j] == y;
            let j0 = if j < i {
                j
            } else {
                j + 1
            };
            assert(b[j0] == y);
            assert(b[j0] != b[i]);
            assert(b.contains(y));
            assert(a.contains(y));
            let k = choose|k: int| 0 <= k < a.len() && a[k] == y;
            assert(rest_a[k] == y);
        }
        assert forall|y: T| #[trigger] rest_a.contains(y) implies m(y) == n(y) by {
            let k = choose|k: int| 0 <= k < rest_a.len() && rest_a[k] == y;
            assert(a[k] == y);
            assert(a.contains(y));
        }
        assert(rest_b.no_duplicates()) by {
            assert forall|p: int, q: int|
                0 <= p < rest_b.len() && 0 <= q < rest_b.len() && p != q implies rest_b[p]
                != rest_b[q] by {
                let p0 = if p < i {
                    p
                } else {
                    p + 1
                };
                let q0 = if q < i {
                    q
                } else {
                    q + 1
                };
                assert(b[p0] != b[q0]);
            }
        }
        lemma_measure_same_items(rest_a, rest_b, m, n);
        lemma_measure_remove(b, n, i);
        assert(rest_b.len() == b.len() - 1);
        assert(m(x) == n(x));
    }
}

/// Replacing one bucket changes the sum by the difference of the two.
pub proof fn lemma_spread_update<K, T>(
    groups: Seq<Bucket<K, T>>,
    j: int,
    b: Bucket<K, T>,
    m: spec_fn(T) -> nat,
)
    requires
        0 <= j < groups.len(),
    ensures
        spread(groups.update(j, b), m) + measure(groups[j].items, m) == spread(groups, m)
            + measure(b.items, m),
    decreases groups.len(),
{
    let changed = groups.update(j, b);
    if j == groups.len() - 1 {
        assert(changed.drop_last() =~= groups.drop_last());
    } else {
        assert(changed.drop_last() =~= groups.drop_last().update(j, b));
        lemma_spread_update(groups.drop_last(), j, b, m);
    }
}

/// The buckets of a sequence hold, together, what the sequence holds.
pub proof fn lemma_spread_buckets<T, K>(items: Seq<T>, key: spec_fn(T) -> K, m: spec_fn(T) -> nat)
    ensures
        spread(buckets(items, key), m) == measure(items, m),
    decreases items.len(),
{
    if items.len() == 0 {
        assert(items.map_values(key) =~= Seq::<K>::empty());
        assert(buckets(items, key) =~= Seq::<Bucket<K, T>>::empty());
    } else {
        let init = items.drop_last();
        let t = items.last();
        assert(init.push(t) =~= items);
        lemma_spread_buckets(init, key, m);
        lemma_buckets_push(init, key, t);
        let keys = init.map_values(key);
        let before = buckets(init, key);
        let after = buckets(items, key);
        assert(before.len() == distinct(keys).len());
        assert(measure(items, m) == measure(init, m) + m(t));
        if keys.contains(key(t)) {
            lemma_distinct_contains(keys, key(t));
            lemma_distinct_no_duplicates(keys);
            let j = choose|j: int| 0 <= j < distinct(keys).len() && distinct(keys)[j] == key(t);
            assert(before[j].key == key(t));
            let grown = Bucket { key: key(t), items: before[j].items.push(t) };
            assert(after.len() == before.len());
            assert forall|i: int| 0 <= i < before.len() implies after[i] == before.update(j, grown)[i] by {
                assert(before[i].key == distinct(keys)[i]);
                if i != j {
                    assert(distinct(keys)[i] != distinct(keys)[j]);
                }
            }
            assert(after =~= before.update(j, grown));
            lemma_spread_update(before, j, grown, m);
            assert(grown.items.drop_last() =~= before[j].items);
            assert(measure(grown.items, m) == measure(before[j].items, m) + m(t));
        } else {
            let fresh = Bucket { key: key(t), items: seq![t] };
            assert(after == before.push(fresh));
            assert(before.push(fresh).drop_last() =~= before);
            let single = seq![t];
            assert(single.drop_last() =~= Seq::<T>::empty());
            assert(measure(single.drop_last(), m) == 0);
            assert(single.last() == t);
            assert(measure(single, m) == m(t));
        }
    }
}

/// The kept buckets hold no more than all buckets.
pub proof fn lemma_spread_filter<K, T>(
    groups: Seq<Bucket<K, T>>,
    keep: spec_fn(Bucket<K, T>) -> bool,
    m: spec_fn(T) -> nat,
)
    ensures
        spread(groups.filter(keep), m) <= spread(groups, m),
    decreases groups.len(),
{
    if groups.len() == 0 {
        assert(groups.filter(keep) =~= groups) by {
            reveal(Seq::filter);
        }
    } else {
        let init = groups.drop_last();
        assert(init.push(groups.last()) =~= groups);
        lemma_spread_filter(init, keep, m);
        init.lemma_filter_push(groups.last(), keep);
        assert(init.filter(keep).push(groups.last()).drop_last() =~= init.filter(keep));
    }
}

/// Files of one size hold, together, that size times their number; counted
/// one each, they are their number.
pub proof fn lemma_uniform_measure(items: Seq<Record>, size: u64)
    requires
        forall|i: int| 0 <= i < items.len() ==> (#[trigger] items[i]).size == size,
    ensures
        measure(items, bytes_of()) == size * items.len(),
        measure(items, one_each()) == items.len(),
    decreases items.len(),
{
    if items.len() > 0 {
        let init = items.drop_last();
        assert forall|i: int| 0 <= i < init.len() implies (#[trigger] init[i]).size == size by {
            assert(init[i] == items[i]);
        }
        lemma_uniform_measure(init, size);
        assert(items[items.len() - 1].size == size);
        assert(size * items.len() == size * init.len() + size) by (nonlinear_arith)
            requires
                items.len() == init.len() + 1,
        ;
    }
}

/// The totals of two runs of sets are the sums of their totals.
pub proof fn lemma_sums_add(a: Seq<DupSet>, b: Seq<DupSet>)
    ensures
        sum_wasted(a + b) == sum_wasted(a) + sum_wasted(b),
        sum_members(a + b) == sum_members(a) + sum_members(b),
    decreases b.len(),
{
    if b.len() == 0 {
        assert(a + b =~= a);
    } else {
        lemma_sums_add(a, b.drop_last());
        assert((a + b).drop_last() =~= a + b.drop_last());
    }
}

/// The sets made of digest buckets of files of one size waste no more than
/// the buckets hold, and have as many files as the buckets.
pub proof fn lemma_sums_of_sets(kept: Seq<Bucket<Option<Seq<char>>, Record>>, size: u64)
    requires
        forall|i: int, j: int|
            0 <= i < kept.len() && 0 <= j < kept[i].items.len() ==> (#[trigger] kept[i].items[j]).size
                == size,
    ensures
        sum_wasted(kept.map_values(set_of(size))) <= spread(kept, bytes_of()),
        sum_members(kept.map_values(set_of(size))) == spread(kept, one_each()),
    decreases kept.len(),
{
    let sets = kept.map_values(set_of(size));
    if kept.len() > 0 {
        let init = kept.drop_last();
        let last = kept.last();
        assert(sets.drop_last() =~= init.map_values(set_of(size)));
        assert forall|i: int, j: int|
            0 <= i < init.len() && 0 <= j < init[i].items.len() implies (#[trigger] init[i].items[j]).size
            == size by {
            assert(init[i] == kept[i]);
        }
        lemma_sums_of_sets(init, size);
        assert forall|j: int| 0 <= j < last.items.len() implies (#[trigger] last.items[j]).size
            == size by {
            assert(kept[kept.len() - 1].items[j].size == size);
        }
        lemma_uniform_measure(last.items, size);
        let n = last.items.len();
        assert(sets.last().members.len() == n);
        if n > 0 {
            assert(size * (n - 1) <= size * n) by (nonlinear_arith)
                requires
                    n >= 1,
            ;
        }
    }
}

/// The files of a size group all have the size of the group.
pub proof fn lemma_group_sizes(files: Seq<Record>, g: int)
    requires
        0 <= g < buckets(files, size_key()).len(),
    ensures
        forall|j: int|
            0 <= j < buckets(files, size_key())[g].items.len() ==> (#[trigger] buckets(
                files,
                size_key(),
            )[g].items[j]).size == buckets(files, size_key())[g].key,
{
    let group = buckets(files, size_key())[g];
    assert forall|j: int| 0 <= j < group.items.len() implies (#[trigger] group.items[j]).size
        == group.key by {
        lemma_matching_member(files, size_key(), group.key, j);
    }
}

/// The duplicate sets of one group of files of one size waste no more than
/// the group holds, and have no more files than the group.
pub proof fn lemma_sums_of_group(group: Bucket<u64, Record>)
    requires
        forall|j: int| 0 <= j < group.items.len() ==> (#[trigger] group.items[j]).size == group.key,
    ensures
        sum_wasted(duplicate_sets(group)) <= measure(group.items, bytes_of()),
        sum_members(duplicate_sets(group)) <= measure(group.items, one_each()),
{
    let by_digest = buckets(group.items, digest_key());
    let kept = by_digest.filter(is_duplicate_set());
    assert forall|i: int, j: int|
        0 <= i < kept.len() && 0 <= j < kept[i].items.len() implies (#[trigger] kept[i].items[j]).size
        == group.key by {
        let at = super::seq_facts::lemma_filter_index(by_digest, is_duplicate_set(), i);
        lemma_matching_member(group.items, digest_key(), by_digest[at].key, j);
        let r = kept[i].items[j];
        let k = choose|k: int| 0 <= k < group.items.len() && group.items[k] == r;
    }
    lemma_sums_of_sets(kept, group.key);
    lemma_spread_filter(by_digest, is_duplicate_set(), bytes_of());
    lemma_spread_filter(by_digest, is_duplicate_set(), one_each());
    lemma_spread_buckets(group.items, digest_key(), bytes_of());
    lemma_spread_buckets(group.items, digest_key(), one_each());
}

/// The duplicate sets of groups of files of one size each waste no more than
/// the groups hold, and have no more files than the groups.
pub proof fn lemma_sums_of_groups(groups: Seq<Bucket<u64, Record>>)
    requires
        forall|g: int, j: int|
            0 <= g < groups.len() && 0 <= j < groups[g].items.len() ==> (#[trigger] groups[g].items[j]).size
                == groups[g].key,
    ensures
        sum_wasted(sets_of_groups(groups)) <= spread(groups, bytes_of()),
        sum_members(sets_of_groups(groups)) <= spread(groups, one_each()),
    decreases groups.len(),
{
    if groups.len() == 0 {
        assert(groups.map_values(sets_in()) =~= Seq::<Seq<DupSet>>::empty());
    } else {
        let init = groups.drop_last();
        let last = groups.last();
        assert(init.push(last) =~= groups);
        assert forall|g: int, j: int|
            0 <= g < init.len() && 0 <= j < init[g].items.len() implies (#[trigger] init[g].items[j]).size
            == init[g].key by {
            assert(init[g] == groups[g]);
        }
        lemma_sums_of_groups(init);
        init.lemma_push_map_commute(sets_in(), last);
        init.map_values(sets_in()).lemma_flatten_push(duplicate_sets(last));
        lemma_sums_add(sets_of_groups(init), duplicate_sets(last));
        assert forall|j: int| 0 <= j < last.items.len() implies (#[trigger] last.items[j]).size
            == last.key by {
            assert(groups[groups.len() - 1].items[j].size == groups[groups.len() - 1].key);
        }
        lemma_sums_of_group(last);
    }
}

/// A scan wastes no more than the files of the inventory hold together, and
/// reports no more files than the inventory has.
pub proof fn law_totals_are_bounded(files: Seq<Record>, ceiling: u64)
    ensures
        scan(files, ceiling).total_wasted <= inventory_bytes(files),
        scan(files, ceiling).total_duplicate_files <= files.len(),
{
    let by_size = buckets(files, size_key());
    let shared = by_size.filter(is_shared());
    let groups = hashed_groups(files, ceiling);
    assert forall|g: int, j: int|
        0 <= g < groups.len() && 0 <= j < groups[g].items.len() implies (#[trigger] groups[g].items[j]).size
        == groups[g].key by {
        let g1 = super::seq_facts::lemma_filter_index(shared, within_ceiling(ceiling), g);
        let g2 = super::seq_facts::lemma_filter_index(by_size, is_shared(), g1);
        lemma_group_sizes(files, g2);
    }
    lemma_sums_of_groups(groups);
    lemma_spread_filter(shared, within_ceiling(ceiling), bytes_of());
    lemma_spread_filter(shared, within_ceiling(ceiling), one_each());
    lemma_spread_filter(by_size, is_shared(), bytes_of());
    lemma_spread_filter(by_size, is_shared(), one_each());
    lemma_spread_buckets(files, size_key(), bytes_of());
    lemma_spread_buckets(files, size_key(), one_each());
    lemma_ranked_sums(all_sets(files, ceiling));
    lemma_count_each(files);
}

/// Inventories of the same files hold the same bytes, whatever their
/// digests.
pub proof fn lemma_same_sizes_same_bytes(first: Seq<Record>, second: Seq<Record>)
    requires
        first.len() == second.len(),
        forall|i: int| 0 <= i < first.len() ==> (#[trigger] first[i]).size == second[i].size,
    ensures
        inventory_bytes(first) == inventory_bytes(second),
    decreases first.len(),
{
    if first.len() > 0 {
        assert forall|i: int| 0 <= i < first.drop_last().len() implies (#[trigger] first.drop_last()[i]).size
            == second.drop_last()[i].size by {
            assert(first[i].size == second[i].size);
        }
        lemma_same_sizes_same_bytes(first.drop_last(), second.drop_last());
        assert(first[first.len() - 1].size == second[first.len() - 1].size);
    }
}

/// The sizes of all files of an inventory together, or `None` where they do
/// not fit in 64 bits.
pub fn inventory_size(files: &Vec<FileInfo>) -> (total: Option<u64>)
    ensures
        match total {
            Some(bytes) => bytes == inventory_bytes(records(files@)),
            None => inventory_bytes(records(files@)) > u64::MAX,
        },
{
    let ghost recs = records(files@);
    let mut total: u64 = 0;
    let mut i: usize = 0;
    proof {
        assert(recs.take(0) =~= Seq::<Record>::empty());
    }
    while i < files.len()
        invariant
            i <= files.len(),
            recs == records(files@),
            total == inventory_bytes(recs.take(i as int)),
        decreases files.len() - i,
    {
        proof {
            assert(recs.take(i as int + 1).drop_last() =~= recs.take(i as int));
            assert(recs.take(i as int + 1).last().size == files[i as int].size);
            lemma_bytes_grow(recs, i as int + 1);
        }
        match total.checked_add(files[i].size) {
            Some(sum) => {
                total = sum;
            },
            None => {
                return None;
            },
        }
        i += 1;
    }
    proof {
        assert(recs.take(i as int) =~= recs);
    }
    Some(total)
}

/// The first files of an inventory hold no more than all of them.
pub proof fn lemma_bytes_grow(files: Seq<Record>, n: int)
    requires
        0 <= n <= files.len(),
    ensures
        inventory_bytes(files.take(n)) <= inventory_bytes(files),
    decreases files.len(),
{
    if n == files.len() {
        assert(files.take(n) =~= files);
    } else {
        lemma_bytes_grow(files.drop_last(), n);
        assert(files.drop_last().take(n) =~= files.take(n));
    }
}

/// Counted one each, the files of a sequence are its length.
pub proof fn lemma_count_each(files: Seq<Record>)
    ensures
        measure(files, one_each()) == files.len(),
    decreases files.len(),
{
    if files.len() > 0 {
        lemma_count_each(files.drop_last());
    }
}

} // verus!
