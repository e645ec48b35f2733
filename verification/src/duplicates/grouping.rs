//! Grouping a sequence by a key, in the order in which the keys first occur.

use super::seq_facts::{lemma_filter_index, lemma_filter_no_duplicates};
use vstd::prelude::*;

verus! {

/// The keys of `keys` without repetition, each at the place of its first
/// occurrence.
pub open spec fn distinct<K>(keys: Seq<K>) -> Seq<K>
    decreases keys.len(),
{
    if keys.len() == 0 {
        Seq::empty()
    } else {
        let rest = distinct(keys.drop_last());
        if rest.contains(keys.last()) {
            rest
        } else {
            rest.push(keys.last())
        }
    }
}

/// The items of one key, with the key.
pub struct Bucket<K, T> {
    pub key: K,
    pub items: Seq<T>,
}

/// The test "has key `k`".
pub open spec fn has_key<T, K>(key: spec_fn(T) -> K, k: K) -> spec_fn(T) -> bool {
    |t: T| key(t) == k
}

/// The items whose key is `k`, in their order in `items`.
pub open spec fn matching<T, K>(items: Seq<T>, key: spec_fn(T) -> K, k: K) -> Seq<T> {
    items.filter(has_key(key, k))
}

/// One bucket per key that occurs, in order of first occurrence; each holds
/// all items of its key in their order in `items`.
pub open spec fn buckets<T, K>(items: Seq<T>, key: spec_fn(T) -> K) -> Seq<Bucket<K, T>> {
    distinct(items.map_values(key)).map_values(
        |k: K| Bucket { key: k, items: matching(items, key, k) },
    )
}

/// The test "holds two items or more".
pub open spec fn is_shared<K, T>() -> spec_fn(Bucket<K, T>) -> bool {
    |b: Bucket<K, T>| b.items.len() >= 2
}

/// The buckets that hold two items or more.
pub open spec fn shared_buckets<T, K>(items: Seq<T>, key: spec_fn(T) -> K) -> Seq<Bucket<K, T>> {
    buckets(items, key).filter(is_shared())
}

/// The distinct keys are the keys that occur.
pub proof fn lemma_distinct_contains<K>(keys: Seq<K>, k: K)
    ensures
        distinct(keys).contains(k) <==> keys.contains(k),
    decreases keys.len(),
{
    if keys.len() > 0 {
        let init = keys.drop_last();
        lemma_distinct_contains(init, k);
        if keys.contains(k) {
            let i = choose|i: int| 0 <= i < keys.len() && keys[i] == k;
            if i < init.len() {
                assert(init[i] == k);
            } else {
                assert(keys.last() == k);
            }
        }
        if init.contains(k) {
            let i = choose|i: int| 0 <= i < init.len() && init[i] == k;
            assert(keys[i] == k);
        }
        let rest = distinct(init);
        if !rest.contains(keys.last()) {
            let grown = rest.push(keys.last());
            assert(grown.last() == keys.last());
            if grown.contains(k) && k != keys.last() {
                let i = choose|i: int| 0 <= i < grown.len() && grown[i] == k;
                assert(rest[i] == k);
            }
            if rest.contains(k) {
                let i = choose|i: int| 0 <= i < rest.len() && rest[i] == k;
                assert(grown[i] == k);
            }
        }
    }
}

/// No key occurs twice among the distinct keys.
pub proof fn lemma_distinct_no_duplicates<K>(keys: Seq<K>)
    ensures
        distinct(keys).no_duplicates(),
    decreases keys.len(),
{
    if keys.len() > 0 {
        lemma_distinct_no_duplicates(keys.drop_last());
    }
}

/// The distinct keys of a sequence that grew by one key.
pub proof fn lemma_distinct_push<K>(keys: Seq<K>, k: K)
    ensures
        distinct(keys.push(k)) == if keys.contains(k) {
            distinct(keys)
        } else {
            distinct(keys).push(k)
        },
{
    assert(keys.push(k).drop_last() =~= keys);
    lemma_distinct_contains(keys, k);
}

/// The items of a key after one more item arrived.
pub proof fn lemma_matching_push<T, K>(items: Seq<T>, key: spec_fn(T) -> K, t: T, k: K)
    ensures
        matching(items.push(t), key, k) == if key(t) == k {
            matching(items, key, k).push(t)
        } else {
            matching(items, key, k)
        },
{
    items.lemma_filter_push(t, has_key(key, k));
}

/// A key that no item has matches nothing, and conversely.
pub proof fn lemma_matching_empty<T, K>(items: Seq<T>, key: spec_fn(T) -> K, k: K)
    ensures
        matching(items, key, k).len() == 0 <==> !items.map_values(key).contains(k),
    decreases items.len(),
{
    if items.len() == 0 {
        assert(matching(items, key, k) =~= Seq::<T>::empty()) by {
            reveal(Seq::filter);
        }
    } else {
        let init = items.drop_last();
        let t = items.last();
        assert(init.push(t) =~= items);
        lemma_matching_empty(init, key, k);
        lemma_matching_push(init, key, t, k);
        init.lemma_push_map_commute(key, t);
        let ks = init.map_values(key);
        let grown = ks.push(key(t));
        assert(items.map_values(key) =~= grown);
        if ks.contains(k) {
            let i = choose|i: int| 0 <= i < ks.len() && ks[i] == k;
            assert(grown[i] == k);
        }
        if key(t) == k {
            assert(grown[ks.len() as int] == k);
        }
        if grown.contains(k) && key(t) != k {
            let i = choose|i: int| 0 <= i < grown.len() && grown[i] == k;
            assert(ks[i] == k);
        }
    }
}

/// Every item that matches a key has that key and occurs in `items`.
pub proof fn lemma_matching_member<T, K>(items: Seq<T>, key: spec_fn(T) -> K, k: K, i: int)
    requires
        0 <= i < matching(items, key, k).len(),
    ensures
        key(matching(items, key, k)[i]) == k,
        items.contains(matching(items, key, k)[i]),
{
    let pred = has_key(key, k);
    let found = items.filter(pred);
    items.lemma_filter_pred(pred, i);
    assert(found.contains(found[i]));
    items.lemma_filter_contains_rev(pred, found[i]);
}

/// How the buckets change when one more item arrives: it joins the bucket of
/// its key, or opens a new bucket at the end.
pub proof fn lemma_buckets_push<T, K>(items: Seq<T>, key: spec_fn(T) -> K, t: T)
    ensures
        items.map_values(key).contains(key(t)) ==> {
            &&& buckets(items.push(t), key).len() == buckets(items, key).len()
            &&& forall|j: int|
                0 <= j < buckets(items, key).len() ==> #[trigger] buckets(items.push(t), key)[j]
                    == if buckets(items, key)[j].key == key(t) {
                    Bucket { key: key(t), items: buckets(items, key)[j].items.push(t) }
                } else {
                    buckets(items, key)[j]
                }
        },
        !items.map_values(key).contains(key(t)) ==> buckets(items.push(t), key) == buckets(
            items,
            key,
        ).push(Bucket { key: key(t), items: seq![t] }),
{
    let ks = items.map_values(key);
    let k = key(t);
    items.lemma_push_map_commute(key, t);
    assert(items.push(t).map_values(key) == ks.push(k));
    lemma_distinct_push(ks, k);
    let old_b = buckets(items, key);
    let new_b = buckets(items.push(t), key);
    if ks.contains(k) {
        assert forall|j: int| 0 <= j < old_b.len() implies #[trigger] new_b[j] == if old_b[j].key
            == k {
            Bucket { key: k, items: old_b[j].items.push(t) }
        } else {
            old_b[j]
        } by {
            lemma_matching_push(items, key, t, distinct(ks)[j]);
        }
    } else {
        let grown = old_b.push(Bucket { key: k, items: seq![t] });
        assert(new_b.len() == grown.len());
        assert forall|j: int| 0 <= j < new_b.len() implies new_b[j] == grown[j] by {
            lemma_matching_push(items, key, t, distinct(ks).push(k)[j]);
            if j == old_b.len() {
                lemma_matching_empty(items, key, k);
                assert(matching(items, key, k) =~= Seq::<T>::empty());
                assert(matching(items, key, k).push(t) =~= seq![t]);
            } else {
                lemma_distinct_contains(ks, distinct(ks)[j]);
                assert(distinct(ks).contains(distinct(ks)[j]));
            }
        }
        assert(new_b =~= grown);
    }
}

/// The buckets that are kept by a test are buckets of the sequence, each
/// holding the items of its key, and no two have the same key.
pub proof fn lemma_kept_buckets<T, K>(
    items: Seq<T>,
    key: spec_fn(T) -> K,
    keep: spec_fn(Bucket<K, T>) -> bool,
)
    ensures
        forall|g: int|
            0 <= g < buckets(items, key).filter(keep).len() ==> (#[trigger] buckets(
                items,
                key,
            ).filter(keep)[g]).items == matching(items, key, buckets(items, key).filter(keep)[g].key),
        forall|g: int, h: int|
            0 <= g < buckets(items, key).filter(keep).len() && 0 <= h < buckets(items, key).filter(
                keep,
            ).len() && g != h ==> (#[trigger] buckets(items, key).filter(keep)[g]).key != (
            #[trigger] buckets(items, key).filter(keep)[h]).key,
{
    let all = buckets(items, key);
    let kept = all.filter(keep);
    let keys = distinct(items.map_values(key));
    lemma_distinct_no_duplicates(items.map_values(key));
    assert forall|i: int, j: int| 0 <= i < all.len() && 0 <= j < all.len() && i != j implies all[i]
        != all[j] by {
        assert(all[i].key == keys[i] && all[j].key == keys[j]);
    }
    assert(all.no_duplicates());
    lemma_filter_no_duplicates(all, keep);
    assert forall|g: int| 0 <= g < kept.len() implies (#[trigger] kept[g]).items == matching(
        items,
        key,
        kept[g].key,
    ) by {
        let at = lemma_filter_index(all, keep, g);
    }
    assert forall|g: int, h: int|
        0 <= g < kept.len() && 0 <= h < kept.len() && g != h implies (#[trigger] kept[g]).key != (
    #[trigger] kept[h]).key by {
        let at_g = lemma_filter_index(all, keep, g);
        let at_h = lemma_filter_index(all, keep, h);
        assert(kept[g] != kept[h]);
        if at_g != at_h {
            assert(keys[at_g] != keys[at_h]);
        }
    }
}

} // verus!
