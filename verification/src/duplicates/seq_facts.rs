//! Facts about filtered and flattened sequences that the laws of the scan
//! rest on.

use vstd::multiset::Multiset;
use vstd::prelude::*;

verus! {

/// Every item of a filtered sequence stands somewhere in the sequence, and
/// passes the test.
pub proof fn lemma_filter_index<A>(s: Seq<A>, pred: spec_fn(A) -> bool, k: int) -> (i: int)
    requires
        0 <= k < s.filter(pred).len(),
    ensures
        0 <= i < s.len(),
        s[i] == s.filter(pred)[k],
        pred(s[i]),
{
    let kept = s.filter(pred);
    s.lemma_filter_pred(pred, k);
    assert(kept.contains(kept[k]));
    s.lemma_filter_contains_rev(pred, kept[k]);
    choose|i: int| 0 <= i < s.len() && s[i] == kept[k]
}

/// Every item that passes the test stands somewhere in the filtered sequence.
pub proof fn lemma_filter_keeps<A>(s: Seq<A>, pred: spec_fn(A) -> bool, i: int) -> (k: int)
    requires
        0 <= i < s.len(),
        pred(s[i]),
    ensures
        0 <= k < s.filter(pred).len(),
        s.filter(pred)[k] == s[i],
{
    let kept = s.filter(pred);
    s.lemma_filter_contains(pred, i);
    choose|k: int| 0 <= k < kept.len() && kept[k] == s[i]
}

/// Filtering twice is filtering by both tests at once.
pub proof fn lemma_filter_twice<A>(
    s: Seq<A>,
    p: spec_fn(A) -> bool,
    q: spec_fn(A) -> bool,
    both: spec_fn(A) -> bool,
)
    requires
        forall|x: A| #[trigger] both(x) == (p(x) && q(x)),
    ensures
        s.filter(p).filter(q) == s.filter(both),
    decreases s.len(),
{
    if s.len() == 0 {
        assert(s.filter(p) =~= s && s.filter(both) =~= s && s.filter(q) =~= s) by {
            reveal(Seq::filter);
        }
    } else {
        let init = s.drop_last();
        let last = s.last();
        assert(init.push(last) =~= s);
        lemma_filter_twice(init, p, q, both);
        init.lemma_filter_push(last, p);
        init.lemma_filter_push(last, both);
        init.filter(p).lemma_filter_push(last, q);
    }
}

/// A filtered sequence of two items or more shows two places of the sequence
/// that pass the test.
pub proof fn lemma_filter_two_places<A>(s: Seq<A>, pred: spec_fn(A) -> bool) -> (places: (
    int,
    int,
))
    requires
        s.filter(pred).len() >= 2,
    ensures
        0 <= places.0 < places.1 < s.len(),
        pred(s[places.0]),
        pred(s[places.1]),
    decreases s.len(),
{
    if s.len() == 0 {
        assert(s.filter(pred) =~= s) by {
            reveal(Seq::filter);
        }
        (0, 0)
    } else {
        let init = s.drop_last();
        let last = s.last();
        assert(init.push(last) =~= s);
        init.lemma_filter_push(last, pred);
        if init.filter(pred).len() >= 2 {
            lemma_filter_two_places(init, pred)
        } else {
            let i = lemma_filter_index(init, pred, 0);
            (i, s.len() - 1)
        }
    }
}

/// Two places of a sequence that pass the test make the filtered sequence
/// two items long or more.
pub proof fn lemma_two_places_filter<A>(s: Seq<A>, pred: spec_fn(A) -> bool, i: int, j: int)
    requires
        0 <= i < j < s.len(),
        pred(s[i]),
        pred(s[j]),
    ensures
        s.filter(pred).len() >= 2,
    decreases s.len(),
{
    let init = s.drop_last();
    let last = s.last();
    assert(init.push(last) =~= s);
    init.lemma_filter_push(last, pred);
    if j < s.len() - 1 {
        lemma_two_places_filter(init, pred, i, j);
    } else {
        let k = lemma_filter_keeps(init, pred, i);
    }
}

/// Two sequences that agree on which places pass the test keep the same
/// number of items.
pub proof fn lemma_filter_same_len<A>(a: Seq<A>, b: Seq<A>, pred: spec_fn(A) -> bool)
    requires
        a.len() == b.len(),
        forall|i: int| 0 <= i < a.len() ==> pred(#[trigger] a[i]) == pred(b[i]),
    ensures
        a.filter(pred).len() == b.filter(pred).len(),
    decreases a.len(),
{
    if a.len() == 0 {
        assert(a =~= b);
    } else {
        assert(a.drop_last().push(a.last()) =~= a);
        assert(b.drop_last().push(b.last()) =~= b);
        a.drop_last().lemma_filter_push(a.last(), pred);
        b.drop_last().lemma_filter_push(b.last(), pred);
        assert(pred(a[a.len() - 1]) == pred(b[a.len() - 1]));
        assert forall|i: int| 0 <= i < a.drop_last().len() implies pred(
            #[trigger] a.drop_last()[i],
        ) == pred(b.drop_last()[i]) by {
            assert(pred(a[i]) == pred(b[i]));
        }
        lemma_filter_same_len(a.drop_last(), b.drop_last(), pred);
    }
}

/// Two sequences that agree on which places pass the test, and on the items
/// at those places, are the same once filtered.
pub proof fn lemma_filter_agree<A>(a: Seq<A>, b: Seq<A>, pred: spec_fn(A) -> bool)
    requires
        a.len() == b.len(),
        forall|i: int| 0 <= i < a.len() ==> pred(#[trigger] a[i]) == pred(b[i]),
        forall|i: int| 0 <= i < a.len() && pred(#[trigger] a[i]) ==> a[i] == b[i],
    ensures
        a.filter(pred) == b.filter(pred),
    decreases a.len(),
{
    if a.len() == 0 {
        assert(a =~= b);
    } else {
        assert(a.drop_last().push(a.last()) =~= a);
        assert(b.drop_last().push(b.last()) =~= b);
        a.drop_last().lemma_filter_push(a.last(), pred);
        b.drop_last().lemma_filter_push(b.last(), pred);
        assert(pred(a[a.len() - 1]) == pred(b[a.len() - 1]));
        assert forall|i: int| 0 <= i < a.drop_last().len() implies pred(
            #[trigger] a.drop_last()[i],
        ) == pred(b.drop_last()[i]) by {
            assert(pred(a[i]) == pred(b[i]));
        }
        assert forall|i: int|
            0 <= i < a.drop_last().len() && pred(#[trigger] a.drop_last()[i]) implies a.drop_last()[i]
            == b.drop_last()[i] by {
            assert(pred(a[i]));
        }
        lemma_filter_agree(a.drop_last(), b.drop_last(), pred);
    }
}

/// Filtering a sequence without repetition gives one without repetition.
pub proof fn lemma_filter_no_duplicates<A>(s: Seq<A>, pred: spec_fn(A) -> bool)
    requires
        s.no_duplicates(),
    ensures
        s.filter(pred).no_duplicates(),
    decreases s.len(),
{
    if s.len() == 0 {
        assert(s.filter(pred) =~= s) by {
            reveal(Seq::filter);
        }
    } else {
        let init = s.drop_last();
        let last = s.last();
        assert(init.push(last) =~= s);
        lemma_filter_no_duplicates(init, pred);
        init.lemma_filter_push(last, pred);
        if init.filter(pred).contains(last) {
            init.lemma_filter_contains_rev(pred, last);
            let i = choose|i: int| 0 <= i < init.len() && init[i] == last;
            assert(s[i] == s[s.len() - 1]);
        }
    }
}

/// Taking an item out of a sequence takes it out of the filtered sequence,
/// if it was there.
pub proof fn lemma_filter_len_remove<A>(s: Seq<A>, pred: spec_fn(A) -> bool, i: int)
    requires
        0 <= i < s.len(),
    ensures
        s.filter(pred).len() == s.remove(i).filter(pred).len() + if pred(s[i]) {
            1nat
        } else {
            0nat
        },
    decreases s.len(),
{
    let init = s.drop_last();
    let last = s.last();
    assert(init.push(last) =~= s);
    init.lemma_filter_push(last, pred);
    if i == s.len() - 1 {
        assert(s.remove(i) =~= init);
    } else {
        lemma_filter_len_remove(init, pred, i);
        assert(s.remove(i) =~= init.remove(i).push(last));
        init.remove(i).lemma_filter_push(last, pred);
    }
}

/// Sequences of the same items, in whatever order, keep the same number of
/// items when filtered.
pub proof fn lemma_filter_len_permutation<A>(a: Seq<A>, b: Seq<A>, pred: spec_fn(A) -> bool)
    requires
        a.to_multiset() == b.to_multiset(),
    ensures
        a.filter(pred).len() == b.filter(pred).len(),
    decreases a.len(),
{
    broadcast use vstd::seq_lib::group_to_multiset_ensures;

    a.to_multiset_ensures();
    b.to_multiset_ensures();
    if a.len() == 0 {
        assert(b.len() == 0);
        assert(a =~= b);
    } else {
        let x = a.last();
        assert(a.to_multiset().count(x) > 0);
        assert(b.contains(x));
        let i = choose|i: int| 0 <= i < b.len() && b[i] == x;
        assert(a.remove(a.len() - 1) =~= a.drop_last());
        assert(a.drop_last().to_multiset() =~= a.to_multiset().remove(x));
        assert(b.remove(i).to_multiset() =~= b.to_multiset().remove(x));
        lemma_filter_len_permutation(a.drop_last(), b.remove(i), pred);
        lemma_filter_len_remove(a, pred, a.len() - 1);
        lemma_filter_len_remove(b, pred, i);
    }
}

/// The items of a sequence that pass a test, each changed in the same way,
/// as a collection without order.
pub open spec fn kept_images<A, B>(s: Seq<A>, pred: spec_fn(A) -> bool, f: spec_fn(A) -> B) -> Multiset<
    B,
> {
    s.filter(pred).map_values(f).to_multiset()
}

/// One more item adds its image to the kept images, if it passes the test.
pub proof fn lemma_kept_images_push<A, B>(
    s: Seq<A>,
    x: A,
    pred: spec_fn(A) -> bool,
    f: spec_fn(A) -> B,
)
    ensures
        kept_images(s.push(x), pred, f) == if pred(x) {
            kept_images(s, pred, f).insert(f(x))
        } else {
            kept_images(s, pred, f)
        },
{
    broadcast use vstd::seq_lib::group_to_multiset_ensures;

    s.lemma_filter_push(x, pred);
    if pred(x) {
        s.filter(pred).lemma_push_map_commute(f, x);
    }
}

/// Taking an item out of a sequence takes its image out of the kept images,
/// if it passed the test.
pub proof fn lemma_kept_images_remove<A, B>(
    s: Seq<A>,
    pred: spec_fn(A) -> bool,
    f: spec_fn(A) -> B,
    i: int,
)
    requires
        0 <= i < s.len(),
    ensures
        kept_images(s, pred, f) == if pred(s[i]) {
            kept_images(s.remove(i), pred, f).insert(f(s[i]))
        } else {
            kept_images(s.remove(i), pred, f)
        },
    decreases s.len(),
{
    let init = s.drop_last();
    let last = s.last();
    assert(init.push(last) =~= s);
    lemma_kept_images_push(init, last, pred, f);
    if i == s.len() - 1 {
        assert(s.remove(i) =~= init);
    } else {
        lemma_kept_images_remove(init, pred, f, i);
        assert(s.remove(i) =~= init.remove(i).push(last));
        lemma_kept_images_push(init.remove(i), last, pred, f);
        assert(kept_images(s, pred, f) =~= if pred(s[i]) {
            kept_images(s.remove(i), pred, f).insert(f(s[i]))
        } else {
            kept_images(s.remove(i), pred, f)
        });
    }
}

/// Sequences of the same items, in whatever order, have the same kept
/// images.
pub proof fn lemma_kept_images_permutation<A, B>(
    a: Seq<A>,
    b: Seq<A>,
    pred: spec_fn(A) -> bool,
    f: spec_fn(A) -> B,
)
    requires
        a.to_multiset() == b.to_multiset(),
    ensures
        kept_images(a, pred, f) == kept_images(b, pred, f),
    decreases a.len(),
{
    broadcast use vstd::seq_lib::group_to_multiset_ensures;

    a.to_multiset_ensures();
    b.to_multiset_ensures();
    if a.len() == 0 {
        assert(b.len() == 0);
        assert(a =~= b);
    } else {
        let x = a.last();
        assert(a.to_multiset().count(x) > 0);
        assert(b.contains(x));
        let i = choose|i: int| 0 <= i < b.len() && b[i] == x;
        assert(a.remove(a.len() - 1) =~= a.drop_last());
        assert(a.drop_last().to_multiset() =~= a.to_multiset().remove(x));
        assert(b.remove(i).to_multiset() =~= b.to_multiset().remove(x));
        lemma_kept_images_permutation(a.drop_last(), b.remove(i), pred, f);
        lemma_kept_images_remove(a, pred, f, a.len() - 1);
        lemma_kept_images_remove(b, pred, f, i);
    }
}

/// Every item of a flattened sequence stands in one of the lists.
pub proof fn lemma_flatten_index<A>(lists: Seq<Seq<A>>, k: int) -> (place: (int, int))
    requires
        0 <= k < lists.flatten().len(),
    ensures
        0 <= place.0 < lists.len(),
        0 <= place.1 < lists[place.0].len(),
        lists[place.0][place.1] == lists.flatten()[k],
    decreases lists.len(),
{
    if lists.len() == 0 {
        (0, 0)
    } else {
        let init = lists.drop_last();
        let last = lists.last();
        assert(init.push(last) =~= lists);
        init.lemma_flatten_push(last);
        if k < init.flatten().len() {
            lemma_flatten_index(init, k)
        } else {
            (lists.len() - 1, k - init.flatten().len())
        }
    }
}

/// Every item of every list stands in the flattened sequence.
pub proof fn lemma_flatten_keeps<A>(lists: Seq<Seq<A>>, g: int, j: int) -> (k: int)
    requires
        0 <= g < lists.len(),
        0 <= j < lists[g].len(),
    ensures
        0 <= k < lists.flatten().len(),
        lists.flatten()[k] == lists[g][j],
    decreases lists.len(),
{
    let init = lists.drop_last();
    let last = lists.last();
    assert(init.push(last) =~= lists);
    init.lemma_flatten_push(last);
    if g < lists.len() - 1 {
        lemma_flatten_keeps(init, g, j)
    } else {
        init.flatten().len() + j
    }
}

} // verus!
