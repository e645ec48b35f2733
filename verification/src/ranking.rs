//! Putting things in order without changing the order of things that tie.

use vstd::prelude::*;

verus! {

/// Something of which one can say that it has to stand before another.
pub trait Ordered: Sized {
    /// Whether `self` has to stand before `other`. Two things of which
    /// neither has to stand before the other tie.
    spec fn before(&self, other: &Self) -> bool;

    /// Nothing stands before itself; what stands before something that
    /// stands before a third stands before the third; and so it is with not
    /// standing before.
    proof fn order_laws(a: Self, b: Self, c: Self)
        ensures
            !a.before(&a),
            a.before(&b) && b.before(&c) ==> a.before(&c),
            !a.before(&b) && !b.before(&c) ==> !a.before(&c),
    ;
}

/// Something that can be compared with another of its kind.
pub trait Comparable: Ordered {
    /// Whether the thing is fit to be compared.
    spec fn ready(&self) -> bool;

    /// Whether `self` has to stand before `other`.
    fn stands_before(&self, other: &Self) -> (first: bool)
        requires
            self.ready(),
            other.ready(),
        ensures
            first == self.before(other),
    ;
}

/// Something with a weight to order it by, the heaviest first.
pub trait HasWeight {
    /// The weight.
    spec fn weight(&self) -> nat;
}

/// Something whose weight can be read.
pub trait Weighted: HasWeight {
    /// Reads the weight.
    fn weigh(&self) -> (w: u64)
        ensures
            w == self.weight(),
    ;
}

impl<T: HasWeight> Ordered for T {
    /// What weighs more stands before what weighs less.
    open spec fn before(&self, other: &Self) -> bool {
        self.weight() > other.weight()
    }

    proof fn order_laws(a: Self, b: Self, c: Self) {
    }
}

impl<T: Weighted> Comparable for T {
    open spec fn ready(&self) -> bool {
        true
    }

    fn stands_before(&self, other: &Self) -> (first: bool) {
        self.weigh() > other.weigh()
    }
}

/// `sorted` with `x` put before the items at the end that it has to stand
/// before.
pub open spec fn insert_in_order<T: Ordered>(sorted: Seq<T>, x: T) -> Seq<T>
    decreases sorted.len(),
{
    if sorted.len() == 0 {
        seq![x]
    } else if x.before(&sorted.last()) {
        insert_in_order(sorted.drop_last(), x).push(sorted.last())
    } else {
        sorted.push(x)
    }
}

/// The items in order; items that tie keep the order they came in.
pub open spec fn in_order<T: Ordered>(items: Seq<T>) -> Seq<T>
    decreases items.len(),
{
    if items.len() == 0 {
        Seq::empty()
    } else {
        insert_in_order(in_order(items.drop_last()), items.last())
    }
}

/// Nothing has to stand before something that stands before it.
pub open spec fn is_in_order<T: Ordered>(items: Seq<T>) -> bool {
    forall|i: int, j: int| 0 <= i < j < items.len() ==> !#[trigger] items[j].before(&items[i])
}

/// The test "ties with `x`".
pub open spec fn tied<T: Ordered>(x: T) -> spec_fn(T) -> bool {
    |t: T| !t.before(&x) && !x.before(&t)
}

/// Putting an item in its place keeps the order, and the items are those
/// that were there and the new one.
pub proof fn lemma_insert_in_order<T: Ordered>(sorted: Seq<T>, x: T)
    requires
        is_in_order(sorted),
    ensures
        is_in_order(insert_in_order(sorted, x)),
        insert_in_order(sorted, x).len() == sorted.len() + 1,
        insert_in_order(sorted, x).to_multiset() == sorted.to_multiset().insert(x),
    decreases sorted.len(),
{
    broadcast use vstd::seq_lib::group_to_multiset_ensures;

    let out = insert_in_order(sorted, x);
    if sorted.len() == 0 {
        assert(out =~= sorted.push(x));
    } else if x.before(&sorted.last()) {
        let init = sorted.drop_last();
        let last = sorted.last();
        assert(init.push(last) =~= sorted);
        assert(is_in_order(init)) by {
            assert forall|i: int, j: int| 0 <= i < j < init.len() implies !#[trigger] init[j].before(&init[i]) by {
                assert(!sorted[j].before(&sorted[i]));
            }
        }
        lemma_insert_in_order(init, x);
        let inner = insert_in_order(init, x);
        assert(out.to_multiset() =~= sorted.to_multiset().insert(x));
        assert forall|i: int, j: int| 0 <= i < j < out.len() implies !#[trigger] out[j].before(&out[i]) by {
            if j == out.len() - 1 {
                assert(inner.to_multiset().count(inner[i]) > 0);
                if inner[i] == x {
                    T::order_laws(x, last, x);
                } else {
                    assert(init.to_multiset().count(inner[i]) > 0);
                    assert(init.contains(inner[i]));
                    let k = choose|k: int| 0 <= k < init.len() && init[k] == inner[i];
                    assert(!sorted[sorted.len() - 1].before(&sorted[k]));
                }
            } else {
                assert(!inner[j].before(&inner[i]));
            }
        }
    } else {
        assert forall|i: int, j: int| 0 <= i < j < out.len() implies !#[trigger] out[j].before(&out[i]) by {
            if j == out.len() - 1 {
                if i < sorted.len() - 1 {
                    assert(!sorted[sorted.len() - 1].before(&sorted[i]));
                    T::order_laws(x, sorted.last(), sorted[i]);
                }
            } else {
                assert(!sorted[j].before(&sorted[i]));
            }
        }
    }
}

/// The items in order are in order, and are the items that were given.
pub proof fn lemma_in_order<T: Ordered>(items: Seq<T>)
    ensures
        is_in_order(in_order(items)),
        in_order(items).len() == items.len(),
        in_order(items).to_multiset() == items.to_multiset(),
    decreases items.len(),
{
    broadcast use vstd::seq_lib::group_to_multiset_ensures;

    if items.len() > 0 {
        let init = items.drop_last();
        assert(init.push(items.last()) =~= items);
        lemma_in_order(init);
        lemma_insert_in_order(in_order(init), items.last());
    } else {
        assert(in_order(items) =~= items);
    }
}

/// Putting an item in its place puts it behind the items that tie with it,
/// and leaves the items that tie in their order.
pub proof fn lemma_insert_keeps_ties<T: Ordered>(sorted: Seq<T>, y: T, x: T)
    ensures
        insert_in_order(sorted, y).filter(tied(x)) == if tied(x)(y) {
            sorted.filter(tied(x)).push(y)
        } else {
            sorted.filter(tied(x))
        },
    decreases sorted.len(),
{
    let same = tied(x);
    if sorted.len() == 0 {
        assert(seq![y] =~= sorted.push(y));
        sorted.lemma_filter_push(y, same);
    } else if y.before(&sorted.last()) {
        let init = sorted.drop_last();
        let last = sorted.last();
        assert(init.push(last) =~= sorted);
        lemma_insert_keeps_ties(init, y, x);
        insert_in_order(init, y).lemma_filter_push(last, same);
        init.lemma_filter_push(last, same);
        if same(y) && same(last) {
            T::order_laws(y, x, last);
        }
    } else {
        sorted.lemma_filter_push(y, same);
    }
}

/// Items that tie keep their order: the items that tie with `x` stand in the
/// order in which they were given.
pub proof fn law_ties_keep_their_order<T: Ordered>(items: Seq<T>, x: T)
    ensures
        in_order(items).filter(tied(x)) == items.filter(tied(x)),
    decreases items.len(),
{
    if items.len() > 0 {
        let init = items.drop_last();
        assert(init.push(items.last()) =~= items);
        law_ties_keep_their_order(init, x);
        lemma_insert_keeps_ties(in_order(init), items.last(), x);
        init.lemma_filter_push(items.last(), tied(x));
    }
}

/// Putting in order goes by the order alone: where the images of items under
/// `f` stand before each other as the items do, ordering and then taking
/// images is taking images and then ordering.
pub proof fn lemma_in_order_maps<T: Ordered, U: Ordered>(items: Seq<T>, f: spec_fn(T) -> U)
    requires
        forall|a: T, b: T| #[trigger] f(a).before(&f(b)) == a.before(&b),
    ensures
        in_order(items).map_values(f) == in_order(items.map_values(f)),
    decreases items.len(),
{
    if items.len() == 0 {
        assert(in_order(items).map_values(f) =~= in_order(items.map_values(f)));
    } else {
        let init = items.drop_last();
        lemma_in_order_maps(init, f);
        assert(items.map_values(f).drop_last() =~= init.map_values(f));
        lemma_insert_maps(in_order(init), items.last(), f);
    }
}

/// Putting an item in its place goes by the order alone.
pub proof fn lemma_insert_maps<T: Ordered, U: Ordered>(sorted: Seq<T>, x: T, f: spec_fn(T) -> U)
    requires
        forall|a: T, b: T| #[trigger] f(a).before(&f(b)) == a.before(&b),
    ensures
        insert_in_order(sorted, x).map_values(f) == insert_in_order(sorted.map_values(f), f(x)),
    decreases sorted.len(),
{
    let mapped = sorted.map_values(f);
    if sorted.len() == 0 {
        assert(insert_in_order(sorted, x).map_values(f) =~= insert_in_order(mapped, f(x)));
    } else {
        assert(mapped.last() == f(sorted.last()));
        assert(f(x).before(&f(sorted.last())) == x.before(&sorted.last()));
        if x.before(&sorted.last()) {
            let init = sorted.drop_last();
            lemma_insert_maps(init, x, f);
            assert(mapped.drop_last() =~= init.map_values(f));
            assert(insert_in_order(init, x).push(sorted.last()).map_values(f) =~= insert_in_order(
                init.map_values(f),
                f(x),
            ).push(f(sorted.last())));
        } else {
            assert(sorted.push(x).map_values(f) =~= mapped.push(f(x)));
        }
    }
}

/// Two runs of items merged from their ends: of the two last items the one
/// that has to stand before the other does, and where they tie, the one of
/// the first run.
pub open spec fn merged<T: Ordered>(a: Seq<T>, b: Seq<T>) -> Seq<T>
    decreases a.len() + b.len(),
{
    if a.len() == 0 {
        b
    } else if b.len() == 0 {
        a
    } else if b.last().before(&a.last()) {
        merged(a.drop_last(), b).push(a.last())
    } else {
        merged(a, b.drop_last()).push(b.last())
    }
}

/// Putting an item in its place in a merged run is merging with the second
/// run that has the item in its place.
pub proof fn lemma_insert_into_merged<T: Ordered>(a: Seq<T>, b: Seq<T>, x: T)
    ensures
        insert_in_order(merged(a, b), x) == merged(a, insert_in_order(b, x)),
    decreases a.len() + b.len(),
{
    let with_x = insert_in_order(b, x);
    let both = merged(a, b);
    if a.len() == 0 {
    } else if b.len() == 0 {
        assert(with_x.drop_last() =~= b);
        if x.before(&a.last()) {
            lemma_insert_into_merged(a.drop_last(), b, x);
            assert(merged(a.drop_last(), b) =~= a.drop_last());
        }
    } else {
        let last_a = a.last();
        let last_b = b.last();
        if last_b.before(&last_a) {
            assert(both.drop_last() =~= merged(a.drop_last(), b));
        } else {
            assert(both.drop_last() =~= merged(a, b.drop_last()));
        }
        T::order_laws(x, last_b, last_a);
        if x.before(&last_b) {
            assert(with_x.drop_last() =~= insert_in_order(b.drop_last(), x));
            if last_b.before(&last_a) {
                lemma_insert_into_merged(a.drop_last(), b, x);
            } else {
                lemma_insert_into_merged(a, b.drop_last(), x);
            }
        } else {
            assert(with_x.drop_last() =~= b);
            if last_b.before(&last_a) && x.before(&last_a) {
                lemma_insert_into_merged(a.drop_last(), b, x);
            }
        }
    }
}

/// Ordering two runs and merging them is ordering the two together.
pub proof fn lemma_merged_is_in_order<T: Ordered>(x: Seq<T>, y: Seq<T>)
    ensures
        merged(in_order(x), in_order(y)) == in_order(x + y),
    decreases y.len(),
{
    if y.len() == 0 {
        assert(x + y =~= x);
    } else {
        let init = y.drop_last();
        lemma_merged_is_in_order(x, init);
        assert((x + y).drop_last() =~= x + init);
        lemma_insert_into_merged(in_order(x), in_order(init), y.last());
    }
}

/// Whether all items are fit to be compared.
pub open spec fn all_ready<T: Comparable>(items: Seq<T>) -> bool {
    forall|i: int| 0 <= i < items.len() ==> (#[trigger] items[i]).ready()
}

/// Merges two runs from their ends.
fn merge<T: Comparable>(left: Vec<T>, right: Vec<T>) -> (out: Vec<T>)
    requires
        all_ready(left@),
        all_ready(right@),
    ensures
        out@ == merged(left@, right@),
{
    let ghost target = merged(left@, right@);
    let mut left = left;
    let mut right = right;
    let mut tail: Vec<T> = Vec::new();
    while left.len() > 0 && right.len() > 0
        invariant
            all_ready(left@),
            all_ready(right@),
            target == merged(left@, right@) + tail@.reverse(),
        decreases left.len() + right.len(),
    {
        let ghost before = tail@;
        let ghost a = left@;
        let ghost b = right@;
        if right[right.len() - 1].stands_before(&left[left.len() - 1]) {
            let item = left.pop().unwrap();
            tail.push(item);
            proof {
                assert(left@ =~= a.drop_last());
                assert(merged(a.drop_last(), b).push(item) + before.reverse() =~= merged(
                    a.drop_last(),
                    b,
                ) + before.push(item).reverse());
                assert forall|i: int| 0 <= i < left@.len() implies (#[trigger] left@[i]).ready() by {
                    assert(a[i].ready());
                }
            }
        } else {
            let item = right.pop().unwrap();
            tail.push(item);
            proof {
                assert(right@ =~= b.drop_last());
                assert(merged(a, b.drop_last()).push(item) + before.reverse() =~= merged(
                    a,
                    b.drop_last(),
                ) + before.push(item).reverse());
                assert forall|i: int| 0 <= i < right@.len() implies (#[trigger] right@[i]).ready() by {
                    assert(b[i].ready());
                }
            }
        }
    }
    let mut out = if left.len() > 0 {
        left
    } else {
        right
    };
    while tail.len() > 0
        invariant
            target == out@ + tail@.reverse(),
        decreases tail.len(),
    {
        let ghost before = out@;
        let ghost rest = tail@;
        let item = tail.pop().unwrap();
        out.push(item);
        proof {
            assert(tail@ =~= rest.drop_last());
            assert(before.push(item) + rest.drop_last().reverse() =~= before + rest.reverse());
        }
    }
    proof {
        assert(out@ + tail@.reverse() =~= out@);
    }
    out
}

/// Puts items in order. Items that tie keep their order.
pub fn rank<T: Comparable>(items: Vec<T>) -> (out: Vec<T>)
    requires
        all_ready(items@),
    ensures
        out@ == in_order(items@),
    decreases items.len(),
{
    let ghost given = items@;
    if items.len() <= 1 {
        proof {
            if given.len() == 1 {
                assert(in_order(given.drop_last()) =~= Seq::<T>::empty());
                assert(in_order(given) =~= seq![given.last()]);
            }
            assert(in_order(given) =~= given);
        }
        return items;
    }
    let mut front = items;
    let middle = front.len() / 2;
    let back = front.split_off(middle);
    proof {
        assert(front@ + back@ =~= given);
        lemma_merged_is_in_order(front@, back@);
        assert forall|i: int| 0 <= i < front@.len() implies (#[trigger] front@[i]).ready() by {
            assert(given[i].ready());
        }
        assert forall|i: int| 0 <= i < back@.len() implies (#[trigger] back@[i]).ready() by {
            assert(given[middle + i].ready());
        }
    }
    let first = rank(front);
    let second = rank(back);
    proof {
        lemma_in_order_ready(front@);
        lemma_in_order_ready(back@);
    }
    merge(first, second)
}

/// Items that are fit to be compared are so in whatever order.
pub proof fn lemma_in_order_ready<T: Comparable>(items: Seq<T>)
    requires
        all_ready(items),
    ensures
        all_ready(in_order(items)),
{
    broadcast use vstd::seq_lib::group_to_multiset_ensures;

    lemma_in_order(items);
    let out = in_order(items);
    assert forall|i: int| 0 <= i < out.len() implies (#[trigger] out[i]).ready() by {
        assert(out.to_multiset().count(out[i]) > 0);
        assert(items.contains(out[i]));
        let k = choose|k: int| 0 <= k < items.len() && items[k] == out[i];
        assert(items[k].ready());
    }
}

/// The items by descending weight; items of the same weight keep the order
/// they came in.
pub open spec fn by_weight<T: HasWeight>(items: Seq<T>) -> Seq<T> {
    in_order(items)
}

/// Nothing weighs more than something before it.
pub open spec fn weights_descend<T: HasWeight>(items: Seq<T>) -> bool {
    forall|i: int, j: int| 0 <= i < j < items.len() ==> items[i].weight() >= items[j].weight()
}

/// The test "weighs `w`".
pub open spec fn weighs<T: HasWeight>(w: nat) -> spec_fn(T) -> bool {
    |t: T| t.weight() == w
}

/// Ordering by weight gives descending weights, and neither adds nor drops
/// an item.
pub proof fn lemma_by_weight_descends<T: HasWeight>(items: Seq<T>)
    ensures
        weights_descend(by_weight(items)),
        by_weight(items).len() == items.len(),
        by_weight(items).to_multiset() == items.to_multiset(),
{
    lemma_in_order(items);
    let out = by_weight(items);
    assert forall|i: int, j: int| 0 <= i < j < out.len() implies out[i].weight()
        >= out[j].weight() by {
        assert(!out[j].before(&out[i]));
    }
}

/// Items of the same weight keep their order: for every weight, the items of
/// that weight come out in the order in which they came in.
pub proof fn lemma_by_weight_stable<T: HasWeight>(items: Seq<T>, w: nat)
    ensures
        by_weight(items).filter(weighs(w)) == items.filter(weighs(w)),
    decreases items.len(),
{
    if items.len() > 0 {
        let init = items.drop_last();
        assert(init.push(items.last()) =~= items);
        lemma_by_weight_stable(init, w);
        lemma_insert_by_weight_stable(in_order(init), items.last(), w);
        init.lemma_filter_push(items.last(), weighs(w));
    }
}

/// Putting an item in its place puts it behind the items of its weight, and
/// leaves the items of every weight in their order.
pub proof fn lemma_insert_by_weight_stable<T: HasWeight>(sorted: Seq<T>, x: T, w: nat)
    ensures
        insert_in_order(sorted, x).filter(weighs(w)) == if x.weight() == w {
            sorted.filter(weighs(w)).push(x)
        } else {
            sorted.filter(weighs(w))
        },
    decreases sorted.len(),
{
    let same = weighs::<T>(w);
    if sorted.len() == 0 {
        assert(seq![x] =~= sorted.push(x));
        sorted.lemma_filter_push(x, same);
    } else if x.before(&sorted.last()) {
        let init = sorted.drop_last();
        let last = sorted.last();
        assert(init.push(last) =~= sorted);
        lemma_insert_by_weight_stable(init, x, w);
        insert_in_order(init, x).lemma_filter_push(last, same);
        init.lemma_filter_push(last, same);
    } else {
        sorted.lemma_filter_push(x, same);
    }
}

/// The first `n` items, or all where there are fewer.
pub fn first_n<T>(items: Vec<T>, n: usize) -> (out: Vec<T>)
    ensures
        out@ == if n <= items.len() {
            items@.take(n as int)
        } else {
            items@
        },
{
    let mut out = items;
    if n < out.len() {
        out.truncate(n);
    }
    assert(out@ =~= if n <= items.len() {
        items@.take(n as int)
    } else {
        items@
    });
    out
}

} // verus!
