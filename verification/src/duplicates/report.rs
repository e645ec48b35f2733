//! Putting the duplicate sets in the order of a report and summing them up.

use super::sets::{set_view_of, set_views, DupSet, DuplicateGroup};
use crate::ranking::{
    in_order, insert_in_order, is_in_order, lemma_in_order, lemma_in_order_maps, rank, Comparable,
    Ordered,
};
use crate::text::{lemma_lex_less_laws, lex_less, string_views, text_less};
use vstd::prelude::*;

verus! {

/// The path of the first member of a set; the empty path where the set has
/// no member.
pub open spec fn first_member(set: DupSet) -> Seq<char> {
    if set.members.len() > 0 {
        set.members[0]
    } else {
        Seq::empty()
    }
}

/// Whether a set has to stand before another in a report: the set that
/// wastes more stands first; of two that waste the same, the set of the
/// smaller files; and of two that are the same in this too, the set whose
/// first member has the path that comes first in the order of strings.
pub open spec fn ranks_before(one: DupSet, other: DupSet) -> bool {
    if one.wasted != other.wasted {
        one.wasted > other.wasted
    } else if one.size != other.size {
        one.size < other.size
    } else {
        lex_less(first_member(one), first_member(other))
    }
}

impl Ordered for DupSet {
    /// Sets stand in the order of a report.
    open spec fn before(&self, other: &Self) -> bool {
        ranks_before(*self, *other)
    }

    proof fn order_laws(a: Self, b: Self, c: Self) {
        lemma_lex_less_laws(first_member(a), first_member(b), first_member(c));
    }
}

impl Ordered for DuplicateGroup {
    open spec fn before(&self, other: &Self) -> bool {
        ranks_before(self@, other@)
    }

    proof fn order_laws(a: Self, b: Self, c: Self) {
        DupSet::order_laws(a@, b@, c@);
    }
}

impl DuplicateGroup {
    /// The path of the first file of the set; the empty path where the set
    /// has no file.
    pub fn first_path(&self) -> (path: &str)
        ensures
            path@ == first_member(self@),
    {
        if self.files.len() > 0 {
            assert(string_views(self.files@)[0] == self.files[0]@);
            self.files[0].as_str()
        } else {
            proof {
                reveal_strlit("");
            }
            let none = "";
            assert(none@ =~= Seq::<char>::empty());
            none
        }
    }
}

impl Comparable for DuplicateGroup {
    open spec fn ready(&self) -> bool {
        true
    }

    fn stands_before(&self, other: &Self) -> (first: bool) {
        if self.total_wasted != other.total_wasted {
            self.total_wasted > other.total_wasted
        } else if self.size != other.size {
            self.size < other.size
        } else {
            text_less(self.first_path(), other.first_path())
        }
    }
}

/// The sets in the order of a report: by descending wasted space, sets that
/// waste the same by ascending size, and sets of the same size by the path
/// of their first member. Sets that are the same in all this keep the order
/// they came in.
pub open spec fn ranked(sets: Seq<DupSet>) -> Seq<DupSet> {
    in_order(sets)
}

/// No set wastes more than one before it.
pub open spec fn descending(sets: Seq<DupSet>) -> bool {
    forall|i: int, j: int| 0 <= i < j < sets.len() ==> sets[i].wasted >= sets[j].wasted
}

/// The wasted space of all sets together.
pub open spec fn sum_wasted(sets: Seq<DupSet>) -> nat
    decreases sets.len(),
{
    if sets.len() == 0 {
        0
    } else {
        sum_wasted(sets.drop_last()) + sets.last().wasted
    }
}

/// The number of files in all sets together.
pub open spec fn sum_members(sets: Seq<DupSet>) -> nat
    decreases sets.len(),
{
    if sets.len() == 0 {
        0
    } else {
        sum_members(sets.drop_last()) + sets.last().members.len()
    }
}

/// What a scan reports.
pub struct ScanModel {
    pub sets: Seq<DupSet>,
    pub total_wasted: nat,
    pub total_duplicate_files: nat,
}

/// The report of a scan: the duplicate sets by descending wasted space, the
/// space they waste together and the number of files in them.
#[derive(Debug)]
pub struct ScanResult {
    pub groups: Vec<DuplicateGroup>,
    pub total_wasted: u64,
    pub total_duplicate_files: usize,
}

impl View for ScanResult {
    type V = ScanModel;

    open spec fn view(&self) -> ScanModel {
        ScanModel {
            sets: set_views(self.groups@),
            total_wasted: self.total_wasted as nat,
            total_duplicate_files: self.total_duplicate_files as nat,
        }
    }
}

impl ScanModel {
    /// Both totals fit the integers that a report holds them in.
    pub open spec fn fits(self) -> bool {
        self.total_wasted <= u64::MAX && self.total_duplicate_files <= usize::MAX
    }

    /// The report is in order: no set wastes more than one before it, nor
    /// has to stand before one that stands before it; and the totals are
    /// those of the sets.
    pub open spec fn wf(self) -> bool {
        &&& descending(self.sets)
        &&& is_in_order(self.sets)
        &&& self.total_wasted == sum_wasted(self.sets)
        &&& self.total_duplicate_files == sum_members(self.sets)
    }
}

/// The report on a collection of duplicate sets.
pub open spec fn summary(sets: Seq<DupSet>) -> ScanModel {
    ScanModel {
        sets: ranked(sets),
        total_wasted: sum_wasted(ranked(sets)),
        total_duplicate_files: sum_members(ranked(sets)),
    }
}

/// Ranking puts the sets in the order of a report, by descending wasted
/// space before all else, and neither adds nor drops a set.
pub proof fn lemma_ranked_descending(sets: Seq<DupSet>)
    ensures
        descending(ranked(sets)),
        is_in_order(ranked(sets)),
        ranked(sets).len() == sets.len(),
        ranked(sets).to_multiset() == sets.to_multiset(),
{
    lemma_in_order(sets);
    let out = ranked(sets);
    assert forall|i: int, j: int| 0 <= i < j < out.len() implies out[i].wasted >= out[j].wasted by {
        assert(!out[j].before(&out[i]));
    }
}

/// Putting a set in its place adds its share to both totals.
pub proof fn lemma_insert_ranked_sums(sorted: Seq<DupSet>, x: DupSet)
    ensures
        sum_wasted(insert_in_order(sorted, x)) == sum_wasted(sorted) + x.wasted,
        sum_members(insert_in_order(sorted, x)) == sum_members(sorted) + x.members.len(),
    decreases sorted.len(),
{
    if sorted.len() == 0 {
        assert(seq![x].drop_last() =~= sorted);
    } else if !x.before(&sorted.last()) {
        assert(sorted.push(x).drop_last() =~= sorted);
    } else {
        let init = sorted.drop_last();
        lemma_insert_ranked_sums(init, x);
        assert(insert_in_order(init, x).push(sorted.last()).drop_last() =~= insert_in_order(
            init,
            x,
        ));
    }
}

/// Ranking changes neither total.
pub proof fn lemma_ranked_sums(sets: Seq<DupSet>)
    ensures
        sum_wasted(ranked(sets)) == sum_wasted(sets),
        sum_members(ranked(sets)) == sum_members(sets),
    decreases sets.len(),
{
    if sets.len() > 0 {
        lemma_ranked_sums(sets.drop_last());
        lemma_insert_ranked_sums(ranked(sets.drop_last()), sets.last());
    }
}

/// The totals of a prefix do not exceed those of the whole.
pub proof fn lemma_sums_grow(sets: Seq<DupSet>, n: int)
    requires
        0 <= n <= sets.len(),
    ensures
        sum_wasted(sets.take(n)) <= sum_wasted(sets),
        sum_members(sets.take(n)) <= sum_members(sets),
    decreases sets.len(),
{
    if n == sets.len() {
        assert(sets.take(n) =~= sets);
    } else {
        lemma_sums_grow(sets.drop_last(), n);
        assert(sets.drop_last().take(n) =~= sets.take(n));
    }
}

/// No set wastes more than all together.
pub proof fn lemma_sum_covers_each(sets: Seq<DupSet>, i: int)
    requires
        0 <= i < sets.len(),
    ensures
        sets[i].wasted <= sum_wasted(sets),
        sets[i].members.len() <= sum_members(sets),
{
    lemma_sums_grow(sets, i + 1);
    assert(sets.take(i + 1).drop_last() =~= sets.take(i));
    assert(sets.take(i + 1).last() == sets[i]);
}

/// Puts duplicate sets in the order of a report: by descending wasted space,
/// sets that waste the same by ascending size, and sets of the same size by
/// the path of their first file.
pub fn rank_by_wasted(sets: Vec<DuplicateGroup>) -> (out: Vec<DuplicateGroup>)
    ensures
        set_views(out@) == ranked(set_views(sets@)),
{
    let out = rank(sets);
    proof {
        lemma_in_order_maps(sets@, set_view_of());
    }
    out
}

/// Ranks the duplicate sets and sums them up. The result is `None` only where
/// a total does not fit its integer.
pub fn aggregate(sets: Vec<DuplicateGroup>) -> (report: Option<ScanResult>)
    ensures
        match report {
            Some(report) => report@ == summary(set_views(sets@)),
            None => !summary(set_views(sets@)).fits(),
        },
{
    let groups = rank_by_wasted(sets);
    let ghost all = set_views(groups@);
    let mut total_wasted: u64 = 0;
    let mut total_duplicate_files: usize = 0;
    let mut i: usize = 0;
    proof {
        assert(all.take(0) =~= Seq::<DupSet>::empty());
    }
    while i < groups.len()
        invariant
            i <= groups.len(),
            all == set_views(groups@),
            all == ranked(set_views(sets@)),
            total_wasted == sum_wasted(all.take(i as int)),
            total_duplicate_files == sum_members(all.take(i as int)),
        decreases groups.len() - i,
    {
        proof {
            assert(all.take(i as int + 1).drop_last() =~= all.take(i as int));
            assert(all.take(i as int + 1).last() == groups[i as int]@);
            assert(groups[i as int]@.members.len() == groups[i as int].files.len());
            lemma_sums_grow(all, i as int + 1);
        }
        match total_wasted.checked_add(groups[i].total_wasted) {
            Some(sum) => {
                total_wasted = sum;
            },
            None => {
                return None;
            },
        }
        match total_duplicate_files.checked_add(groups[i].files.len()) {
            Some(sum) => {
                total_duplicate_files = sum;
            },
            None => {
                return None;
            },
        }
        i += 1;
    }
    proof {
        assert(all.take(i as int) =~= all);
    }
    Some(ScanResult { groups, total_wasted, total_duplicate_files })
}

} // verus!
