//! Counting things by a label: how many there are of each label and how many
//! bytes they hold, the labels in the order in which they first occur.

use crate::ranking::{HasWeight, Weighted};
use vstd::prelude::*;

verus! {

/// The count of one label.
pub struct Count {
    pub label: Seq<char>,
    pub count: u64,
    pub bytes: u64,
}

/// The count of one label: how many things have it and how many bytes they
/// hold together. Both numbers stop at the largest that 64 bits hold.
#[derive(Debug, Clone)]
pub struct TallyEntry {
    pub label: String,
    pub count: u64,
    pub bytes: u64,
}

impl View for TallyEntry {
    type V = Count;

    open spec fn view(&self) -> Count {
        Count { label: self.label@, count: self.count, bytes: self.bytes }
    }
}

impl HasWeight for TallyEntry {
    /// Entries are ordered by their count.
    open spec fn weight(&self) -> nat {
        self.count as nat
    }
}

impl Weighted for TallyEntry {
    fn weigh(&self) -> (w: u64) {
        self.count
    }
}

/// Taking each entry for its view.
pub open spec fn count_of() -> spec_fn(TallyEntry) -> Count {
    |e: TallyEntry| e@
}

/// The views of a list of entries.
pub open spec fn counts(entries: Seq<TallyEntry>) -> Seq<Count> {
    entries.map_values(count_of())
}

/// A sum that stops at the largest number that 64 bits hold.
pub open spec fn capped_sum(a: u64, b: u64) -> u64 {
    if a + b > u64::MAX {
        u64::MAX
    } else {
        (a + b) as u64
    }
}

/// The place of the count of `label`, if there is one.
pub open spec fn place_of(table: Seq<Count>, label: Seq<char>) -> Option<int>
    decreases table.len(),
{
    if table.len() == 0 {
        None
    } else {
        match place_of(table.drop_last(), label) {
            Some(i) => Some(i),
            None => if table.last().label == label {
                Some(table.len() - 1)
            } else {
                None
            },
        }
    }
}

/// The table after one more thing of `label` with `bytes` bytes was counted:
/// the count of the label goes up by one and its bytes by `bytes`; a label
/// that was not there gets a count of its own behind the others.
pub open spec fn counted(table: Seq<Count>, label: Seq<char>, bytes: u64) -> Seq<Count> {
    match place_of(table, label) {
        Some(i) => table.update(
            i,
            Count {
                label,
                count: capped_sum(table[i].count, 1),
                bytes: capped_sum(table[i].bytes, bytes),
            },
        ),
        None => table.push(Count { label, count: 1, bytes }),
    }
}

/// The table of a run of things, each given by its label and its bytes.
pub open spec fn tally_of(things: Seq<(Seq<char>, u64)>) -> Seq<Count>
    decreases things.len(),
{
    if things.len() == 0 {
        Seq::empty()
    } else {
        counted(tally_of(things.drop_last()), things.last().0, things.last().1)
    }
}

/// No label has two counts.
pub open spec fn distinct_labels(table: Seq<Count>) -> bool {
    forall|i: int, j: int|
        0 <= i < table.len() && 0 <= j < table.len() && i != j ==> (#[trigger] table[i]).label != (
        #[trigger] table[j]).label
}

/// The place of a label is a place where the label stands, and the first
/// such; no place means that the label stands nowhere.
pub proof fn lemma_place_of(table: Seq<Count>, label: Seq<char>)
    ensures
        match place_of(table, label) {
            Some(i) => 0 <= i < table.len() && table[i].label == label && forall|j: int|
                0 <= j < i ==> (#[trigger] table[j]).label != label,
            None => forall|j: int| 0 <= j < table.len() ==> (#[trigger] table[j]).label != label,
        },
    decreases table.len(),
{
    if table.len() > 0 {
        lemma_place_of(table.drop_last(), label);
        match place_of(table.drop_last(), label) {
            Some(i) => {
                assert(table.drop_last()[i] == table[i]);
                assert forall|j: int| 0 <= j < i implies (#[trigger] table[j]).label != label by {
                    assert(table.drop_last()[j] == table[j]);
                }
            },
            None => {
                assert forall|j: int| 0 <= j < table.len() - 1 implies (#[trigger] table[j]).label
                    != label by {
                    assert(table.drop_last()[j] == table[j]);
                }
            },
        }
    }
}

/// Counting keeps the labels distinct.
pub proof fn lemma_counted_distinct(table: Seq<Count>, label: Seq<char>, bytes: u64)
    requires
        distinct_labels(table),
    ensures
        distinct_labels(counted(table, label, bytes)),
{
    lemma_place_of(table, label);
}

/// In the table of any run of things, no label has two counts.
pub proof fn law_tally_labels_distinct(things: Seq<(Seq<char>, u64)>)
    ensures
        distinct_labels(tally_of(things)),
    decreases things.len(),
{
    if things.len() > 0 {
        law_tally_labels_distinct(things.drop_last());
        lemma_counted_distinct(tally_of(things.drop_last()), things.last().0, things.last().1);
    }
}

/// A table of counts by label.
#[derive(Debug)]
pub struct Tally {
    pub entries: Vec<TallyEntry>,
}

impl View for Tally {
    type V = Seq<Count>;

    open spec fn view(&self) -> Seq<Count> {
        counts(self.entries@)
    }
}

impl Tally {
    /// A table without counts.
    pub fn new() -> (tally: Tally)
        ensures
            tally@ == Seq::<Count>::empty(),
    {
        let tally = Tally { entries: Vec::new() };
        assert(tally@ =~= Seq::<Count>::empty());
        tally
    }

    /// The place of the count of `label`, if there is one.
    pub fn find(&self, label: &String) -> (place: Option<usize>)
        ensures
            match place {
                Some(i) => i < self.entries.len() && place_of(self@, label@) == Some(i as int),
                None => place_of(self@, label@) is None,
            },
    {
        let ghost table = self@;
        let mut i: usize = 0;
        proof {
            assert(table.take(0) =~= Seq::<Count>::empty());
        }
        while i < self.entries.len()
            invariant
                i <= self.entries.len(),
                table == self@,
                place_of(table.take(i as int), label@) is None,
            decreases self.entries.len() - i,
        {
            proof {
                assert(table.take(i as int + 1).drop_last() =~= table.take(i as int));
                assert(table.take(i as int + 1).last() == self.entries[i as int]@);
            }
            if self.entries[i].label == *label {
                proof {
                    lemma_place_grows(table, label@, i as int + 1);
                }
                return Some(i);
            }
            i += 1;
        }
        proof {
            assert(table.take(i as int) =~= table);
        }
        None
    }

    /// Counts one more thing of `label` with `bytes` bytes.
    pub fn add(&mut self, label: String, bytes: u64)
        ensures
            final(self)@ == counted(old(self)@, label@, bytes),
    {
        let ghost before = self.entries@;
        match self.find(&label) {
            Some(i) => {
                let count = self.entries[i].count.saturating_add(1);
                let total = self.entries[i].bytes.saturating_add(bytes);
                self.entries[i].count = count;
                self.entries[i].bytes = total;
                proof {
                    lemma_place_of(counts(before), label@);
                    assert(self@ =~= counted(counts(before), label@, bytes));
                }
            },
            None => {
                let entry = TallyEntry { label, count: 1, bytes };
                self.entries.push(entry);
                proof {
                    before.lemma_push_map_commute(count_of(), entry);
                }
            },
        }
    }
}

/// A place found in the first entries of a table is the place in the whole
/// table.
pub proof fn lemma_place_grows(table: Seq<Count>, label: Seq<char>, n: int)
    requires
        0 <= n <= table.len(),
        place_of(table.take(n), label) is Some,
    ensures
        place_of(table, label) == place_of(table.take(n), label),
    decreases table.len(),
{
    if n == table.len() {
        assert(table.take(n) =~= table);
    } else {
        assert(table.drop_last().take(n) =~= table.take(n));
        lemma_place_grows(table.drop_last(), label, n);
    }
}

} // verus!
