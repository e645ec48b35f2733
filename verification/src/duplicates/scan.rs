//! The scan as a whole: from an inventory to the report.

use super::bounds::{inventory_bytes, law_totals_are_bounded};
use super::grouping::{has_key, lemma_matching_push, matching, Bucket};
use super::inventory::{records, FileInfo, Record};
use super::laws::law_report_is_well_formed;
use super::partition::{
    group_view_of, group_views, partition_by_size, size_groups, size_key, SizeGroup,
};
use super::report::{
    aggregate, lemma_ranked_sums, lemma_sum_covers_each, summary, ScanModel, ScanResult,
};
use super::sets::{
    duplicate_sets, partition_by_digest, set_views, sets_fit, DupSet, DuplicateGroup,
};
use std::collections::HashMap;
use vstd::prelude::*;
use vstd::seq_lib::lemma_flatten_concat;

verus! {

/// The test that the files of a size group are small enough to be hashed.
pub open spec fn within_ceiling(ceiling: u64) -> spec_fn(Bucket<u64, Record>) -> bool {
    |g: Bucket<u64, Record>| g.key <= ceiling
}

/// The test that the files of a size group are too large to be hashed.
pub open spec fn over_ceiling(ceiling: u64) -> spec_fn(Bucket<u64, Record>) -> bool {
    |g: Bucket<u64, Record>| g.key > ceiling
}

/// Taking each size group for its duplicate sets.
pub open spec fn sets_in() -> spec_fn(Bucket<u64, Record>) -> Seq<DupSet> {
    |g: Bucket<u64, Record>| duplicate_sets(g)
}

/// The duplicate sets of a list of size groups: those of the first group,
/// then those of the second, and so on.
pub open spec fn sets_of_groups(groups: Seq<Bucket<u64, Record>>) -> Seq<DupSet> {
    groups.map_values(sets_in()).flatten()
}

/// The size groups whose files are hashed: those of a size up to the ceiling.
pub open spec fn hashed_groups(files: Seq<Record>, ceiling: u64) -> Seq<Bucket<u64, Record>> {
    size_groups(files).filter(within_ceiling(ceiling))
}

/// All duplicate sets of an inventory, before they are ranked.
pub open spec fn all_sets(files: Seq<Record>, ceiling: u64) -> Seq<DupSet> {
    sets_of_groups(hashed_groups(files, ceiling))
}

/// What a scan of an inventory reports.
pub open spec fn scan(files: Seq<Record>, ceiling: u64) -> ScanModel {
    summary(all_sets(files, ceiling))
}

/// Whether the file at place `i` of the inventory is to be hashed: it is not
/// larger than the ceiling, and another file has its size.
pub open spec fn needs_hash(files: Seq<Record>, ceiling: u64, i: int) -> bool {
    files[i].size <= ceiling && count_of_size(files, files[i].size) >= 2
}

/// The number of files of size `s` in an inventory.
pub open spec fn count_of_size(files: Seq<Record>, s: u64) -> nat {
    matching(files, size_key(), s).len()
}

/// The number that a table of counts holds for the size `s`; zero where it
/// holds none.
pub open spec fn count_in(counts: Map<u64, usize>, s: u64) -> nat {
    if counts.contains_key(s) {
        counts[s] as nat
    } else {
        0
    }
}

/// The number of files of each size.
fn count_sizes(files: &Vec<FileInfo>) -> (counts: HashMap<u64, usize>)
    ensures
        forall|s: u64| #[trigger] count_of_size(records(files@), s) == count_in(counts@, s),
{
    broadcast use vstd::std_specs::hash::group_hash_axioms;

    let ghost recs = records(files@);
    let mut counts: HashMap<u64, usize> = HashMap::new();
    let mut i: usize = 0;
    proof {
        assert(recs.take(0) =~= Seq::<Record>::empty());
        assert forall|s: u64| #[trigger] count_of_size(recs.take(0), s) == count_in(counts@, s) by {
            recs.take(0).lemma_filter_len(has_key(size_key(), s));
        }
    }
    while i < files.len()
        invariant
            i <= files.len(),
            recs == records(files@),
            forall|s: u64| #[trigger] count_of_size(recs.take(i as int), s) == count_in(counts@, s),
        decreases files.len() - i,
    {
        let size = files[i].size;
        let ghost seen = recs.take(i as int);
        let ghost before = counts@;
        proof {
            assert(recs.take(i as int + 1) =~= seen.push(recs[i as int]));
            assert(recs[i as int].size == size);
            seen.lemma_filter_len(has_key(size_key(), size));
            assert(count_of_size(seen, size) == count_in(before, size));
        }
        let known = match counts.get(&size) {
            Some(n) => *n,
            None => 0,
        };
        assert(known == count_of_size(seen, size));
        counts.insert(size, known + 1);
        proof {
            assert forall|s: u64| #[trigger]
                count_of_size(recs.take(i as int + 1), s) == count_in(counts@, s) by {
                lemma_matching_push(seen, size_key(), recs[i as int], s);
                assert(count_of_size(seen, s) == count_in(before, s));
            }
        }
        i += 1;
    }
    proof {
        assert(recs.take(i as int) =~= recs);
    }
    counts
}

/// The places in the inventory of the files that are to be hashed, in
/// ascending order: every file that is not larger than `max_size` and whose
/// size another file has. A file of exactly `max_size` bytes is among them;
/// a larger one never is.
pub fn hash_candidates(files: &Vec<FileInfo>, max_size: u64) -> (places: Vec<usize>)
    ensures
        forall|k: int|
            0 <= k < places.len() ==> (#[trigger] places[k]) < files.len() && needs_hash(
                records(files@),
                max_size,
                places[k] as int,
            ),
        forall|i: int|
            0 <= i < files.len() && #[trigger] needs_hash(records(files@), max_size, i)
                ==> places@.contains(i as usize),
        forall|a: int, b: int| 0 <= a < b < places.len() ==> places[a] < places[b],
{
    broadcast use vstd::std_specs::hash::group_hash_axioms;

    let ghost recs = records(files@);
    let counts = count_sizes(files);
    let mut places: Vec<usize> = Vec::new();
    let mut i: usize = 0;
    while i < files.len()
        invariant
            i <= files.len(),
            recs == records(files@),
            forall|s: u64| #[trigger] count_of_size(recs, s) == count_in(counts@, s),
            forall|k: int|
                0 <= k < places.len() ==> (#[trigger] places[k]) < i && needs_hash(
                    recs,
                    max_size,
                    places[k] as int,
                ),
            forall|j: int|
                0 <= j < i && #[trigger] needs_hash(recs, max_size, j) ==> places@.contains(
                    j as usize,
                ),
            forall|a: int, b: int| 0 <= a < b < places.len() ==> places[a] < places[b],
        decreases files.len() - i,
    {
        let size = files[i].size;
        let ghost before = places@;
        proof {
            assert(recs[i as int].size == size);
            assert(count_of_size(recs, size) == count_in(counts@, size));
        }
        let shared = match counts.get(&size) {
            Some(n) => *n >= 2,
            None => false,
        };
        assert((size <= max_size && shared) == needs_hash(recs, max_size, i as int));
        if size <= max_size && shared {
            places.push(i);
            assert(places@[before.len() as int] == i);
        }
        proof {
            assert forall|j: int|
                0 <= j < i + 1 && #[trigger] needs_hash(recs, max_size, j) implies places@.contains(
                j as usize,
            ) by {
                if j < i {
                    assert(before.contains(j as usize));
                    let k = choose|k: int| 0 <= k < before.len() && before[k] == j as usize;
                    assert(places@[k] == j as usize);
                } else {
                    assert(places@[before.len() as int] == j as usize);
                }
            }
        }
        i += 1;
    }
    places
}

/// Parts the size groups at the ceiling: first those whose files are to be
/// hashed, a size of exactly `max_size` among them, then those that are
/// skipped as too large. Each part keeps the order of the groups.
pub fn split_by_ceiling(groups: Vec<SizeGroup>, max_size: u64) -> (parts: (
    Vec<SizeGroup>,
    Vec<SizeGroup>,
))
    ensures
        group_views(parts.0@) == group_views(groups@).filter(within_ceiling(max_size)),
        group_views(parts.1@) == group_views(groups@).filter(over_ceiling(max_size)),
{
    let ghost given = groups@;
    let mut hashed: Vec<SizeGroup> = Vec::new();
    let mut skipped: Vec<SizeGroup> = Vec::new();
    proof {
        let none = group_views(given.take(0));
        assert(none =~= Seq::<Bucket<u64, Record>>::empty());
        assert(none.filter(within_ceiling(max_size)) =~= Seq::<Bucket<u64, Record>>::empty()
            && none.filter(over_ceiling(max_size)) =~= Seq::<Bucket<u64, Record>>::empty()) by {
            reveal(Seq::filter);
        }
        assert(group_views(hashed@) =~= none.filter(within_ceiling(max_size)));
        assert(group_views(skipped@) =~= none.filter(over_ceiling(max_size)));
    }
    for group in it: groups.into_iter()
        invariant
            it.seq() == given,
            group_views(hashed@) == group_views(given.take(it.index() as int)).filter(
                within_ceiling(max_size),
            ),
            group_views(skipped@) == group_views(given.take(it.index() as int)).filter(
                over_ceiling(max_size),
            ),
    {
        proof {
            let seen = given.take(it.index() as int);
            assert(given.take(it.index() as int + 1) =~= seen.push(group));
            seen.lemma_push_map_commute(group_view_of(), group);
            group_views(seen).lemma_filter_push(group@, within_ceiling(max_size));
            group_views(seen).lemma_filter_push(group@, over_ceiling(max_size));
        }
        if group.size <= max_size {
            let ghost before = hashed@;
            hashed.push(group);
            proof {
                before.lemma_push_map_commute(group_view_of(), group);
            }
        } else {
            let ghost before = skipped@;
            skipped.push(group);
            proof {
                before.lemma_push_map_commute(group_view_of(), group);
            }
        }
    }
    proof {
        assert(given.take(given.len() as int) =~= given);
    }
    (hashed, skipped)
}

/// Every set of one of the groups is among the sets of all groups.
pub proof fn lemma_sets_of_groups_cover(groups: Seq<Bucket<u64, Record>>, g: int, k: int)
    requires
        0 <= g < groups.len(),
        0 <= k < duplicate_sets(groups[g]).len(),
    ensures
        sets_of_groups(groups.take(g)).len() + k < sets_of_groups(groups).len(),
        sets_of_groups(groups)[sets_of_groups(groups.take(g)).len() + k] == duplicate_sets(
            groups[g],
        )[k],
{
    let head = groups.take(g);
    let tail = groups.skip(g + 1);
    let lists = groups.map_values(sets_in());
    assert(lists =~= head.map_values(sets_in()).push(duplicate_sets(groups[g])) + tail.map_values(
        sets_in(),
    ));
    lemma_flatten_concat(
        head.map_values(sets_in()).push(duplicate_sets(groups[g])),
        tail.map_values(sets_in()),
    );
    head.map_values(sets_in()).lemma_flatten_push(duplicate_sets(groups[g]));
}

/// Finds the duplicate sets of each size group in turn. The result is `None`
/// only where the wasted space of some set does not fit in 64 bits.
pub fn collect_duplicate_sets(groups: Vec<SizeGroup>) -> (sets: Option<Vec<DuplicateGroup>>)
    ensures
        match sets {
            Some(sets) => set_views(sets@) == sets_of_groups(group_views(groups@)),
            None => !sets_fit(sets_of_groups(group_views(groups@))),
        },
{
    let ghost given = groups@;
    let ghost model = group_views(given);
    let mut sets: Vec<DuplicateGroup> = Vec::new();
    proof {
        assert(model.take(0).map_values(sets_in()) =~= Seq::<Seq<DupSet>>::empty());
        assert(set_views(sets@) =~= sets_of_groups(model.take(0)));
    }
    for group in it: groups.into_iter()
        invariant
            it.seq() == given,
            model == group_views(given),
            set_views(sets@) == sets_of_groups(model.take(it.index() as int)),
    {
        let ghost i = it.index() as int;
        proof {
            assert(model.take(i + 1) =~= model.take(i).push(group@));
            model.take(i).lemma_push_map_commute(sets_in(), group@);
            model.take(i).map_values(sets_in()).lemma_flatten_push(duplicate_sets(group@));
        }
        match partition_by_digest(group) {
            Some(mut found) => {
                let ghost before = sets@;
                let ghost added = found@;
                sets.append(&mut found);
                proof {
                    assert(set_views(before + added) =~= set_views(before) + set_views(added));
                }
            },
            None => {
                proof {
                    let local = duplicate_sets(model[i]);
                    let k = choose|k: int| 0 <= k < local.len() && local[k].wasted > u64::MAX;
                    lemma_sets_of_groups_cover(model, i, k);
                }
                return None;
            },
        }
    }
    proof {
        assert(model.take(model.len() as int) =~= model);
    }
    Some(sets)
}

/// Scans an inventory for duplicate files.
///
/// Files are grouped by size; a size that only one file has is dropped. The
/// groups of a size above `max_size` are skipped. Within each other group the
/// files are grouped by digest, files without a digest taking no part, and
/// every digest that two files or more have gives a duplicate set. The sets
/// are reported by descending wasted space together with their totals.
///
/// The result is `None` only where a total does not fit its integer, which
/// cannot be where the sizes of all files together fit in 64 bits.
pub fn find_duplicates(files: Vec<FileInfo>, max_size: u64) -> (report: Option<ScanResult>)
    ensures
        match report {
            Some(report) => report@ == scan(records(files@), max_size),
            None => !scan(records(files@), max_size).fits(),
        },
        inventory_bytes(records(files@)) <= u64::MAX ==> report is Some,
        report matches Some(report) ==> report@.wf() && forall|k: int|
            0 <= k < report@.sets.len() ==> (#[trigger] report@.sets[k]).wf(),
{
    let count = files.len();
    proof {
        law_totals_are_bounded(records(files@), max_size);
        law_report_is_well_formed(records(files@), max_size);
        assert(records(files@).len() == count);
    }
    let groups = partition_by_size(files);
    let (hashed, _skipped) = split_by_ceiling(groups, max_size);
    match collect_duplicate_sets(hashed) {
        Some(sets) => aggregate(sets),
        None => {
            proof {
                let all = all_sets(records(files@), max_size);
                let k = choose|k: int| 0 <= k < all.len() && all[k].wasted > u64::MAX;
                lemma_sum_covers_each(all, k);
                lemma_ranked_sums(all);
            }
            None
        },
    }
}

} // verus!
