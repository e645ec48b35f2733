//! What holds of every scan.

use super::bounds::{law_totals_are_bounded, lemma_measure_same_items};
use super::classes::{
    class_keys, class_set, copies, is_hashed_group, is_reported, law_sets_are_class_sets,
    lemma_class_keys_are_reported, lemma_class_keys_distinct, lemma_sums_by_class, members_by,
    same_content, wasted_by, ClassKey,
};
use super::grouping::{buckets, distinct, has_key, is_shared};
use super::inventory::{distinct_paths, inventory, records, FileInfo, Record, WalkEvent};
use super::partition::size_key;
use super::plan::{are_candidates, attached, lemma_attached};
use super::report::{
    descending, first_member, lemma_ranked_descending, lemma_ranked_sums, ranked, ranks_before,
    sum_members, sum_wasted,
};
use super::scan::{all_sets, hashed_groups, needs_hash, scan, within_ceiling};
use super::seq_facts::{
    lemma_filter_agree, lemma_filter_index, lemma_filter_len_permutation, lemma_filter_same_len,
    lemma_filter_twice, lemma_filter_two_places, lemma_kept_images_permutation,
    lemma_two_places_filter,
};
use super::sets::{path_of, DupSet};
use crate::ranking::Ordered;
use crate::text::lemma_lex_less_total;
use vstd::prelude::*;

verus! {

/// `set` is the duplicate set of the digest `digest` in a scan of `files`:
/// its members are the paths of all files of its size with that digest, in
/// inventory order; there are two or more; the size is within the ceiling;
/// and the wasted space is the size times the number of members less one.
pub open spec fn is_set_of(files: Seq<Record>, ceiling: u64, set: DupSet, digest: Seq<char>) -> bool {
    &&& set.size <= ceiling
    &&& set.members == copies(files, set.size, digest).map_values(path_of())
    &&& set.members.len() >= 2
    &&& set.wasted == set.size * (set.members.len() - 1)
}

/// Every set that the size groups give is the duplicate set of some digest.
pub proof fn lemma_found_set_explained(files: Seq<Record>, ceiling: u64, k: int) -> (digest: Seq<
    char,
>)
    requires
        0 <= k < all_sets(files, ceiling).len(),
    ensures
        is_set_of(files, ceiling, all_sets(files, ceiling)[k], digest),
{
    law_sets_are_class_sets(files, ceiling);
    let class = class_keys(files, ceiling)[k];
    assert(class_keys(files, ceiling).contains(class));
    lemma_class_keys_are_reported(files, ceiling, class);
    assert(all_sets(files, ceiling)[k] == class_set(files, class));
    class.digest
}

/// Every set of the report is one of the sets that the size groups gave.
pub proof fn lemma_reported_set_found(files: Seq<Record>, ceiling: u64, k: int) -> (at: int)
    requires
        0 <= k < scan(files, ceiling).sets.len(),
    ensures
        0 <= at < all_sets(files, ceiling).len(),
        all_sets(files, ceiling)[at] == scan(files, ceiling).sets[k],
{
    broadcast use vstd::seq_lib::group_to_multiset_ensures;

    let all = all_sets(files, ceiling);
    let set = ranked(all)[k];
    lemma_ranked_descending(all);
    assert(ranked(all).to_multiset().count(set) > 0);
    assert(all.contains(set));
    choose|at: int| 0 <= at < all.len() && all[at] == set
}

/// In every duplicate set that a scan reports, all members have the same size
/// and the same digest: the set is made of the paths of all files of that size
/// and digest, two or more, of a size within the ceiling, and its wasted space
/// is its size times the number of its members less one.
pub proof fn law_sets_are_uniform(files: Seq<Record>, ceiling: u64, k: int)
    requires
        0 <= k < scan(files, ceiling).sets.len(),
    ensures
        exists|digest: Seq<char>| is_set_of(files, ceiling, scan(files, ceiling).sets[k], digest),
{
    let at = lemma_reported_set_found(files, ceiling, k);
    let digest = lemma_found_set_explained(files, ceiling, at);
    assert(is_set_of(files, ceiling, scan(files, ceiling).sets[k], digest));
}

/// The file behind a member of a reported set: a file of the inventory with
/// the member's path, the set's size, a digest, and a second file of the same
/// size beside it.
pub proof fn lemma_member_origin(files: Seq<Record>, ceiling: u64, k: int, m: int) -> (place: (
    int,
    int,
))
    requires
        0 <= k < scan(files, ceiling).sets.len(),
        0 <= m < scan(files, ceiling).sets[k].members.len(),
    ensures
        0 <= place.0 < files.len(),
        0 <= place.1 < files.len(),
        place.0 != place.1,
        files[place.0].path == scan(files, ceiling).sets[k].members[m],
        files[place.0].size == scan(files, ceiling).sets[k].size,
        files[place.1].size == files[place.0].size,
        files[place.1].digest == files[place.0].digest,
        files[place.0].digest is Some,
        files[place.0].size <= ceiling,
{
    let set = scan(files, ceiling).sets[k];
    let at = lemma_reported_set_found(files, ceiling, k);
    let digest = lemma_found_set_explained(files, ceiling, at);
    let same = same_content(set.size, digest);
    let found = copies(files, set.size, digest);
    assert(found.len() == set.members.len());
    let i = lemma_filter_index(files, same, m);
    let (a, b) = lemma_filter_two_places(files, same);
    if a == i {
        (i, b)
    } else {
        (i, a)
    }
}

/// A file whose size no other file of the inventory has is in no duplicate
/// set.
pub proof fn law_unique_size_not_reported(files: Seq<Record>, ceiling: u64, i: int, k: int)
    requires
        distinct_paths(files),
        0 <= i < files.len(),
        forall|j: int| 0 <= j < files.len() && j != i ==> files[j].size != files[i].size,
        0 <= k < scan(files, ceiling).sets.len(),
    ensures
        !scan(files, ceiling).sets[k].members.contains(files[i].path),
{
    let members = scan(files, ceiling).sets[k].members;
    if members.contains(files[i].path) {
        let m = choose|m: int| 0 <= m < members.len() && members[m] == files[i].path;
        let (a, b) = lemma_member_origin(files, ceiling, k, m);
        assert(a == i);
    }
}

/// A file larger than the ceiling is in no duplicate set, whatever other
/// files have its size.
pub proof fn law_over_ceiling_not_reported(files: Seq<Record>, ceiling: u64, i: int, k: int)
    requires
        distinct_paths(files),
        0 <= i < files.len(),
        files[i].size > ceiling,
        0 <= k < scan(files, ceiling).sets.len(),
    ensures
        !scan(files, ceiling).sets[k].members.contains(files[i].path),
{
    let members = scan(files, ceiling).sets[k].members;
    if members.contains(files[i].path) {
        let m = choose|m: int| 0 <= m < members.len() && members[m] == files[i].path;
        let (a, b) = lemma_member_origin(files, ceiling, k, m);
        assert(a == i);
    }
}

/// A file without a digest is in no duplicate set.
pub proof fn law_unhashed_not_reported(files: Seq<Record>, ceiling: u64, i: int, k: int)
    requires
        distinct_paths(files),
        0 <= i < files.len(),
        files[i].digest is None,
        0 <= k < scan(files, ceiling).sets.len(),
    ensures
        !scan(files, ceiling).sets[k].members.contains(files[i].path),
{
    let members = scan(files, ceiling).sets[k].members;
    if members.contains(files[i].path) {
        let m = choose|m: int| 0 <= m < members.len() && members[m] == files[i].path;
        let (a, b) = lemma_member_origin(files, ceiling, k, m);
        assert(a == i);
    }
}

/// Two files of the same size within the ceiling and of the same digest are
/// reported: the duplicate set of their size and digest is in the report.
pub proof fn law_shared_content_is_reported(files: Seq<Record>, ceiling: u64, i: int, j: int) -> (k:
    int)
    requires
        0 <= i < j < files.len(),
        files[i].size == files[j].size,
        files[i].size <= ceiling,
        files[i].digest is Some,
        files[i].digest == files[j].digest,
    ensures
        0 <= k < scan(files, ceiling).sets.len(),
        scan(files, ceiling).sets[k].size == files[i].size,
        is_set_of(files, ceiling, scan(files, ceiling).sets[k], files[i].digest->0),
{
    broadcast use vstd::seq_lib::group_to_multiset_ensures;

    let class = ClassKey { size: files[i].size, digest: files[i].digest->0 };
    lemma_two_places_filter(files, same_content(class.size, class.digest), i, j);
    lemma_class_keys_are_reported(files, ceiling, class);
    let classes = class_keys(files, ceiling);
    let at = choose|at: int| 0 <= at < classes.len() && classes[at] == class;
    law_sets_are_class_sets(files, ceiling);
    let all = all_sets(files, ceiling);
    let set = class_set(files, class);
    assert(all[at] == set);
    lemma_ranked_descending(all);
    assert(all.to_multiset().count(set) > 0);
    assert(ranked(all).contains(set));
    choose|k: int| 0 <= k < ranked(all).len() && ranked(all)[k] == set
}

/// Different reported classes have different duplicate sets, where no two
/// files of the inventory have the same path.
pub proof fn lemma_classes_have_own_sets(
    files: Seq<Record>,
    ceiling: u64,
    one: ClassKey,
    other: ClassKey,
)
    requires
        distinct_paths(files),
        is_reported(files, ceiling, one),
        is_reported(files, ceiling, other),
        one != other,
    ensures
        class_set(files, one) != class_set(files, other),
{
    if one.size == other.size {
        assert(one.digest != other.digest);
        let i = lemma_filter_index(files, same_content(one.size, one.digest), 0);
        let j = lemma_filter_index(files, same_content(other.size, other.digest), 0);
        assert(i != j);
        assert(class_set(files, one).members[0] == files[i].path);
        assert(class_set(files, other).members[0] == files[j].path);
    }
}

/// No two sets of a report are the same, where no two files of the inventory
/// have the same path.
pub proof fn lemma_sets_are_distinct(files: Seq<Record>, ceiling: u64)
    requires
        distinct_paths(files),
    ensures
        all_sets(files, ceiling).no_duplicates(),
        scan(files, ceiling).sets.no_duplicates(),
{
    let classes = class_keys(files, ceiling);
    let all = all_sets(files, ceiling);
    law_sets_are_class_sets(files, ceiling);
    lemma_class_keys_distinct(files, ceiling);
    assert forall|a: int, b: int| 0 <= a < all.len() && 0 <= b < all.len() && a != b implies all[a]
        != all[b] by {
        assert(classes.contains(classes[a]) && classes.contains(classes[b]));
        lemma_class_keys_are_reported(files, ceiling, classes[a]);
        lemma_class_keys_are_reported(files, ceiling, classes[b]);
        lemma_classes_have_own_sets(files, ceiling, classes[a], classes[b]);
    }
    lemma_ranked_descending(all);
    all.lemma_multiset_has_no_duplicates();
    ranked(all).lemma_multiset_has_no_duplicates_conv();
}

/// No file is in two duplicate sets of a report, where no two files of the
/// inventory have the same path.
pub proof fn law_no_file_in_two_sets(
    files: Seq<Record>,
    ceiling: u64,
    k: int,
    l: int,
    path: Seq<char>,
)
    requires
        distinct_paths(files),
        0 <= k < scan(files, ceiling).sets.len(),
        0 <= l < scan(files, ceiling).sets.len(),
        k != l,
    ensures
        !(scan(files, ceiling).sets[k].members.contains(path) && scan(
            files,
            ceiling,
        ).sets[l].members.contains(path)),
{
    let sets = scan(files, ceiling).sets;
    if sets[k].members.contains(path) && sets[l].members.contains(path) {
        lemma_sets_are_distinct(files, ceiling);
        let at_k = lemma_reported_set_found(files, ceiling, k);
        let at_l = lemma_reported_set_found(files, ceiling, l);
        let d_k = lemma_found_set_explained(files, ceiling, at_k);
        let d_l = lemma_found_set_explained(files, ceiling, at_l);
        let m_k = choose|m: int| 0 <= m < sets[k].members.len() && sets[k].members[m] == path;
        let m_l = choose|m: int| 0 <= m < sets[l].members.len() && sets[l].members[m] == path;
        let i = lemma_filter_index(files, same_content(sets[k].size, d_k), m_k);
        let j = lemma_filter_index(files, same_content(sets[l].size, d_l), m_l);
        assert(files[i].path == path && files[j].path == path);
        assert(i == j);
        assert(sets[k] == sets[l]);
    }
}

/// The files of a scan are those of the inventory: the same paths and sizes
/// in the same order, whatever digests were attached since.
pub open spec fn same_files(files: Seq<Record>, listed: Seq<Record>) -> bool {
    &&& files.len() == listed.len()
    &&& forall|i: int|
        0 <= i < files.len() ==> (#[trigger] files[i]).path == listed[i].path && files[i].size
            == listed[i].size
}

/// The path that an event reports, where it reports an entry.
pub open spec fn event_path(event: WalkEvent) -> Option<Seq<char>> {
    match event {
        WalkEvent::Entry { path, is_file, size } => Some(path@),
        WalkEvent::Unreadable { depth } => None,
    }
}

/// The size that an event reports, where it reports one.
pub open spec fn event_size(event: WalkEvent) -> Option<u64> {
    match event {
        WalkEvent::Entry { path, is_file, size } => size,
        WalkEvent::Unreadable { depth } => None,
    }
}

/// No two entries of a walk have the same path.
pub open spec fn distinct_entries(events: Seq<WalkEvent>) -> bool {
    forall|i: int, j: int|
        0 <= i < events.len() && 0 <= j < events.len() && i != j && event_path(
            #[trigger] events[i],
        ) is Some ==> event_path(events[i]) != event_path(#[trigger] events[j])
}

/// A file below the minimum size is in no duplicate set of a scan of the
/// inventory, whatever its content and that of the other files.
pub proof fn law_below_minimum_not_reported(
    events: Seq<WalkEvent>,
    min_size: u64,
    files: Seq<Record>,
    ceiling: u64,
    e: int,
    k: int,
)
    requires
        distinct_entries(events),
        same_files(files, inventory(events, Some(min_size))),
        0 <= e < events.len(),
        event_path(events[e]) is Some,
        event_size(events[e]) matches Some(bytes) ==> bytes < min_size,
        0 <= k < scan(files, ceiling).sets.len(),
    ensures
        !scan(files, ceiling).sets[k].members.contains(event_path(events[e])->0),
{
    let members = scan(files, ceiling).sets[k].members;
    let path = event_path(events[e])->0;
    if members.contains(path) {
        let m = choose|m: int| 0 <= m < members.len() && members[m] == path;
        let (a, b) = lemma_member_origin(files, ceiling, k, m);
        let admitted = super::inventory::admitted(Some(min_size));
        let kept = events.filter(admitted);
        let listed = inventory(events, Some(min_size));
        assert(listed[a].path == files[a].path);
        let at = lemma_filter_index(events, admitted, a);
        assert(event_path(events[at]) == Some(path));
        assert(at == e);
    }
}

/// The report rests on the digests of the files that are to be hashed, and on
/// no other digest: two inventories of the same files that agree on those
/// digests give the same report.
pub proof fn law_only_candidates_matter(first: Seq<Record>, second: Seq<Record>, ceiling: u64)
    requires
        same_files(first, second),
        forall|i: int|
            0 <= i < first.len() && #[trigger] needs_hash(first, ceiling, i) ==> first[i].digest
                == second[i].digest,
    ensures
        scan(first, ceiling) == scan(second, ceiling),
{
    let sizes = first.map_values(size_key());
    assert(sizes =~= second.map_values(size_key()));
    let a = buckets(first, size_key());
    let b = buckets(second, size_key());
    let hashed = is_hashed_group(ceiling);
    assert forall|g: int| 0 <= g < a.len() implies hashed(#[trigger] a[g]) == hashed(b[g]) && (
    hashed(a[g]) ==> a[g] == b[g]) by {
        let size = distinct(sizes)[g];
        let of_size = has_key(size_key(), size);
        lemma_filter_same_len(first, second, of_size);
        if hashed(a[g]) {
            assert forall|i: int| 0 <= i < first.len() && of_size(#[trigger] first[i]) implies first[i]
                == second[i] by {
                assert(needs_hash(first, ceiling, i));
            }
            lemma_filter_agree(first, second, of_size);
        }
    }
    lemma_filter_agree(a, b, hashed);
    lemma_filter_twice(a, is_shared(), within_ceiling(ceiling), hashed);
    lemma_filter_twice(b, is_shared(), within_ceiling(ceiling), hashed);
    assert(hashed_groups(first, ceiling) == hashed_groups(second, ceiling));
}

/// Hashing the candidates is enough: the report made from their digests
/// alone is the report that would be made if every file had been hashed.
/// `full` is the inventory with a digest for every file; where it agrees
/// with the digests that were attached, the reports are the same.
pub proof fn law_hashing_candidates_suffices(
    files: Seq<Record>,
    ceiling: u64,
    places: Seq<usize>,
    digests: Seq<Option<Seq<char>>>,
    full: Seq<Record>,
)
    requires
        files.len() <= usize::MAX,
        are_candidates(files, ceiling, places),
        digests.len() == places.len(),
        same_files(full, files),
        forall|k: int| 0 <= k < places.len() ==> (#[trigger] full[places[k] as int]).digest == digests[k],
    ensures
        scan(attached(files, places, digests), ceiling) == scan(full, ceiling),
{
    let partly = attached(files, places, digests);
    lemma_attached(files, places, digests);
    assert(same_files(partly, full));
    assert forall|i: int| 0 <= i < partly.len() && #[trigger] needs_hash(partly, ceiling, i) implies partly[i].digest
        == full[i].digest by {
        let of_size = has_key(size_key(), partly[i].size);
        lemma_filter_same_len(partly, files, of_size);
        assert(needs_hash(files, ceiling, i));
        assert(places.contains(i as usize));
        let k = choose|k: int| 0 <= k < places.len() && places[k] == i as usize;
        assert(partly[places[k] as int].digest == digests[k]);
    }
    law_only_candidates_matter(partly, full, ceiling);
}

/// The order of the inventory does not change the totals: two inventories of
/// the same files, in whatever order, give reports with the same wasted
/// space, the same number of files in duplicate sets, and the same number of
/// sets.
pub proof fn law_totals_ignore_order(first: Seq<Record>, second: Seq<Record>, ceiling: u64)
    requires
        first.to_multiset() == second.to_multiset(),
    ensures
        scan(first, ceiling).total_wasted == scan(second, ceiling).total_wasted,
        scan(first, ceiling).total_duplicate_files == scan(second, ceiling).total_duplicate_files,
        scan(first, ceiling).sets.len() == scan(second, ceiling).sets.len(),
{
    let one = class_keys(first, ceiling);
    let two = class_keys(second, ceiling);
    lemma_class_keys_distinct(first, ceiling);
    lemma_class_keys_distinct(second, ceiling);
    assert forall|class: ClassKey| #[trigger] one.contains(class) <==> two.contains(class) by {
        lemma_class_keys_are_reported(first, ceiling, class);
        lemma_class_keys_are_reported(second, ceiling, class);
        lemma_filter_len_permutation(first, second, same_content(class.size, class.digest));
    }
    assert forall|class: ClassKey| #[trigger] one.contains(class) implies wasted_by(first)(class)
        == wasted_by(second)(class) && members_by(first)(class) == members_by(second)(class) by {
        lemma_filter_len_permutation(first, second, same_content(class.size, class.digest));
    }
    lemma_measure_same_items(one, two, wasted_by(first), wasted_by(second));
    lemma_measure_same_items(one, two, members_by(first), members_by(second));
    law_sets_are_class_sets(first, ceiling);
    law_sets_are_class_sets(second, ceiling);
    lemma_sums_by_class(first, one);
    lemma_sums_by_class(second, two);
    lemma_ranked_sums(all_sets(first, ceiling));
    lemma_ranked_sums(all_sets(second, ceiling));
    lemma_ranked_descending(all_sets(first, ceiling));
    lemma_ranked_descending(all_sets(second, ceiling));
}

/// The order of the inventory does not change the sets: where two
/// inventories hold the same files, in whatever order, each set of one
/// report has its like in the other, a set of the same size and the same
/// wasted space with the same members.
pub proof fn law_sets_ignore_order(first: Seq<Record>, second: Seq<Record>, ceiling: u64, k: int) -> (l:
    int)
    requires
        first.to_multiset() == second.to_multiset(),
        0 <= k < scan(first, ceiling).sets.len(),
    ensures
        0 <= l < scan(second, ceiling).sets.len(),
        scan(second, ceiling).sets[l].size == scan(first, ceiling).sets[k].size,
        scan(second, ceiling).sets[l].wasted == scan(first, ceiling).sets[k].wasted,
        scan(second, ceiling).sets[l].members.to_multiset() == scan(
            first,
            ceiling,
        ).sets[k].members.to_multiset(),
{
    broadcast use vstd::seq_lib::group_to_multiset_ensures;

    let at = lemma_reported_set_found(first, ceiling, k);
    law_sets_are_class_sets(first, ceiling);
    law_sets_are_class_sets(second, ceiling);
    let class = class_keys(first, ceiling)[at];
    assert(class_keys(first, ceiling).contains(class));
    lemma_class_keys_are_reported(first, ceiling, class);
    lemma_class_keys_are_reported(second, ceiling, class);
    lemma_filter_len_permutation(first, second, same_content(class.size, class.digest));
    lemma_kept_images_permutation(
        first,
        second,
        same_content(class.size, class.digest),
        path_of(),
    );
    let classes = class_keys(second, ceiling);
    let there = choose|there: int| 0 <= there < classes.len() && classes[there] == class;
    let all = all_sets(second, ceiling);
    let set = class_set(second, class);
    assert(all[there] == set);
    lemma_ranked_descending(all);
    assert(all.to_multiset().count(set) > 0);
    assert(ranked(all).contains(set));
    choose|l: int| 0 <= l < ranked(all).len() && ranked(all)[l] == set
}

/// Two scans of the same inventory give the same report.
pub proof fn law_rescan_gives_same_report(first: Seq<FileInfo>, second: Seq<FileInfo>, ceiling: u64)
    requires
        records(first) == records(second),
    ensures
        scan(records(first), ceiling) == scan(records(second), ceiling),
{
}

/// A scan of no files reports nothing.
pub proof fn law_empty_inventory_reports_nothing(ceiling: u64)
    ensures
        scan(Seq::<Record>::empty(), ceiling).sets.len() == 0,
        scan(Seq::<Record>::empty(), ceiling).total_wasted == 0,
        scan(Seq::<Record>::empty(), ceiling).total_duplicate_files == 0,
{
    let none = Seq::<Record>::empty();
    law_totals_are_bounded(none, ceiling);
    law_no_shared_content_no_sets(none, ceiling);
}

/// Where no two files have both the same size and the same digest, nothing
/// is reported: that two files have the same size is not enough.
pub proof fn law_no_shared_content_no_sets(files: Seq<Record>, ceiling: u64)
    requires
        forall|i: int, j: int|
            0 <= i < j < files.len() && files[i].digest is Some ==> !(#[trigger] files[i].size
                == #[trigger] files[j].size && files[i].digest == files[j].digest),
    ensures
        scan(files, ceiling).sets.len() == 0,
        scan(files, ceiling).total_wasted == 0,
        scan(files, ceiling).total_duplicate_files == 0,
{
    if scan(files, ceiling).sets.len() > 0 {
        law_report_is_well_formed(files, ceiling);
        let (a, b) = lemma_member_origin(files, ceiling, 0, 0);
        if a < b {
            assert(files[a].size == files[b].size);
        } else {
            assert(files[b].size == files[a].size);
        }
    }
    assert(scan(files, ceiling).sets =~= Seq::<DupSet>::empty());
}

/// Every report is well formed: its sets come by descending wasted space, its
/// totals are those of its sets, and each set has two members or more and
/// wastes its size times the number of its members less one.
pub proof fn law_report_is_well_formed(files: Seq<Record>, ceiling: u64)
    ensures
        scan(files, ceiling).wf(),
        forall|k: int|
            0 <= k < scan(files, ceiling).sets.len() ==> (#[trigger] scan(files, ceiling).sets[k]).wf(),
{
    lemma_ranked_descending(all_sets(files, ceiling));
    assert forall|k: int| 0 <= k < scan(files, ceiling).sets.len() implies (#[trigger] scan(
        files,
        ceiling,
    ).sets[k]).wf() by {
        law_sets_are_uniform(files, ceiling, k);
    }
}

/// The order of a report is settled by its sets alone, where no two files of
/// the inventory have the same path: of any two sets the earlier one has to
/// stand before the later one, by wasted space, by size or by the path of
/// its first member.
pub proof fn law_report_order_is_strict(files: Seq<Record>, ceiling: u64, i: int, j: int)
    requires
        distinct_paths(files),
        0 <= i < j < scan(files, ceiling).sets.len(),
    ensures
        ranks_before(scan(files, ceiling).sets[i], scan(files, ceiling).sets[j]),
{
    let sets = scan(files, ceiling).sets;
    law_report_is_ranked(files, ceiling);
    law_report_is_well_formed(files, ceiling);
    assert(!ranks_before(sets[j], sets[i]));
    if !ranks_before(sets[i], sets[j]) {
        lemma_lex_less_total(first_member(sets[i]), first_member(sets[j]));
        let path = sets[i].members[0];
        assert(sets[i].wf() && sets[j].wf());
        assert(sets[i].members.contains(path));
        assert(sets[j].members[0] == path);
        assert(sets[j].members.contains(path));
        law_no_file_in_two_sets(files, ceiling, i, j, path);
    }
}

/// The report is ordered by descending wasted space, sets that waste the same
/// by ascending size, and sets of the same size by the path of their first
/// member; its sets are those that the size groups gave, and its totals are
/// theirs.
pub proof fn law_report_is_ranked(files: Seq<Record>, ceiling: u64)
    ensures
        descending(scan(files, ceiling).sets),
        forall|i: int, j: int|
            0 <= i < j < scan(files, ceiling).sets.len() ==> !ranks_before(
                #[trigger] scan(files, ceiling).sets[j],
                #[trigger] scan(files, ceiling).sets[i],
            ),
        scan(files, ceiling).sets.to_multiset() == all_sets(files, ceiling).to_multiset(),
        scan(files, ceiling).total_wasted == sum_wasted(scan(files, ceiling).sets),
        scan(files, ceiling).total_duplicate_files == sum_members(scan(files, ceiling).sets),
{
    lemma_ranked_descending(all_sets(files, ceiling));
    let sets = scan(files, ceiling).sets;
    assert forall|i: int, j: int| 0 <= i < j < sets.len() implies !ranks_before(
        #[trigger] sets[j],
        #[trigger] sets[i],
    ) by {
        assert(!sets[j].before(&sets[i]));
    }
}

} // verus!
