use ferret::digest::hash_bytes;
use ferret::duplicates::{
    aggregate, collect_duplicate_sets, collect_inventory, find_duplicates, inventory_size,
    partition_by_digest, partition_by_size, passes_minimum, rank_by_wasted, split_by_ceiling,
    walk_depth, DuplicateGroup, FileInfo, HashPlan, ScanError, ScanResult, SizeGroup, WalkEvent,
};

const GIB: u64 = 1024 * 1024 * 1024;

fn hashed(path: &str, content: &[u8]) -> FileInfo {
    FileInfo { path: path.to_string(), size: content.len() as u64, hash: Some(hash_bytes(content)) }
}

fn sized(path: &str, size: u64, digest: Option<&str>) -> FileInfo {
    FileInfo { path: path.to_string(), size, hash: digest.map(|d| d.to_string()) }
}

fn found(path: &str, size: u64) -> WalkEvent {
    WalkEvent::Entry { path: path.to_string(), is_file: true, size: Some(size) }
}

/// Scans a directory whose files are given with their contents: the files
/// that the plan names are hashed, and no others.
fn scan_contents(contents: &[(&str, &[u8])], min_size: Option<u64>, ceiling: u64) -> ScanResult {
    let events: Vec<WalkEvent> =
        contents.iter().map(|(p, c)| found(p, c.len() as u64)).collect();
    let inventory = collect_inventory(events, min_size).unwrap();
    let plan = HashPlan::new(inventory, ceiling);
    let digests: Vec<Option<String>> = plan
        .targets()
        .iter()
        .map(|path| {
            let content = contents.iter().find(|(p, _)| p == path).unwrap().1;
            Some(hash_bytes(content))
        })
        .collect();
    plan.finish(digests).unwrap()
}

/// The same scan, stage by stage.
fn scan_in_stages(contents: &[(&str, &[u8])], min_size: Option<u64>, ceiling: u64) -> ScanResult {
    let events: Vec<WalkEvent> =
        contents.iter().map(|(p, c)| found(p, c.len() as u64)).collect();
    let inventory = collect_inventory(events, min_size).unwrap();
    let groups = partition_by_size(inventory);
    let (mut to_hash, _skipped) = split_by_ceiling(groups, ceiling);
    for group in to_hash.iter_mut() {
        for file in group.files.iter_mut() {
            let content = contents.iter().find(|(p, _)| *p == file.path).unwrap().1;
            file.hash = Some(hash_bytes(content));
        }
    }
    aggregate(collect_duplicate_sets(to_hash).unwrap()).unwrap()
}

#[test]
fn two_of_three_files_share_content() {
    let report = scan_contents(
        &[("a.txt", b"hello"), ("b.txt", b"hello"), ("c.txt", b"world")],
        None,
        GIB,
    );
    assert_eq!(report.groups.len(), 1);
    assert_eq!(report.groups[0].size, 5);
    assert_eq!(report.groups[0].files, vec!["a.txt".to_string(), "b.txt".to_string()]);
    assert_eq!(report.groups[0].total_wasted, 5);
    assert_eq!(report.total_wasted, 5);
    assert_eq!(report.total_duplicate_files, 2);
}

#[test]
fn three_identical_files() {
    let report = scan_contents(
        &[("x", b"0123456789"), ("y", b"0123456789"), ("z", b"0123456789")],
        None,
        GIB,
    );
    assert_eq!(report.groups.len(), 1);
    assert_eq!(report.groups[0].files.len(), 3);
    assert_eq!(report.groups[0].total_wasted, 20);
    assert_eq!(report.total_wasted, 20);
    assert_eq!(report.total_duplicate_files, 3);
}

#[test]
fn empty_directory() {
    let report = scan_contents(&[], None, GIB);
    assert_eq!(report.groups.len(), 0);
    assert_eq!(report.total_wasted, 0);
    assert_eq!(report.total_duplicate_files, 0);
    let direct = find_duplicates(Vec::new(), GIB).unwrap();
    assert!(direct.groups.is_empty());
    assert_eq!(direct.total_wasted, 0);
}

#[test]
fn same_size_but_different_content() {
    let report = scan_contents(&[("one", b"abcd"), ("two", b"abce")], None, GIB);
    assert_eq!(report.groups.len(), 0);
    assert_eq!(report.total_wasted, 0);
}

#[test]
fn unique_sizes_are_never_reported() {
    let files = vec![
        hashed("a", b"same"),
        hashed("b", b"same"),
        hashed("lonely", b"unique size"),
    ];
    let report = find_duplicates(files, GIB).unwrap();
    assert_eq!(report.groups.len(), 1);
    assert!(report.groups.iter().all(|g| !g.files.contains(&"lonely".to_string())));
    let groups = partition_by_size(vec![sized("p", 1, None), sized("q", 2, None)]);
    assert!(groups.is_empty());
}

#[test]
fn ceiling_is_inclusive() {
    let files = vec![
        sized("at-1", 100, Some("d1")),
        sized("at-2", 100, Some("d1")),
        sized("over-1", 101, Some("d2")),
        sized("over-2", 101, Some("d2")),
    ];
    let groups = partition_by_size(files);
    let (to_hash, skipped) = split_by_ceiling(groups, 100);
    assert_eq!(to_hash.len(), 1);
    assert_eq!(to_hash[0].size, 100);
    assert_eq!(skipped.len(), 1);
    assert_eq!(skipped[0].size, 101);
    assert_eq!(skipped[0].files.len(), 2);

    let files = vec![
        sized("at-1", 100, Some("d1")),
        sized("at-2", 100, Some("d1")),
        sized("over-1", 101, Some("d2")),
        sized("over-2", 101, Some("d2")),
    ];
    let report = find_duplicates(files, 100).unwrap();
    assert_eq!(report.groups.len(), 1);
    assert_eq!(report.groups[0].files, vec!["at-1".to_string(), "at-2".to_string()]);
    assert_eq!(report.total_wasted, 100);
}

#[test]
fn minimum_size_filter_drops_small_files() {
    let events = vec![found("small-1", 3), found("small-2", 3), found("edge", 4), found("big", 9)];
    let inventory = collect_inventory(events, Some(4)).unwrap();
    let paths: Vec<&str> = inventory.iter().map(|f| f.path.as_str()).collect();
    assert_eq!(paths, vec!["edge", "big"]);
    assert!(inventory.iter().all(|f| f.hash.is_none()));

    let report = scan_contents(
        &[("s1", b"abc"), ("s2", b"abc"), ("l1", b"abcdef"), ("l2", b"abcdef")],
        Some(4),
        GIB,
    );
    assert_eq!(report.groups.len(), 1);
    assert_eq!(report.groups[0].files, vec!["l1".to_string(), "l2".to_string()]);

    let unfiltered = collect_inventory(vec![found("zero", 0)], None).unwrap();
    assert_eq!(unfiltered.len(), 1);
    assert_eq!(unfiltered[0].size, 0);
}

#[test]
fn inventory_takes_regular_files_of_known_size() {
    let events = vec![
        WalkEvent::Entry { path: "root".to_string(), is_file: false, size: None },
        found("root/a", 10),
        WalkEvent::Entry { path: "root/dir".to_string(), is_file: false, size: Some(4096) },
        WalkEvent::Unreadable { depth: 2 },
        WalkEvent::Entry { path: "root/unknown".to_string(), is_file: true, size: None },
        found("root/b", 10),
        WalkEvent::Unreadable { depth: 1 },
    ];
    let inventory = collect_inventory(events, None).unwrap();
    let seen: Vec<(&str, u64)> = inventory.iter().map(|f| (f.path.as_str(), f.size)).collect();
    assert_eq!(seen, vec![("root/a", 10), ("root/b", 10)]);
}

#[test]
fn a_walk_that_fails_at_its_root_is_an_error() {
    let missing = vec![WalkEvent::Unreadable { depth: 0 }];
    assert_eq!(collect_inventory(missing, None).err(), Some(ScanError::RootUnreadable));
    let late = vec![found("a", 1), WalkEvent::Unreadable { depth: 0 }];
    assert_eq!(collect_inventory(late, Some(5)).err(), Some(ScanError::RootUnreadable));
    assert!(collect_inventory(Vec::new(), None).unwrap().is_empty());
}

#[test]
fn depth_of_the_scan() {
    assert_eq!(walk_depth(false), Some(1));
    assert_eq!(walk_depth(true), None);
}

#[test]
fn plan_names_the_files_to_hash() {
    let files = vec![
        sized("lonely", 1, None),
        sized("at-1", 100, None),
        sized("over-1", 101, None),
        sized("at-2", 100, None),
        sized("over-2", 101, None),
    ];
    let plan = HashPlan::new(files, 100);
    assert_eq!(plan.targets(), vec!["at-1", "at-2"]);
    let report = plan.finish(vec![Some("d".to_string()), Some("d".to_string())]).unwrap();
    assert_eq!(report.groups.len(), 1);
    assert_eq!(report.groups[0].files, vec!["at-1", "at-2"]);
    assert_eq!(report.total_wasted, 100);
}

#[test]
fn a_file_that_cannot_be_read_leaves_its_siblings_alone() {
    let files = vec![sized("a", 7, None), sized("b", 7, None), sized("c", 7, None)];
    let plan = HashPlan::new(files, 100);
    assert_eq!(plan.targets().len(), 3);
    let report = plan.finish(vec![Some("x".to_string()), None, Some("x".to_string())]).unwrap();
    assert_eq!(report.groups.len(), 1);
    assert_eq!(report.groups[0].files, vec!["a", "c"]);
    assert_eq!(report.total_duplicate_files, 2);
}

#[test]
fn digests_from_before_are_replaced_only_for_the_files_to_hash() {
    let files = vec![
        sized("a", 7, Some("stale")),
        sized("b", 7, Some("stale")),
        sized("big-1", 500, Some("same")),
        sized("big-2", 500, Some("same")),
    ];
    let plan = HashPlan::new(files, 100);
    assert_eq!(plan.targets(), vec!["a", "b"]);
    let report = plan.finish(vec![Some("one".to_string()), Some("two".to_string())]).unwrap();
    assert!(report.groups.is_empty());
}

#[test]
fn stages_and_plan_agree() {
    let contents: [(&str, &[u8]); 6] = [
        ("a", b"same!"),
        ("b", b"other"),
        ("c", b"same!"),
        ("d", b"unique size"),
        ("e", b"too large for now"),
        ("f", b"too large for now"),
    ];
    let planned = scan_contents(&contents, None, 11);
    let staged = scan_in_stages(&contents, None, 11);
    assert_eq!(planned.groups.len(), 1);
    assert_eq!(planned.groups.len(), staged.groups.len());
    assert_eq!(planned.groups[0].files, staged.groups[0].files);
    assert_eq!(planned.total_wasted, staged.total_wasted);
    assert_eq!(planned.total_duplicate_files, staged.total_duplicate_files);
}

#[test]
fn unhashed_files_take_no_part() {
    let group = SizeGroup {
        size: 7,
        files: vec![
            sized("read-1", 7, Some("aa")),
            sized("failed-1", 7, None),
            sized("failed-2", 7, None),
            sized("read-2", 7, Some("aa")),
            sized("other", 7, Some("bb")),
        ],
    };
    let sets = partition_by_digest(group).unwrap();
    assert_eq!(sets.len(), 1);
    assert_eq!(sets[0].size, 7);
    assert_eq!(sets[0].files, vec!["read-1".to_string(), "read-2".to_string()]);
    assert_eq!(sets[0].total_wasted, 7);
}

#[test]
fn sets_come_by_descending_wasted_space() {
    let files = vec![
        sized("s1", 10, Some("a")),
        sized("m1", 20, Some("b")),
        sized("s2", 10, Some("a")),
        sized("m2", 20, Some("b")),
        sized("t1", 15, Some("c")),
        sized("t2", 15, Some("c")),
        sized("t3", 15, Some("c")),
        sized("u1", 20, Some("d")),
        sized("u2", 20, Some("d")),
    ];
    let report = find_duplicates(files, GIB).unwrap();
    let wasted: Vec<u64> = report.groups.iter().map(|g| g.total_wasted).collect();
    assert_eq!(wasted, vec![30, 20, 20, 10]);
    assert_eq!(report.groups[0].files, vec!["t1", "t2", "t3"]);
    // equal wasted space and size: the set whose first path comes first
    assert_eq!(report.groups[1].files, vec!["m1", "m2"]);
    assert_eq!(report.groups[2].files, vec!["u1", "u2"]);
    assert_eq!(report.groups[3].files, vec!["s1", "s2"]);
    assert_eq!(report.total_wasted, 80);
    assert_eq!(report.total_duplicate_files, 9);
}

#[test]
fn sets_that_waste_the_same_come_by_size_then_by_first_path() {
    let files = vec![
        sized("z-big-1", 20, Some("b")),
        sized("z-big-2", 20, Some("b")),
        sized("m-big-1", 20, Some("c")),
        sized("m-big-2", 20, Some("c")),
        sized("small-1", 10, Some("a")),
        sized("small-2", 10, Some("a")),
        sized("small-3", 10, Some("a")),
    ];
    let report = find_duplicates(files, GIB).unwrap();
    let wasted: Vec<u64> = report.groups.iter().map(|g| g.total_wasted).collect();
    assert_eq!(wasted, vec![20, 20, 20]);
    assert_eq!(report.groups[0].files, vec!["small-1", "small-2", "small-3"]);
    assert_eq!(report.groups[1].files, vec!["m-big-1", "m-big-2"]);
    assert_eq!(report.groups[2].files, vec!["z-big-1", "z-big-2"]);
    assert_eq!(report.groups[1].first_path(), "m-big-1");
}

#[test]
fn ranking_is_stable() {
    let set = |name: &str, wasted: u64| DuplicateGroup {
        size: wasted,
        files: vec![format!("{name}-1"), format!("{name}-2")],
        total_wasted: wasted,
    };
    let ranked = rank_by_wasted(vec![set("a", 5), set("b", 9), set("c", 5), set("d", 9), set("e", 1)]);
    let order: Vec<&str> = ranked.iter().map(|g| g.files[0].as_str()).collect();
    assert_eq!(order, vec!["b-1", "d-1", "a-1", "c-1", "e-1"]);
}

#[test]
fn scanning_twice_gives_the_same_report() {
    let contents: [(&str, &[u8]); 5] =
        [("a", b"xx"), ("b", b"yy"), ("c", b"xx"), ("d", b"yy"), ("e", b"zz")];
    let first = scan_contents(&contents, None, GIB);
    let second = scan_contents(&contents, None, GIB);
    assert_eq!(first.total_wasted, second.total_wasted);
    assert_eq!(first.total_duplicate_files, second.total_duplicate_files);
    assert_eq!(first.groups.len(), second.groups.len());
    for (x, y) in first.groups.iter().zip(second.groups.iter()) {
        assert_eq!(x.size, y.size);
        assert_eq!(x.files, y.files);
        assert_eq!(x.total_wasted, y.total_wasted);
    }
}

#[test]
fn totals_that_do_not_fit_give_no_report() {
    let huge = u64::MAX;
    let group = SizeGroup {
        size: huge,
        files: vec![sized("a", huge, Some("d")), sized("b", huge, Some("d")), sized("c", huge, Some("d"))],
    };
    assert!(partition_by_digest(group).is_none());
    let sets = vec![
        DuplicateGroup { size: huge, files: vec!["a".into(), "b".into()], total_wasted: huge },
        DuplicateGroup { size: 1, files: vec!["c".into(), "d".into()], total_wasted: 1 },
    ];
    assert!(aggregate(sets).is_none());
    let files = vec![sized("a", huge, Some("d")), sized("b", huge, Some("d")), sized("c", huge, Some("d"))];
    assert!(find_duplicates(files, huge).is_none());
}

#[test]
fn size_of_an_inventory() {
    assert_eq!(inventory_size(&Vec::new()), Some(0));
    let files = vec![sized("a", 5, None), sized("b", 0, None), sized("c", 7, None)];
    assert_eq!(inventory_size(&files), Some(12));
    let edge = vec![sized("a", u64::MAX - 1, None), sized("b", 1, None)];
    assert_eq!(inventory_size(&edge), Some(u64::MAX));
    let over = vec![sized("a", u64::MAX, None), sized("b", 1, None), sized("c", 0, None)];
    assert_eq!(inventory_size(&over), None);
}

#[test]
fn a_report_is_made_whenever_the_sizes_fit() {
    let files = vec![
        sized("a", u64::MAX / 2, Some("d")),
        sized("b", u64::MAX / 2, Some("d")),
        sized("c", 1, Some("e")),
    ];
    assert!(inventory_size(&files).is_some());
    let report = find_duplicates(files, u64::MAX).unwrap();
    assert_eq!(report.total_wasted, u64::MAX / 2);
    assert_eq!(report.total_duplicate_files, 2);
}

#[test]
fn minimum_size_test() {
    assert!(passes_minimum(0, None));
    assert!(passes_minimum(5, Some(5)));
    assert!(!passes_minimum(4, Some(5)));
    assert!(passes_minimum(u64::MAX, Some(u64::MAX)));
}

#[test]
fn a_copy_of_a_record_is_the_record() {
    let file = sized("p", 3, Some("abc"));
    let copy = file.duplicate();
    assert_eq!((copy.path.as_str(), copy.size, copy.hash.as_deref()), ("p", 3, Some("abc")));
    let fresh = FileInfo::new("q".to_string(), 9);
    assert_eq!((fresh.path.as_str(), fresh.size, fresh.hash), ("q", 9, None));
}

#[test]
fn order_of_the_inventory_changes_no_total() {
    let forward = vec![
        sized("a", 4, Some("x")),
        sized("b", 4, Some("y")),
        sized("c", 4, Some("x")),
        sized("d", 9, Some("z")),
        sized("e", 9, Some("z")),
        sized("f", 9, Some("z")),
        sized("g", 4, Some("y")),
        sized("h", 2, None),
    ];
    let mut backward: Vec<FileInfo> = forward.iter().map(|f| f.duplicate()).collect();
    backward.reverse();
    let one = find_duplicates(forward, 100).unwrap();
    let two = find_duplicates(backward, 100).unwrap();
    assert_eq!(one.total_wasted, 26);
    assert_eq!(one.total_wasted, two.total_wasted);
    assert_eq!(one.total_duplicate_files, two.total_duplicate_files);
    assert_eq!(one.groups.len(), two.groups.len());
    assert_eq!(one.groups[0].files, vec!["d", "e", "f"]);
    assert_eq!(two.groups[0].files, vec!["f", "e", "d"]);
}

#[test]
fn no_file_is_reported_twice() {
    let files = vec![
        sized("a", 4, Some("x")),
        sized("b", 4, Some("y")),
        sized("c", 4, Some("x")),
        sized("d", 4, Some("y")),
        sized("e", 5, Some("x")),
        sized("f", 5, Some("x")),
    ];
    let report = find_duplicates(files, 100).unwrap();
    let mut seen: Vec<&String> = report.groups.iter().flat_map(|g| g.files.iter()).collect();
    assert_eq!(seen.len(), 6);
    seen.sort();
    seen.dedup();
    assert_eq!(seen.len(), 6);
    assert_eq!(report.groups.len(), 3);
}
