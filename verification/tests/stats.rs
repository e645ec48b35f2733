use ferret::ranking::{first_n, rank};
use ferret::search::EntryKind;
use ferret::sizes::SizeClass;
use ferret::stats::{largest_files, path_column_width, top_counts, DirectoryStats, SizedPath, StatEntry};
use ferret::tally::{Tally, TallyEntry};

fn entry(name: &str, depth: usize, kind: EntryKind, size: Option<u64>, ext: Option<&str>) -> StatEntry {
    StatEntry { name: name.to_string(), depth, kind, size, extension: ext.map(|e| e.to_string()) }
}

fn sized(path: &str, size: u64) -> SizedPath {
    SizedPath { path: path.to_string(), size }
}

fn labels(entries: &[TallyEntry]) -> Vec<(&str, u64, u64)> {
    entries.iter().map(|e| (e.label.as_str(), e.count, e.bytes)).collect()
}

#[test]
fn counting_by_label() {
    let mut tally = Tally::new();
    assert!(tally.entries.is_empty());
    tally.add("rs".to_string(), 10);
    tally.add("md".to_string(), 5);
    tally.add("rs".to_string(), 7);
    tally.add("rs".to_string(), 0);
    assert_eq!(labels(&tally.entries), vec![("rs", 3, 17), ("md", 1, 5)]);
    assert_eq!(tally.find(&"md".to_string()), Some(1));
    assert_eq!(tally.find(&"txt".to_string()), None);
    tally.add("md".to_string(), u64::MAX);
    assert_eq!(labels(&tally.entries), vec![("rs", 3, 17), ("md", 2, u64::MAX)]);
}

#[test]
fn statistics_of_entries() {
    let mut stats = DirectoryStats::new();
    assert_eq!((stats.total_files(), stats.total_dirs(), stats.total_size()), (0, 0, 0));
    stats.record(&entry("root", 0, EntryKind::Dir, Some(4096), None), false);
    stats.record(&entry("src", 1, EntryKind::Dir, Some(4096), None), false);
    stats.record(&entry("main.rs", 2, EntryKind::File, Some(2000), Some("rs")), false);
    stats.record(&entry("LIB.RS", 2, EntryKind::File, Some(100), Some("RS")), false);
    stats.record(&entry("Makefile", 1, EntryKind::File, Some(1024), None), false);
    stats.record(&entry("broken", 1, EntryKind::File, None, Some("bin")), false);
    stats.record(&entry("link", 1, EntryKind::Symlink, Some(9), None), false);
    stats.record(&entry(".hidden", 1, EntryKind::File, Some(50), None), false);
    stats.record(&entry(".git", 1, EntryKind::Dir, Some(50), None), false);
    assert_eq!(stats.total_dirs(), 2);
    assert_eq!(stats.total_files(), 4);
    assert_eq!(stats.total_size(), 3124);
    assert_eq!(
        labels(&stats.extensions().entries),
        vec![("rs", 2, 2100), ("(no extension)", 1, 1024)]
    );
    assert_eq!(stats.files_of_class(SizeClass::Tiny), 2);
    assert_eq!(stats.files_of_class(SizeClass::Small), 1);
    assert_eq!(stats.files_of_class(SizeClass::Medium), 0);
    assert_eq!(stats.files_of_class(SizeClass::Gigantic), 0);
}

#[test]
fn hidden_entries_count_when_asked_for() {
    let mut stats = DirectoryStats::new();
    stats.record(&entry(".hidden", 1, EntryKind::File, Some(50), None), true);
    stats.record(&entry(".git", 1, EntryKind::Dir, None, None), true);
    stats.record(&entry(".", 0, EntryKind::Dir, None, None), false);
    assert_eq!((stats.total_files(), stats.total_dirs(), stats.total_size()), (1, 2, 50));
}

#[test]
fn totals_stop_at_the_largest_number() {
    let mut stats = DirectoryStats::new();
    stats.record(&entry("a", 1, EntryKind::File, Some(u64::MAX), Some("x")), false);
    stats.record(&entry("b", 1, EntryKind::File, Some(5), Some("x")), false);
    assert_eq!(stats.total_size(), u64::MAX);
    assert_eq!(stats.total_files(), 2);
    assert_eq!(labels(&stats.extensions().entries), vec![("x", 2, u64::MAX)]);
    assert_eq!(stats.files_of_class(SizeClass::Gigantic), 1);
    assert_eq!(stats.files_of_class(SizeClass::Tiny), 1);
}

#[test]
fn most_frequent_labels_first() {
    let mut tally = Tally::new();
    for label in ["a", "b", "c", "b", "d", "c", "b", "d"] {
        tally.add(label.to_string(), 1);
    }
    assert_eq!(
        labels(&top_counts(&tally, 15)),
        vec![("b", 3, 3), ("c", 2, 2), ("d", 2, 2), ("a", 1, 1)]
    );
    assert_eq!(labels(&top_counts(&tally, 2)), vec![("b", 3, 3), ("c", 2, 2)]);
    assert_eq!(labels(&top_counts(&tally, 0)), vec![]);
    assert_eq!(tally.entries.len(), 4);
}

#[test]
fn largest_files_first() {
    let files = vec![sized("s", 1), sized("l", 9), sized("m1", 5), sized("m2", 5), sized("z", 0)];
    let top: Vec<(String, u64)> =
        largest_files(files, 3).into_iter().map(|f| (f.path, f.size)).collect();
    assert_eq!(top, vec![("l".to_string(), 9), ("m1".to_string(), 5), ("m2".to_string(), 5)]);
    assert!(largest_files(Vec::new(), 10).is_empty());
    assert_eq!(largest_files(vec![sized("only", 3)], 10).len(), 1);
}

#[test]
fn ranking_and_cutting() {
    let ranked = rank(vec![sized("a", 2), sized("b", 7), sized("c", 2), sized("d", 7)]);
    let order: Vec<&str> = ranked.iter().map(|f| f.path.as_str()).collect();
    assert_eq!(order, vec!["b", "d", "a", "c"]);
    assert_eq!(first_n(vec![1, 2, 3], 2), vec![1, 2]);
    assert_eq!(first_n(vec![1, 2, 3], 3), vec![1, 2, 3]);
    assert_eq!(first_n(vec![1, 2, 3], 9), vec![1, 2, 3]);
    assert_eq!(first_n(Vec::<u8>::new(), 0), Vec::<u8>::new());
}

#[test]
fn ranking_many_items_agrees_with_a_stable_sort() {
    let mut seed: u64 = 0x2545F4914F6CDD1D;
    let mut items = Vec::new();
    for i in 0..5000 {
        seed ^= seed << 13;
        seed ^= seed >> 7;
        seed ^= seed << 17;
        items.push((format!("f{i}"), seed % 97));
    }
    let mut expected = items.clone();
    expected.sort_by(|a, b| b.1.cmp(&a.1));
    let ranked = rank(items.iter().map(|(p, s)| sized(p, *s)).collect());
    let got: Vec<(String, u64)> = ranked.into_iter().map(|f| (f.path, f.size)).collect();
    assert_eq!(got, expected);
    for n in [0usize, 1, 2, 3, 7, 8, 9, 64] {
        let few: Vec<(String, u64)> = items[..n].to_vec();
        let mut sorted = few.clone();
        sorted.sort_by(|a, b| b.1.cmp(&a.1));
        let ranked = rank(few.iter().map(|(p, s)| sized(p, *s)).collect());
        let got: Vec<(String, u64)> = ranked.into_iter().map(|f| (f.path, f.size)).collect();
        assert_eq!(got, sorted);
    }
}

#[test]
fn width_of_the_path_column() {
    assert_eq!(path_column_width(80), 60);
    assert_eq!(path_column_width(60), 40);
    assert_eq!(path_column_width(59), 40);
    assert_eq!(path_column_width(0), 40);
    assert_eq!(path_column_width(200), 180);
}
