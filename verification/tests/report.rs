use ferret::duplicates::{
    find_duplicates, hash_candidates, render_head, render_report, render_section, DuplicateGroup,
    FileInfo, ScanResult,
};
use ferret::text::to_decimal;

fn file(path: &str, size: u64, digest: Option<&str>) -> FileInfo {
    FileInfo { path: path.to_string(), size, hash: digest.map(|d| d.to_string()) }
}

#[test]
fn decimal_numbers() {
    assert_eq!(to_decimal(0), "0");
    assert_eq!(to_decimal(7), "7");
    assert_eq!(to_decimal(10), "10");
    assert_eq!(to_decimal(1905), "1905");
    assert_eq!(to_decimal(u64::MAX), "18446744073709551615");
}

#[test]
fn head_of_a_report() {
    assert_eq!(
        render_head(2, 5, "1.50 KiB"),
        "Duplicate File Report\n=====================\n\n\
         Total duplicate groups: 2\nTotal duplicate files: 5\nTotal wasted space: 1.50 KiB\n\n"
    );
}

#[test]
fn section_of_a_report() {
    let paths = vec!["/a/one".to_string(), "/b/two".to_string()];
    let rule = "-".repeat(60);
    assert_eq!(
        render_section(3, "5 B", "5 B", &paths),
        format!("\nGroup 3 (size: 5 B, wasted: 5 B)\n{rule}:\n  /a/one\n  /b/two\n")
    );
    assert_eq!(
        render_section(1, "x", "y", &Vec::new()),
        format!("\nGroup 1 (size: x, wasted: y)\n{rule}:\n")
    );
}

#[test]
fn whole_report_with_sizes_in_binary_units() {
    let report = ScanResult {
        groups: vec![
            DuplicateGroup {
                size: 1536,
                files: vec!["big-1".into(), "big-2".into(), "big-3".into()],
                total_wasted: 3072,
            },
            DuplicateGroup { size: 5, files: vec!["a.txt".into(), "b.txt".into()], total_wasted: 5 },
        ],
        total_wasted: 3077,
        total_duplicate_files: 5,
    };
    let rule = "-".repeat(60);
    let expected = format!(
        "Duplicate File Report\n=====================\n\n\
         Total duplicate groups: 2\nTotal duplicate files: 5\nTotal wasted space: 3.00 KiB\n\n\
         \nGroup 1 (size: 1.50 KiB, wasted: 3 KiB)\n{rule}:\n  big-1\n  big-2\n  big-3\n\
         \nGroup 2 (size: 5 B, wasted: 5 B)\n{rule}:\n  a.txt\n  b.txt\n"
    );
    assert_eq!(render_report(&report), expected);
}

#[test]
fn empty_report() {
    let report = find_duplicates(Vec::new(), 100).unwrap();
    assert_eq!(
        render_report(&report),
        "Duplicate File Report\n=====================\n\n\
         Total duplicate groups: 0\nTotal duplicate files: 0\nTotal wasted space: 0 B\n\n"
    );
}

#[test]
fn candidates_for_hashing() {
    let files = vec![
        file("lonely", 1, None),
        file("at-1", 100, None),
        file("over-1", 101, None),
        file("at-2", 100, None),
        file("over-2", 101, None),
        file("small-1", 0, None),
        file("small-2", 0, None),
        file("small-3", 0, None),
    ];
    assert_eq!(hash_candidates(&files, 100), vec![1, 3, 5, 6, 7]);
    assert_eq!(hash_candidates(&files, 101), vec![1, 2, 3, 4, 5, 6, 7]);
    assert_eq!(hash_candidates(&files, 99), vec![5, 6, 7]);
    assert_eq!(hash_candidates(&Vec::new(), 99), Vec::<usize>::new());
}

#[test]
fn hashing_only_the_candidates_gives_the_full_report() {
    let contents: Vec<(&str, &[u8])> = vec![
        ("a", b"same!"),
        ("b", b"other"),
        ("c", b"same!"),
        ("d", b"unique size"),
        ("e", b"too large for now"),
        ("f", b"too large for now"),
    ];
    let ceiling = 11;
    let mut files: Vec<FileInfo> =
        contents.iter().map(|(p, c)| file(p, c.len() as u64, None)).collect();
    let places = hash_candidates(&files, ceiling);
    assert_eq!(places, vec![0, 1, 2]);
    for place in places {
        files[place].hash = Some(ferret::digest::hash_bytes(contents[place].1));
    }
    let report = find_duplicates(files, ceiling).unwrap();
    assert_eq!(report.groups.len(), 1);
    assert_eq!(report.groups[0].files, vec!["a", "c"]);
    assert_eq!(report.groups[0].size, 5);
    assert_eq!(report.total_wasted, 5);

    let all_hashed: Vec<FileInfo> = contents
        .iter()
        .map(|(p, c)| FileInfo {
            path: p.to_string(),
            size: c.len() as u64,
            hash: Some(ferret::digest::hash_bytes(c)),
        })
        .collect();
    let full = find_duplicates(all_hashed, ceiling).unwrap();
    assert_eq!(full.groups.len(), 1);
    assert_eq!(full.groups[0].files, report.groups[0].files);
    assert_eq!(full.total_wasted, report.total_wasted);
}
