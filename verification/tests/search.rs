use ferret::pattern::{content_pattern, name_pattern, Matcher};
use ferret::search::{
    allows_kind, allows_metadata, glob_to_regex, parse_size, parse_size_text, EntryFacts,
    EntryKind, EntryMetadata, LimitError, OutputFormat, SearchCommand, SizeError, SizeLimit,
};

fn command(pattern: &str) -> SearchCommand {
    SearchCommand {
        pattern: pattern.to_string(),
        path: ".".to_string(),
        ignore_case: false,
        regex: false,
        file_type: None,
        min_size: None,
        max_size: None,
        modified_days: None,
        recursive: true,
        max_depth: None,
        hidden: false,
        output: "default".to_string(),
        exec_command: None,
        verbose: false,
        quiet: false,
        follow_links: false,
    }
}

fn entry(name: &str, kind: EntryKind, size: u64, age_secs: Option<u64>) -> EntryFacts {
    EntryFacts { name: name.to_string(), kind, metadata: Some(EntryMetadata { size, age_secs }) }
}

#[test]
fn globs_become_anchored_expressions() {
    assert_eq!(glob_to_regex(""), "^$");
    assert_eq!(glob_to_regex("*.rs"), "^.*\\.rs$");
    assert_eq!(glob_to_regex("a?c"), "^a.c$");
    assert_eq!(glob_to_regex("c++"), "^c\\+\\+$");
    assert_eq!(glob_to_regex("(x)[y]{z}^$|\\"), "^\\(x\\)\\[y\\]\\{z\\}\\^\\$\\|\\\\$");
    assert_eq!(glob_to_regex("plain-name_1"), "^plain-name_1$");
    assert_eq!(glob_to_regex("grüße*"), "^grüße.*$");
}

#[test]
fn sizes_with_units() {
    assert_eq!(parse_size("0"), Ok(0));
    assert_eq!(parse_size("1500"), Ok(1500));
    assert_eq!(parse_size("1K"), Ok(1024));
    assert_eq!(parse_size("500k"), Ok(500 * 1024));
    assert_eq!(parse_size("1M"), Ok(1024 * 1024));
    assert_eq!(parse_size("2g"), Ok(2 * 1024 * 1024 * 1024));
    assert_eq!(parse_size("3T"), Ok(3 * 1024u64.pow(4)));
    assert_eq!(parse_size("  10m \n"), Ok(10 * 1024 * 1024));
    assert_eq!(parse_size("+7K"), Ok(7 * 1024));
    assert_eq!(parse_size("007"), Ok(7));
    assert_eq!(parse_size("18446744073709551615"), Ok(u64::MAX));
}

#[test]
fn sizes_that_cannot_be_read() {
    for bad in ["", " ", "K", "+", "+K", "abc", "1.5M", "1 M", "-1", "1KB", "1KK", "٣", "1e3"] {
        assert_eq!(parse_size(bad), Err(SizeError::Invalid), "{bad:?}");
    }
    assert_eq!(parse_size("18446744073709551616"), Err(SizeError::Invalid));
    assert_eq!(parse_size("99999999999999999999999K"), Err(SizeError::Invalid));
    assert_eq!(parse_size("18014398509481984K"), Err(SizeError::TooLarge));
    assert_eq!(parse_size("18014398509481983K"), Ok(18014398509481983 * 1024));
    assert_eq!(parse_size("16777216T"), Err(SizeError::TooLarge));
    // the text is read as it stands: lower case and white space are for the caller
    assert_eq!(parse_size_text("1k"), Err(SizeError::Invalid));
    assert_eq!(parse_size_text(" 1"), Err(SizeError::Invalid));
    assert_eq!(parse_size_text("1K"), Ok(1024));
}

#[test]
fn expressions_for_names_and_contents() {
    assert_eq!(name_pattern("*.txt", false, false), "^.*\\.txt$");
    assert_eq!(name_pattern("*.txt", false, true), "(?i)^.*\\.txt$");
    assert_eq!(name_pattern("^a+$", true, false), "^a+$");
    assert_eq!(name_pattern("^a+$", true, true), "(?i)^a+$");
    assert_eq!(content_pattern("a.b", false, false), "a\\.b");
    assert_eq!(content_pattern("a.b", false, true), "(?i)a\\.b");
    assert_eq!(content_pattern("a.b", true, false), "a.b");
    assert_eq!(content_pattern("1-2~3#4&5", false, false), "1\\-2\\~3\\#4\\&5");
    assert_eq!(content_pattern("x%/!\"e", false, false), "x%/!\"e");
}

#[test]
fn compiling_and_matching() {
    let matcher = Matcher::compile("^.*\\.rs$", "*.rs").unwrap();
    assert!(matcher.is_match("main.rs"));
    assert!(!matcher.is_match("main.rs.bak"));
    let error = Matcher::compile("foo(bar", "foo(bar").err().unwrap();
    assert_eq!(error.pattern, "foo(bar");
    assert!(!error.reason.is_empty());
    let finder = Matcher::compile("ab", "ab").unwrap();
    assert_eq!(finder.find_spans("ab cab abab"), vec![(0, 2), (4, 6), (7, 9), (9, 11)]);
    assert_eq!(finder.find_spans("none"), Vec::<(usize, usize)>::new());
}

#[test]
fn commands_compile_their_pattern() {
    let mut find = command("*.RS");
    assert!(!find.compile_glob_to_regex().unwrap().is_match("main.rs"));
    find.ignore_case = true;
    assert!(find.compile_glob_to_regex().unwrap().is_match("main.rs"));
    let mut by_regex = command("^ma.n");
    by_regex.regex = true;
    assert!(by_regex.compile_regex().unwrap().is_match("main.rs"));
    assert!(!by_regex.compile_regex().unwrap().is_match("MAIN.rs"));
    let mut broken = command("(");
    broken.regex = true;
    assert_eq!(broken.compile_regex().err().unwrap().pattern, "(");
    // as a glob the same text is taken literally
    assert!(command("(").compile_glob_to_regex().unwrap().is_match("("));
}

#[test]
fn hidden_entries() {
    let find = command("*");
    assert!(!find.should_process_entry(".git", 1));
    assert!(find.should_process_entry(".git", 0));
    assert!(find.should_process_entry("src", 3));
    assert!(find.should_process_entry("", 3));
    let mut all = command("*");
    all.hidden = true;
    assert!(all.should_process_entry(".git", 1));
}

#[test]
fn depth_of_the_walk() {
    let mut find = command("*");
    assert_eq!(find.walk_depth(), None);
    find.max_depth = Some(3);
    assert_eq!(find.walk_depth(), Some(3));
    find.recursive = false;
    assert_eq!(find.walk_depth(), Some(1));
}

#[test]
fn kind_filter() {
    let t = |s: &str| Some(s.to_string());
    assert!(allows_kind(&None, EntryKind::Other));
    assert!(allows_kind(&t("file"), EntryKind::File));
    assert!(allows_kind(&t("f"), EntryKind::File));
    assert!(!allows_kind(&t("f"), EntryKind::Dir));
    assert!(allows_kind(&t("dir"), EntryKind::Dir));
    assert!(allows_kind(&t("d"), EntryKind::Dir));
    assert!(!allows_kind(&t("d"), EntryKind::Symlink));
    assert!(allows_kind(&t("symlink"), EntryKind::Symlink));
    assert!(allows_kind(&t("l"), EntryKind::Symlink));
    assert!(!allows_kind(&t("l"), EntryKind::File));
    assert!(allows_kind(&t("socket"), EntryKind::File));
    assert!(allows_kind(&t("FILE"), EntryKind::Dir));
}

#[test]
fn size_and_age_limits() {
    let meta = |size, age_secs| Some(EntryMetadata { size, age_secs });
    assert!(allows_metadata(&None, Some(10), Some(5), Some(0)));
    assert!(allows_metadata(&meta(10, None), Some(10), Some(10), None));
    assert!(!allows_metadata(&meta(9, None), Some(10), None, None));
    assert!(!allows_metadata(&meta(11, None), None, Some(10), None));
    assert!(allows_metadata(&meta(1, Some(2 * 86400)), None, None, Some(2)));
    assert!(!allows_metadata(&meta(1, Some(2 * 86400 + 1)), None, None, Some(2)));
    assert!(allows_metadata(&meta(1, None), None, None, Some(0)));
    assert!(!allows_metadata(&meta(1, Some(1)), None, None, Some(0)));
    // a limit of more days than seconds can count never excludes anything
    assert!(allows_metadata(&meta(1, Some(u64::MAX)), None, None, Some(u64::MAX)));
}

#[test]
fn criteria_together() {
    let mut find = command("*.log");
    find.file_type = Some("f".to_string());
    find.modified_days = Some(1);
    let matcher = find.compile_glob_to_regex().unwrap();
    let fresh = entry("a.log", EntryKind::File, 100, Some(60));
    assert!(find.matches_criteria(&fresh, &matcher, Some(100), Some(100)));
    assert!(!find.matches_criteria(&fresh, &matcher, Some(101), None));
    assert!(!find.matches_criteria(&entry("a.txt", EntryKind::File, 100, Some(60)), &matcher, None, None));
    assert!(!find.matches_criteria(&entry("a.log", EntryKind::Dir, 100, Some(60)), &matcher, None, None));
    assert!(!find.matches_criteria(&entry("a.log", EntryKind::File, 100, Some(90000)), &matcher, None, None));
    let unreadable = EntryFacts { name: "b.log".to_string(), kind: EntryKind::File, metadata: None };
    assert!(find.matches_criteria(&unreadable, &matcher, Some(1 << 40), Some(0)));
    assert!(find.passes_filters(&fresh, None, None));
}

#[test]
fn limits_of_a_command() {
    let mut find = command("*");
    assert_eq!(find.size_limits(), Ok((None, None)));
    find.min_size = Some("1k".to_string());
    find.max_size = Some(" 2M".to_string());
    assert_eq!(find.size_limits(), Ok((Some(1024), Some(2 * 1024 * 1024))));
    find.max_size = Some("lots".to_string());
    assert_eq!(
        find.size_limits(),
        Err(LimitError { limit: SizeLimit::Maximum, error: SizeError::Invalid })
    );
    find.min_size = Some("16777216T".to_string());
    assert_eq!(
        find.size_limits(),
        Err(LimitError { limit: SizeLimit::Minimum, error: SizeError::TooLarge })
    );
}

#[test]
fn output_formats() {
    let mut find = command("*");
    assert_eq!(find.output_format(), OutputFormat::Plain);
    find.output = "json".to_string();
    assert_eq!(find.output_format(), OutputFormat::Json);
    find.output = "detailed".to_string();
    assert_eq!(find.output_format(), OutputFormat::Detailed);
    find.output = "JSON".to_string();
    assert_eq!(find.output_format(), OutputFormat::Plain);
}
