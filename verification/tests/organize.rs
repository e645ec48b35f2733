use ferret::organize::{
    categorize, conflict_name, date_folder, first_conflict_step, next_conflict_step,
    organize_categories, ConflictStep, FileAction, OrganizeCommand, OrganizeMethod,
    LAST_CONFLICT_NUMBER,
};
use ferret::sizes::{all_classes, SizeClass};

fn command(method: &str) -> OrganizeCommand {
    OrganizeCommand {
        path: ".".to_string(),
        method: method.to_string(),
        output: None,
        dry_run: false,
        copy: false,
        recursive: false,
        hidden: false,
        verbose: false,
    }
}

#[test]
fn methods_by_name() {
    assert_eq!(command("type").organize_method().unwrap(), OrganizeMethod::ByType);
    assert_eq!(command("extension").organize_method().unwrap(), OrganizeMethod::ByType);
    assert_eq!(command("date").organize_method().unwrap(), OrganizeMethod::ByDate);
    assert_eq!(command("size").organize_method().unwrap(), OrganizeMethod::BySize);
    assert_eq!(command("colour").organize_method().err().unwrap().method, "colour");
    assert_eq!(command("Type").organize_method().err().unwrap().method, "Type");
    assert_eq!(command("").organize_method().err().unwrap().method, "");
}

#[test]
fn categories_by_extension() {
    let organize = command("type");
    assert_eq!(organize.categorize_file("pdf"), "documents");
    assert_eq!(organize.categorize_file("MD"), "documents");
    assert_eq!(organize.categorize_file("Jpg"), "images");
    assert_eq!(organize.categorize_file("m4v"), "videos");
    assert_eq!(organize.categorize_file("opus"), "audio");
    assert_eq!(organize.categorize_file("7z"), "archives");
    assert_eq!(organize.categorize_file("zsh"), "code");
    assert_eq!(organize.categorize_file("yml"), "web");
    assert_eq!(organize.categorize_file("csv"), "spreadsheets");
    assert_eq!(organize.categorize_file("key"), "presentations");
    assert_eq!(organize.categorize_file("dmg"), "executables");
    assert_eq!(organize.categorize_file("sqlite"), "databases");
    assert_eq!(organize.categorize_file("woff2"), "fonts");
    assert_eq!(organize.categorize_file(""), "no-extension");
    assert_eq!(organize.categorize_file("XYZ"), "xyz-files");
    // these are known to the configuration's table only
    assert_eq!(organize.categorize_file("epub"), "epub-files");
    assert_eq!(organize.categorize_file("sqlite3"), "sqlite3-files");
}

#[test]
fn lookup_takes_the_extension_as_it_stands() {
    let table = organize_categories();
    assert_eq!(table.len(), 12);
    assert_eq!(categorize(&table, &"rs".to_string()), "code");
    assert_eq!(categorize(&table, &"RS".to_string()), "RS-files");
    assert_eq!(categorize(&Vec::new(), &"rs".to_string()), "rs-files");
    assert_eq!(categorize(&Vec::new(), &String::new()), "no-extension");
}

#[test]
fn folders_by_size() {
    let organize = command("size");
    assert_eq!(organize.size_folder(0), "tiny (0-1KB)");
    assert_eq!(organize.size_folder(1024), "tiny (0-1KB)");
    assert_eq!(organize.size_folder(1025), "small (1KB-100KB)");
    assert_eq!(organize.size_folder(102400), "small (1KB-100KB)");
    assert_eq!(organize.size_folder(102401), "medium (100KB-1MB)");
    assert_eq!(organize.size_folder(1048576), "medium (100KB-1MB)");
    assert_eq!(organize.size_folder(1048577), "large (1MB-10MB)");
    assert_eq!(organize.size_folder(10485760), "large (1MB-10MB)");
    assert_eq!(organize.size_folder(10485761), "huge (10MB-100MB)");
    assert_eq!(organize.size_folder(104857600), "huge (10MB-100MB)");
    assert_eq!(organize.size_folder(104857601), "gigantic (100MB+)");
    assert_eq!(organize.size_folder(u64::MAX), "gigantic (100MB+)");
}

#[test]
fn size_classes() {
    let classes = all_classes();
    assert_eq!(classes.len(), 6);
    for (i, class) in classes.iter().enumerate() {
        assert_eq!(class.index(), i);
    }
    assert_eq!(SizeClass::of(1024), SizeClass::Tiny);
    assert_eq!(SizeClass::of(1025), SizeClass::Small);
    assert_eq!(SizeClass::of(104857601), SizeClass::Gigantic);
    let ranges: Vec<&str> = classes.iter().map(|c| c.range()).collect();
    assert_eq!(ranges, vec!["0-1KB", "1KB-100KB", "100KB-1MB", "1MB-10MB", "10MB-100MB", "100MB+"]);
}

#[test]
fn folders_by_date() {
    assert_eq!(date_folder(2024, 3, "March"), "2024/03-March");
    assert_eq!(date_folder(1999, 12, "December"), "1999/12-December");
    assert_eq!(date_folder(2025, 10, "October"), "2025/10-October");
    assert_eq!(date_folder(0, 1, "January"), "0/01-January");
    assert_eq!(date_folder(-44, 3, "March"), "-44/03-March");
    assert_eq!(date_folder(i32::MIN, 9, "September"), "-2147483648/09-September");
}

#[test]
fn names_for_conflicts() {
    assert_eq!(conflict_name("report", 1, ".pdf"), "report_1.pdf");
    assert_eq!(conflict_name("report", 999, ".pdf"), "report_999.pdf");
    assert_eq!(conflict_name("Makefile", 12, ""), "Makefile_12");
    assert_eq!(conflict_name("", 1, ".x"), "_1.x");
}

#[test]
fn conflict_numbers_run_from_1_to_999() {
    assert_eq!(first_conflict_step(), ConflictStep::Try(1));
    assert_eq!(next_conflict_step(1), ConflictStep::Try(2));
    assert_eq!(next_conflict_step(998), ConflictStep::Try(999));
    assert_eq!(next_conflict_step(999), ConflictStep::GiveUp);
    assert_eq!(next_conflict_step(u32::MAX), ConflictStep::GiveUp);
    assert_eq!(LAST_CONFLICT_NUMBER, 999);
    let mut tried = 0;
    let mut step = first_conflict_step();
    while let ConflictStep::Try(n) = step {
        tried += 1;
        assert_eq!(n, tried);
        step = next_conflict_step(n);
    }
    assert_eq!(tried, 999);
}

#[test]
fn hidden_entries_and_depth() {
    let mut organize = command("type");
    assert!(!organize.should_process_entry(".cache", 1));
    assert!(organize.should_process_entry(".", 0));
    assert!(organize.should_process_entry("notes.txt", 1));
    assert_eq!(organize.walk_depth(), Some(1));
    organize.hidden = true;
    organize.recursive = true;
    assert!(organize.should_process_entry(".cache", 1));
    assert_eq!(organize.walk_depth(), None);
}

#[test]
fn what_is_done_with_a_file() {
    let mut organize = command("type");
    assert_eq!(organize.action(), FileAction::Move);
    organize.copy = true;
    assert_eq!(organize.action(), FileAction::Copy);
    organize.dry_run = true;
    assert_eq!(organize.action(), FileAction::ShowCopy);
    organize.copy = false;
    assert_eq!(organize.action(), FileAction::ShowMove);
}
