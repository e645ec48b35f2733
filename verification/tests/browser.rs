use ferret::browser::{
    action_for, build_listing, sort_items, BrowserAction, FileBrowser, FileItem, Key,
};

fn item(name: &str, is_dir: bool) -> FileItem {
    FileItem {
        name: name.to_string(),
        path: format!("/here/{name}"),
        is_dir,
        size: if is_dir { None } else { Some(1) },
    }
}

fn names(items: &[FileItem]) -> Vec<&str> {
    items.iter().map(|i| i.name.as_str()).collect()
}

fn entries() -> Vec<FileItem> {
    vec![
        item("zeta.txt", false),
        item("Alpha.txt", false),
        item("src", true),
        item(".git", true),
        item("beta.txt", false),
        item("Docs", true),
        item(".env", false),
    ]
}

#[test]
fn directories_first_then_names_without_case() {
    let sorted = sort_items(entries());
    assert_eq!(
        names(&sorted),
        vec![".git", "Docs", "src", ".env", "Alpha.txt", "beta.txt", "zeta.txt"]
    );
    assert!(sort_items(Vec::new()).is_empty());
}

#[test]
fn equal_names_keep_their_order() {
    let mut a = item("same", false);
    a.path = "first".to_string();
    let mut b = item("SAME", false);
    b.path = "second".to_string();
    let mut c = item("Same", false);
    c.path = "third".to_string();
    let sorted = sort_items(vec![a, b, c]);
    let paths: Vec<&str> = sorted.iter().map(|i| i.path.as_str()).collect();
    assert_eq!(paths, vec!["first", "second", "third"]);
}

#[test]
fn listing_hides_dot_files_and_adds_the_parent() {
    let list = build_listing(Some("/".to_string()), entries(), false);
    assert_eq!(names(&list), vec!["..", "Docs", "src", "Alpha.txt", "beta.txt", "zeta.txt"]);
    assert_eq!(list[0].path, "/");
    assert!(list[0].is_dir);
    assert_eq!(list[0].size, None);
    let all = build_listing(None, entries(), true);
    assert_eq!(
        names(&all),
        vec![".git", "Docs", "src", ".env", "Alpha.txt", "beta.txt", "zeta.txt"]
    );
    assert!(build_listing(None, Vec::new(), false).is_empty());
    assert_eq!(names(&build_listing(Some("/up".to_string()), Vec::new(), false)), vec![".."]);
}

#[test]
fn the_parent_entry_is_sorted_like_any_directory() {
    let list = build_listing(Some("/".to_string()), vec![item("!first", true), item("a", true)], true);
    assert_eq!(names(&list), vec!["!first", "..", "a"]);
}

#[test]
fn keys() {
    assert_eq!(action_for(Key::Char('q'), false), BrowserAction::Quit);
    assert_eq!(action_for(Key::Char('q'), true), BrowserAction::Quit);
    assert_eq!(action_for(Key::Esc, false), BrowserAction::Quit);
    assert_eq!(action_for(Key::Char('c'), true), BrowserAction::Quit);
    assert_eq!(action_for(Key::Char('c'), false), BrowserAction::Nothing);
    assert_eq!(action_for(Key::Down, false), BrowserAction::Next);
    assert_eq!(action_for(Key::Char('j'), false), BrowserAction::Next);
    assert_eq!(action_for(Key::Up, false), BrowserAction::Previous);
    assert_eq!(action_for(Key::Char('k'), false), BrowserAction::Previous);
    assert_eq!(action_for(Key::Enter, false), BrowserAction::Enter);
    assert_eq!(action_for(Key::Right, false), BrowserAction::Enter);
    assert_eq!(action_for(Key::Char('l'), false), BrowserAction::Enter);
    assert_eq!(action_for(Key::Char('h'), false), BrowserAction::ToggleHidden);
    assert_eq!(action_for(Key::Char('r'), false), BrowserAction::Refresh);
    assert_eq!(action_for(Key::Char('x'), false), BrowserAction::Nothing);
    assert_eq!(action_for(Key::Char('Q'), false), BrowserAction::Nothing);
    assert_eq!(action_for(Key::Other, true), BrowserAction::Nothing);
}

#[test]
fn selection_wraps_around() {
    let mut browser = FileBrowser::new("/here".to_string(), Some("/".to_string()), entries());
    assert_eq!(browser.current_path(), "/here");
    assert!(!browser.show_hidden());
    assert_eq!(browser.items().len(), 6);
    assert_eq!(browser.selected(), Some(0));
    browser.previous();
    assert_eq!(browser.selected(), Some(5));
    browser.next();
    assert_eq!(browser.selected(), Some(0));
    browser.next();
    browser.next();
    assert_eq!(browser.selected(), Some(2));
    browser.previous();
    assert_eq!(browser.selected(), Some(1));
}

#[test]
fn entering_directories() {
    let mut browser = FileBrowser::new("/here".to_string(), Some("/".to_string()), entries());
    assert_eq!(browser.enter_target(), Some("/".to_string()));
    browser.next();
    assert_eq!(browser.enter_target(), Some("/here/Docs".to_string()));
    browser.next();
    browser.next();
    assert_eq!(names(&browser.items()[3..4]), vec!["Alpha.txt"]);
    assert_eq!(browser.enter_target(), None);
    browser.enter("/here/Docs".to_string(), Some("/here".to_string()), vec![item("b", false), item("a", false)]);
    assert_eq!(browser.current_path(), "/here/Docs");
    assert_eq!(browser.selected(), Some(0));
    assert_eq!(names(browser.items()), vec!["..", "a", "b"]);
}

#[test]
fn showing_hidden_entries_and_refreshing() {
    let mut browser = FileBrowser::new("/here".to_string(), None, entries());
    browser.next();
    browser.next();
    browser.toggle_hidden(None, entries());
    assert!(browser.show_hidden());
    assert_eq!(browser.selected(), Some(0));
    assert_eq!(browser.items().len(), 7);
    browser.next();
    browser.refresh(None, vec![item(".x", false), item("y", false)]);
    assert_eq!(browser.selected(), Some(1));
    assert_eq!(names(browser.items()), vec![".x", "y"]);
    browser.toggle_hidden(None, vec![item(".x", false), item("y", false)]);
    assert!(!browser.show_hidden());
    assert_eq!(names(browser.items()), vec!["y"]);
}

#[test]
fn a_selection_beyond_the_list_comes_back() {
    let mut browser = FileBrowser::new("/here".to_string(), None, entries());
    for _ in 0..4 {
        browser.next();
    }
    assert_eq!(browser.selected(), Some(4));
    browser.refresh(None, vec![item("only", false), item("two", false)]);
    assert_eq!(browser.selected(), Some(4));
    assert_eq!(browser.enter_target(), None);
    browser.next();
    assert_eq!(browser.selected(), Some(0));
}
