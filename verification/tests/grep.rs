use ferret::grep::{count_matches, line_match, search_lines, summarize, GrepMatch, GrepOptions};
use ferret::pattern::Matcher;

fn options(pattern: &str) -> GrepOptions {
    GrepOptions {
        pattern: pattern.to_string(),
        path: ".".to_string(),
        is_regex: false,
        ignore_case: false,
        recursive: true,
        file_pattern: None,
        verbose: false,
    }
}

fn lines(text: &[&str]) -> Vec<String> {
    text.iter().map(|l| l.to_string()).collect()
}

fn found(file: &str, n: usize) -> Vec<GrepMatch> {
    (1..=n)
        .map(|i| GrepMatch {
            file: file.to_string(),
            line_number: i,
            line_content: "x".to_string(),
            match_positions: vec![(0, 1)],
        })
        .collect()
}

#[test]
fn plain_text_is_taken_literally() {
    let matcher = options("a.b").compile().unwrap();
    assert!(matcher.is_match("xa.by"));
    assert!(!matcher.is_match("xaXby"));
    let mut as_regex = options("a.b");
    as_regex.is_regex = true;
    assert!(as_regex.compile().unwrap().is_match("xaXby"));
    let mut any_case = options("Hello");
    any_case.ignore_case = true;
    assert!(any_case.compile().unwrap().is_match("say hELLO"));
    assert!(!options("Hello").compile().unwrap().is_match("say hELLO"));
    let mut broken = options("a(");
    assert!(broken.compile().is_ok());
    broken.is_regex = true;
    let error = broken.compile().err().unwrap();
    assert_eq!(error.pattern, "a(");
}

#[test]
fn matching_lines_are_numbered_from_one() {
    let matcher = Matcher::compile("to", "to").unwrap();
    let text = lines(&["nothing here", "to be or not to be", "", "into the woods"]);
    let matches = search_lines("play.txt", &text, &matcher);
    assert_eq!(matches.len(), 2);
    assert_eq!(matches[0].file, "play.txt");
    assert_eq!(matches[0].line_number, 2);
    assert_eq!(matches[0].line_content, "to be or not to be");
    assert_eq!(matches[0].match_positions, vec![(0, 2), (13, 15)]);
    assert_eq!(matches[1].line_number, 4);
    assert_eq!(matches[1].match_positions, vec![(2, 4)]);
    assert!(search_lines("empty", &Vec::new(), &matcher).is_empty());
}

#[test]
fn a_line_without_spans_gives_no_match() {
    assert!(line_match("f", 3, "text", Vec::new()).is_none());
    let m = line_match("f", 3, "text", vec![(1, 2)]).unwrap();
    assert_eq!((m.file.as_str(), m.line_number, m.line_content.as_str()), ("f", 3, "text"));
    assert_eq!(m.match_positions, vec![(1, 2)]);
}

#[test]
fn counting_matches() {
    let matcher = Matcher::compile("a", "a").unwrap();
    assert_eq!(count_matches(&lines(&["banana", "", "apple", "kiwi"]), &matcher), 4);
    assert_eq!(count_matches(&Vec::new(), &matcher), 0);
}

#[test]
fn summary_of_a_search() {
    let results = vec![found("a", 2), Vec::new(), found("b", 1), found("c", 3), Vec::new()];
    assert_eq!(summarize(&results), (6, 3));
    assert_eq!(summarize(&Vec::new()), (0, 0));
    assert_eq!(summarize(&vec![Vec::new()]), (0, 0));
}

#[test]
fn file_pattern_is_a_substring_of_the_name() {
    let mut grep = options("x");
    assert!(grep.takes_file(Some("anything")));
    assert!(grep.takes_file(None));
    grep.file_pattern = Some(".rs".to_string());
    assert!(grep.takes_file(Some("main.rs")));
    assert!(grep.takes_file(Some("main.rs.bak")));
    assert!(!grep.takes_file(Some("main.r")));
    assert!(!grep.takes_file(Some("")));
    assert!(grep.takes_file(None));
    grep.file_pattern = Some(String::new());
    assert!(grep.takes_file(Some("")));
}

#[test]
fn depth_of_the_grep_walk() {
    let mut grep = options("x");
    assert_eq!(grep.walk_depth(), None);
    grep.recursive = false;
    assert_eq!(grep.walk_depth(), Some(1));
}
