//! Searching the lines of files for a pattern.

use crate::pattern::{content_expression, content_pattern, match_spans, Matcher, PatternError};
use crate::text::{contains_text, occurs_in, string_views};
use vstd::prelude::*;

verus! {

/// A line in which the pattern was found.
pub struct LineMatch {
    pub file: Seq<char>,
    pub line_number: nat,
    pub line_content: Seq<char>,
    pub match_positions: Seq<(usize, usize)>,
}

/// A line in which the pattern was found: the file, the number of the line
/// counted from 1, the line, and where in it the pattern matched, as byte
/// offsets of start and end.
#[derive(Debug)]
pub struct GrepMatch {
    pub file: String,
    pub line_number: usize,
    pub line_content: String,
    pub match_positions: Vec<(usize, usize)>,
}

impl View for GrepMatch {
    type V = LineMatch;

    open spec fn view(&self) -> LineMatch {
        LineMatch {
            file: self.file@,
            line_number: self.line_number as nat,
            line_content: self.line_content@,
            match_positions: self.match_positions@,
        }
    }
}

/// Taking each match for its view.
pub open spec fn match_view_of() -> spec_fn(GrepMatch) -> LineMatch {
    |m: GrepMatch| m@
}

/// The views of a list of matches.
pub open spec fn match_views(matches: Seq<GrepMatch>) -> Seq<LineMatch> {
    matches.map_values(match_view_of())
}

/// The parameters of a search in file contents.
pub struct GrepOptions {
    pub pattern: String,
    pub path: String,
    pub is_regex: bool,
    pub ignore_case: bool,
    pub recursive: bool,
    pub file_pattern: Option<String>,
    pub verbose: bool,
}

/// What a line gives that was searched and matched at `spans`: a match where
/// there is at least one span, else nothing.
pub open spec fn line_result(
    file: Seq<char>,
    number: nat,
    line: Seq<char>,
    spans: Seq<(usize, usize)>,
) -> Option<LineMatch> {
    if spans.len() > 0 {
        Some(LineMatch { file, line_number: number, line_content: line, match_positions: spans })
    } else {
        None
    }
}

/// The lines of a file in which the expression matches, in order, numbered
/// from 1.
pub open spec fn matching_lines(file: Seq<char>, lines: Seq<Seq<char>>, expression: Seq<char>) -> Seq<
    LineMatch,
>
    decreases lines.len(),
{
    if lines.len() == 0 {
        Seq::empty()
    } else {
        let before = matching_lines(file, lines.drop_last(), expression);
        match line_result(
            file,
            lines.len(),
            lines.last(),
            match_spans(expression, lines.last()),
        ) {
            Some(found) => before.push(found),
            None => before,
        }
    }
}

/// The number of matches in all lines together.
pub open spec fn total_spans(lines: Seq<Seq<char>>, expression: Seq<char>) -> nat
    decreases lines.len(),
{
    if lines.len() == 0 {
        0
    } else {
        total_spans(lines.drop_last(), expression) + match_spans(expression, lines.last()).len()
    }
}

/// The number of matches in the files together.
pub open spec fn total_matches(results: Seq<Vec<GrepMatch>>) -> nat
    decreases results.len(),
{
    if results.len() == 0 {
        0
    } else {
        total_matches(results.drop_last()) + results.last()@.len()
    }
}

/// The number of files with at least one match.
pub open spec fn files_with_matches(results: Seq<Vec<GrepMatch>>) -> nat
    decreases results.len(),
{
    if results.len() == 0 {
        0
    } else {
        files_with_matches(results.drop_last()) + if results.last()@.len() > 0 {
            1nat
        } else {
            0nat
        }
    }
}

/// A count as a machine word holds it: the count itself, or the largest word
/// where it is larger.
pub open spec fn capped(n: nat) -> usize {
    if n > usize::MAX {
        usize::MAX
    } else {
        n as usize
    }
}

/// What a searched line gives: a match where the pattern was found in it.
pub fn line_match(file: &str, number: usize, line: &str, spans: Vec<(usize, usize)>) -> (found:
    Option<GrepMatch>)
    ensures
        match found {
            Some(m) => line_result(file@, number as nat, line@, spans@) == Some(m@),
            None => line_result(file@, number as nat, line@, spans@) is None,
        },
{
    if spans.len() > 0 {
        Some(
            GrepMatch {
                file: file.to_owned(),
                line_number: number,
                line_content: line.to_owned(),
                match_positions: spans,
            },
        )
    } else {
        None
    }
}

/// Searches the lines of one file: every line in which the pattern is found
/// gives a match with the line's number and all places where it was found.
pub fn search_lines(file: &str, lines: &Vec<String>, matcher: &Matcher) -> (matches: Vec<GrepMatch>)
    ensures
        match_views(matches@) == matching_lines(file@, string_views(lines@), matcher.expression()),
{
    let ghost views = string_views(lines@);
    let ghost expression = matcher.expression();
    let mut matches: Vec<GrepMatch> = Vec::new();
    let mut i: usize = 0;
    proof {
        assert(views.take(0) =~= Seq::<Seq<char>>::empty());
        assert(match_views(matches@) =~= matching_lines(file@, views.take(0), expression));
    }
    while i < lines.len()
        invariant
            i <= lines.len(),
            views == string_views(lines@),
            expression == matcher.expression(),
            match_views(matches@) == matching_lines(file@, views.take(i as int), expression),
        decreases lines.len() - i,
    {
        proof {
            assert(views.take(i as int + 1).drop_last() =~= views.take(i as int));
            assert(views.take(i as int + 1).last() == lines[i as int]@);
        }
        let spans = matcher.find_spans(lines[i].as_str());
        match line_match(file, i + 1, lines[i].as_str(), spans) {
            Some(found) => {
                let ghost before = matches@;
                matches.push(found);
                proof {
                    before.lemma_push_map_commute(match_view_of(), found);
                }
            },
            None => {},
        }
        i += 1;
    }
    proof {
        assert(views.take(i as int) =~= views);
    }
    matches
}

/// Counts the matches in the lines of one file. Where there are more than a
/// machine word can count, the largest word is the answer.
pub fn count_matches(lines: &Vec<String>, matcher: &Matcher) -> (count: usize)
    ensures
        count == capped(total_spans(string_views(lines@), matcher.expression())),
{
    let ghost views = string_views(lines@);
    let ghost expression = matcher.expression();
    let mut count: usize = 0;
    let mut i: usize = 0;
    proof {
        assert(views.take(0) =~= Seq::<Seq<char>>::empty());
    }
    while i < lines.len()
        invariant
            i <= lines.len(),
            views == string_views(lines@),
            expression == matcher.expression(),
            count == capped(total_spans(views.take(i as int), expression)),
        decreases lines.len() - i,
    {
        proof {
            assert(views.take(i as int + 1).drop_last() =~= views.take(i as int));
            assert(views.take(i as int + 1).last() == lines[i as int]@);
        }
        let spans = matcher.find_spans(lines[i].as_str());
        count = count.saturating_add(spans.len());
        i += 1;
    }
    proof {
        assert(views.take(i as int) =~= views);
    }
    count
}

/// Sums up a search: the number of matches in all files, and the number of
/// files with at least one. Where there are more matches than a machine word
/// can count, the largest word is the answer.
pub fn summarize(results: &Vec<Vec<GrepMatch>>) -> (totals: (usize, usize))
    ensures
        totals.0 == capped(total_matches(results@)),
        totals.1 == files_with_matches(results@),
{
    let mut matches: usize = 0;
    let mut files: usize = 0;
    let mut i: usize = 0;
    proof {
        assert(results@.take(0) =~= Seq::<Vec<GrepMatch>>::empty());
    }
    while i < results.len()
        invariant
            i <= results.len(),
            matches == capped(total_matches(results@.take(i as int))),
            files == files_with_matches(results@.take(i as int)),
            files <= i,
        decreases results.len() - i,
    {
        proof {
            assert(results@.take(i as int + 1).drop_last() =~= results@.take(i as int));
            assert(results@.take(i as int + 1).last() == results[i as int]);
        }
        if results[i].len() > 0 {
            files += 1;
        }
        matches = matches.saturating_add(results[i].len());
        i += 1;
    }
    proof {
        assert(results@.take(i as int) =~= results@);
    }
    (matches, files)
}

impl GrepOptions {
    /// Compiles the pattern: as the regular expression that it is, or taken
    /// literally.
    pub fn compile(&self) -> (compiled: Result<Matcher, PatternError>)
        ensures
            match compiled {
                Ok(matcher) => matcher.expression() == content_expression(
                    self.pattern@,
                    self.is_regex,
                    self.ignore_case,
                ),
                Err(error) => error.pattern@ == self.pattern@,
            },
    {
        let expression = content_pattern(self.pattern.as_str(), self.is_regex, self.ignore_case);
        Matcher::compile(expression.as_str(), self.pattern.as_str())
    }

    /// How deep the walk goes: without limit where the search is recursive,
    /// else one level.
    pub fn walk_depth(&self) -> (depth: Option<usize>)
        ensures
            depth == if self.recursive {
                None
            } else {
                Some(1usize)
            },
    {
        if self.recursive {
            None
        } else {
            Some(1)
        }
    }

    /// Whether a file is searched. Where a file pattern is given, the file's
    /// name has to contain it; a name that is not text passes.
    pub fn takes_file(&self, file_name: Option<&str>) -> (takes: bool)
        ensures
            takes == match (self.file_pattern, file_name) {
                (Some(wanted), Some(name)) => occurs_in(wanted@, name@),
                _ => true,
            },
    {
        match &self.file_pattern {
            Some(wanted) => match file_name {
                Some(name) => contains_text(name, wanted.as_str()),
                None => true,
            },
            None => true,
        }
    }
}

} // verus!
