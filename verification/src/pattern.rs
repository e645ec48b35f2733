//! Regular expressions: how the patterns that a user gives are written as
//! regular expressions, and how those are compiled and applied.

use crate::search::{glob_regex, glob_to_regex};
use crate::text::push_char;
use vstd::prelude::*;
use vstd::string::StringExecFns;

verus! {

/// `regex::Regex`, a compiled regular expression. Nothing of its inside is
/// known here.
#[verifier::external_type_specification]
#[verifier::external_body]
pub struct ExRegex(regex::Regex);

/// `regex::Error`, the error of compiling a regular expression. Nothing of
/// its inside is known here.
#[verifier::external_type_specification]
#[verifier::external_body]
pub struct ExRegexError(regex::Error);

/// The pattern that a compiled regular expression was made from.
pub uninterp spec fn source(regex: regex::Regex) -> Seq<char>;

/// Whether the regular expression `pattern` matches somewhere in `text`.
pub uninterp spec fn found_in(pattern: Seq<char>, text: Seq<char>) -> bool;

/// The matches of the regular expression `pattern` in `text`, from left to
/// right and without overlap, each as the byte offsets of its start and end.
pub uninterp spec fn match_spans(pattern: Seq<char>, text: Seq<char>) -> Seq<(usize, usize)>;

/// `regex::Regex::new`: compiles a pattern with the default options. Nothing
/// is claimed of when that succeeds; a compiled expression keeps the pattern
/// it was made from.
#[verifier::external_body]
fn regex_new(pattern: &str) -> (compiled: Result<regex::Regex, regex::Error>)
    ensures
        compiled matches Ok(regex) ==> source(regex) == pattern@,
{
    regex::Regex::new(pattern)
}

/// `regex::Error`'s `Display`: the reason why a pattern did not compile, for
/// people to read. Nothing is claimed of the text.
#[verifier::external_body]
fn regex_error_text(error: &regex::Error) -> String {
    format!("{}", error)
}

/// `regex::Regex::is_match`: whether the expression matches anywhere in the
/// text. The matching itself is not modelled.
#[verifier::external_body]
fn regex_is_match(regex: &regex::Regex, text: &str) -> (found: bool)
    ensures
        found == found_in(source(*regex), text@),
{
    regex.is_match(text)
}

/// `regex::Regex::find_iter`: all successive matches that do not overlap, each
/// as the byte offsets of its start and its end. The matching itself is not
/// modelled.
#[verifier::external_body]
fn regex_find_spans(regex: &regex::Regex, text: &str) -> (spans: Vec<(usize, usize)>)
    ensures
        spans@ == match_spans(source(*regex), text@),
{
    regex.find_iter(text).map(|m| (m.start(), m.end())).collect()
}

/// Whether a character has a meaning of its own in a regular expression.
pub open spec fn is_meta(c: char) -> bool {
    c == '\\' || c == '.' || c == '+' || c == '*' || c == '?' || c == '(' || c == ')' || c == '|'
        || c == '[' || c == ']' || c == '{' || c == '}' || c == '^' || c == '$' || c == '#' || c
        == '&' || c == '-' || c == '~'
}

/// A text with a backslash before each character that has a meaning of its
/// own in a regular expression.
pub open spec fn escaped(text: Seq<char>) -> Seq<char>
    decreases text.len(),
{
    if text.len() == 0 {
        Seq::empty()
    } else if is_meta(text.last()) {
        escaped(text.drop_last()).push('\\').push(text.last())
    } else {
        escaped(text.drop_last()).push(text.last())
    }
}

/// `regex::escape`: puts a backslash before each of the characters
/// `\ . + * ? ( ) | [ ] { } ^ $ # & - ~` and leaves all others as they are.
#[verifier::external_body]
fn regex_escape(text: &str) -> (quoted: String)
    ensures
        quoted@ == escaped(text@),
{
    regex::escape(text)
}

/// Why a pattern could not be used.
#[derive(Debug)]
pub struct PatternError {
    /// The pattern as the user gave it.
    pub pattern: String,
    /// What the compiler of regular expressions said.
    pub reason: String,
}

/// The regular expression for a pattern: with `(?i)` before it where case is
/// to be ignored.
pub open spec fn with_case(ignore_case: bool, expression: Seq<char>) -> Seq<char> {
    if ignore_case {
        seq!['(', '?', 'i', ')'] + expression
    } else {
        expression
    }
}

/// The regular expression by which file names are found: the pattern itself
/// where it is one, the expression that it becomes where it is a glob.
pub open spec fn name_expression(pattern: Seq<char>, is_regex: bool, ignore_case: bool) -> Seq<
    char,
> {
    with_case(
        ignore_case,
        if is_regex {
            pattern
        } else {
            glob_regex(pattern)
        },
    )
}

/// The regular expression by which lines are searched: the pattern itself
/// where it is one, the pattern taken literally where it is plain text.
pub open spec fn content_expression(pattern: Seq<char>, is_regex: bool, ignore_case: bool) -> Seq<
    char,
> {
    with_case(
        ignore_case,
        if is_regex {
            pattern
        } else {
            escaped(pattern)
        },
    )
}

/// Puts `(?i)` before an expression where case is to be ignored.
fn add_case(ignore_case: bool, expression: String) -> (out: String)
    ensures
        out@ == with_case(ignore_case, expression@),
{
    if ignore_case {
        let mut out = String::new();
        push_char(&mut out, '(');
        push_char(&mut out, '?');
        push_char(&mut out, 'i');
        push_char(&mut out, ')');
        out.append(expression.as_str());
        assert(out@ =~= seq!['(', '?', 'i', ')'] + expression@);
        out
    } else {
        expression
    }
}

/// Writes the regular expression by which file names are found.
pub fn name_pattern(pattern: &str, is_regex: bool, ignore_case: bool) -> (expression: String)
    ensures
        expression@ == name_expression(pattern@, is_regex, ignore_case),
{
    let base = if is_regex {
        String::from_str(pattern)
    } else {
        glob_to_regex(pattern)
    };
    add_case(ignore_case, base)
}

/// Writes the regular expression by which lines are searched.
pub fn content_pattern(pattern: &str, is_regex: bool, ignore_case: bool) -> (expression: String)
    ensures
        expression@ == content_expression(pattern@, is_regex, ignore_case),
{
    let base = if is_regex {
        String::from_str(pattern)
    } else {
        regex_escape(pattern)
    };
    add_case(ignore_case, base)
}

/// A compiled regular expression.
pub struct Matcher {
    regex: regex::Regex,
}

impl Matcher {
    /// The regular expression that this matcher was compiled from.
    pub closed spec fn expression(&self) -> Seq<char> {
        source(self.regex)
    }

    /// Compiles `expression`. Whether it can be compiled is for the compiler
    /// of regular expressions to say. `shown` is the pattern as the user gave
    /// it, which an error reports.
    pub fn compile(expression: &str, shown: &str) -> (compiled: Result<Matcher, PatternError>)
        ensures
            match compiled {
                Ok(matcher) => matcher.expression() == expression@,
                Err(error) => error.pattern@ == shown@,
            },
    {
        match regex_new(expression) {
            Ok(regex) => Ok(Matcher { regex }),
            Err(error) => Err(
                PatternError { pattern: String::from_str(shown), reason: regex_error_text(&error) },
            ),
        }
    }

    /// Whether the expression matches somewhere in `text`.
    pub fn is_match(&self, text: &str) -> (found: bool)
        ensures
            found == found_in(self.expression(), text@),
    {
        regex_is_match(&self.regex, text)
    }

    /// The matches in `text` from left to right, each as the byte offsets of
    /// its start and end.
    pub fn find_spans(&self, text: &str) -> (spans: Vec<(usize, usize)>)
        ensures
            spans@ == match_spans(self.expression(), text@),
    {
        regex_find_spans(&self.regex, text)
    }
}

} // verus!
