//! Finding files by name: glob patterns, size limits and the tests that an
//! entry has to pass.

use crate::pattern::{found_in, name_expression, name_pattern, Matcher, PatternError};
use crate::text::{
    optional_chars, push_char, same_text, starts_with_char, to_uppercase, trim, trimmed,
    uppercase,
};
use vstd::prelude::*;

verus! {

/// What one character of a glob pattern becomes in a regular expression: `*`
/// stands for any run of characters, `?` for any one character, and every
/// character that a regular expression reads specially is escaped.
pub open spec fn glob_char(c: char) -> Seq<char> {
    if c == '*' {
        seq!['.', '*']
    } else if c == '?' {
        seq!['.']
    } else if c == '.' || c == '+' || c == '(' || c == ')' || c == '[' || c == ']' || c == '{'
        || c == '}' || c == '^' || c == '$' || c == '|' || c == '\\' {
        seq!['\\', c]
    } else {
        seq![c]
    }
}

/// The characters of a glob pattern, each as it reads in a regular expression.
pub open spec fn glob_body(pattern: Seq<char>) -> Seq<char>
    decreases pattern.len(),
{
    if pattern.len() == 0 {
        Seq::empty()
    } else {
        glob_body(pattern.drop_last()) + glob_char(pattern.last())
    }
}

/// The regular expression that matches exactly the names that a glob pattern
/// matches: the pattern's characters between `^` and `$`.
pub open spec fn glob_regex(pattern: Seq<char>) -> Seq<char> {
    seq!['^'] + glob_body(pattern) + seq!['$']
}

/// Turns a glob pattern into a regular expression that is anchored at both
/// ends.
pub fn glob_to_regex(pattern: &str) -> (regex: String)
    ensures
        regex@ == glob_regex(pattern@),
{
    let mut regex = String::new();
    push_char(&mut regex, '^');
    proof {
        assert(pattern@.take(0) =~= Seq::<char>::empty());
        assert(regex@ =~= seq!['^'] + glob_body(pattern@.take(0)));
    }
    for ch in it: pattern.chars()
        invariant
            it.seq() == pattern@,
            regex@ == seq!['^'] + glob_body(pattern@.take(it.index() as int)),
    {
        let ghost i = it.index() as int;
        let ghost before = regex@;
        proof {
            assert(pattern@.take(i + 1).drop_last() =~= pattern@.take(i));
            assert(pattern@.take(i + 1).last() == ch);
        }
        if ch == '*' {
            push_char(&mut regex, '.');
            push_char(&mut regex, '*');
        } else if ch == '?' {
            push_char(&mut regex, '.');
        } else if ch == '.' || ch == '+' || ch == '(' || ch == ')' || ch == '[' || ch == ']'
            || ch == '{' || ch == '}' || ch == '^' || ch == '$' || ch == '|' || ch == '\\' {
            push_char(&mut regex, '\\');
            push_char(&mut regex, ch);
        } else {
            push_char(&mut regex, ch);
        }
        proof {
            assert(regex@ =~= before + glob_char(ch));
            assert(regex@ =~= seq!['^'] + glob_body(pattern@.take(i + 1)));
        }
    }
    proof {
        assert(pattern@.take(pattern@.len() as int) =~= pattern@);
    }
    push_char(&mut regex, '$');
    assert(regex@ =~= glob_regex(pattern@));
    regex
}

/// The value of a decimal digit.
pub open spec fn digit_value(c: char) -> Option<nat> {
    if c == '0' {
        Some(0)
    } else if c == '1' {
        Some(1)
    } else if c == '2' {
        Some(2)
    } else if c == '3' {
        Some(3)
    } else if c == '4' {
        Some(4)
    } else if c == '5' {
        Some(5)
    } else if c == '6' {
        Some(6)
    } else if c == '7' {
        Some(7)
    } else if c == '8' {
        Some(8)
    } else if c == '9' {
        Some(9)
    } else {
        None
    }
}

/// The value of a run of decimal digits; none where the run is empty or holds
/// anything but digits.
pub open spec fn digits_value(digits: Seq<char>) -> Option<nat>
    decreases digits.len(),
{
    if digits.len() == 0 {
        None
    } else if digits.len() == 1 {
        digit_value(digits[0])
    } else {
        match (digits_value(digits.drop_last()), digit_value(digits.last())) {
            (Some(high), Some(low)) => Some(high * 10 + low),
            _ => None,
        }
    }
}

/// The value of a number as it is written: digits, and a `+` before them if
/// one likes.
pub open spec fn number_value(text: Seq<char>) -> Option<nat> {
    if text.len() > 0 && text[0] == '+' {
        digits_value(text.skip(1))
    } else {
        digits_value(text)
    }
}

/// The factor that a unit letter at the end of a size stands for: `K`, `M`,
/// `G` and `T` are the powers of 1024.
pub open spec fn unit_factor(c: char) -> Option<nat> {
    if c == 'K' {
        Some(1024)
    } else if c == 'M' {
        Some(1024 * 1024)
    } else if c == 'G' {
        Some(1024 * 1024 * 1024)
    } else if c == 'T' {
        Some(1024 * 1024 * 1024 * 1024)
    } else {
        None
    }
}

/// The number of bytes that a size stands for: a number, or a number with a
/// unit letter behind it. None where the number is not well written.
pub open spec fn size_value(text: Seq<char>) -> Option<nat> {
    if text.len() > 0 && unit_factor(text.last()) is Some {
        match number_value(text.drop_last()) {
            Some(n) => Some(n * unit_factor(text.last())->0),
            None => None,
        }
    } else {
        number_value(text)
    }
}

/// The number that a size is made of, without its unit letter.
pub open spec fn size_number(text: Seq<char>) -> Option<nat> {
    if text.len() > 0 && unit_factor(text.last()) is Some {
        number_value(text.drop_last())
    } else {
        number_value(text)
    }
}

/// Why a size could not be read.
#[derive(Debug, Clone, Copy, PartialEq, Eq, Structural)]
pub enum SizeError {
    /// The number is not well written, or does not fit in 64 bits.
    Invalid,
    /// The number is fine, but with its unit it does not fit in 64 bits.
    TooLarge,
}

/// What reading a size gives: the number of bytes; or that the number is not
/// well written or does not fit in 64 bits; or that the number is fine but
/// does not fit once its unit is applied.
pub open spec fn size_reading(text: Seq<char>) -> Result<u64, SizeError> {
    match (size_number(text), size_value(text)) {
        (Some(n), Some(v)) => if n > u64::MAX {
            Err(SizeError::Invalid)
        } else if v > u64::MAX {
            Err(SizeError::TooLarge)
        } else {
            Ok(v as u64)
        },
        _ => Err(SizeError::Invalid),
    }
}

/// What reading a size gives as a user writes it: white space around it and
/// the case of the unit letter do not matter.
pub open spec fn user_size_reading(text: Seq<char>) -> Result<u64, SizeError> {
    size_reading(uppercase(trimmed(text)))
}

/// The value of a decimal digit.
fn digit_of(c: char) -> (value: Option<u64>)
    ensures
        match value {
            Some(d) => digit_value(c) == Some(d as nat) && d < 10,
            None => digit_value(c) is None,
        },
{
    match c {
        '0' => Some(0),
        '1' => Some(1),
        '2' => Some(2),
        '3' => Some(3),
        '4' => Some(4),
        '5' => Some(5),
        '6' => Some(6),
        '7' => Some(7),
        '8' => Some(8),
        '9' => Some(9),
        _ => None,
    }
}

/// The factor that a unit letter stands for.
fn factor_of(c: char) -> (factor: Option<u64>)
    ensures
        match factor {
            Some(f) => unit_factor(c) == Some(f as nat),
            None => unit_factor(c) is None,
        },
{
    match c {
        'K' => Some(1024),
        'M' => Some(1024 * 1024),
        'G' => Some(1024 * 1024 * 1024),
        'T' => Some(1024 * 1024 * 1024 * 1024),
        _ => None,
    }
}

/// Reads the digits `chars[from..to]` as a number; none where they are not a
/// number that fits in 64 bits.
fn read_digits(chars: &Vec<char>, from: usize, to: usize) -> (value: Option<u64>)
    requires
        from <= to <= chars.len(),
    ensures
        match value {
            Some(v) => digits_value(chars@.subrange(from as int, to as int)) == Some(v as nat),
            None => match digits_value(chars@.subrange(from as int, to as int)) {
                Some(v) => v > u64::MAX,
                None => true,
            },
        },
{
    if from == to {
        return None;
    }
    let ghost run = chars@.subrange(from as int, to as int);
    let mut acc: u64 = 0;
    let mut overflow = false;
    let mut i: usize = from;
    while i < to
        invariant
            from <= i <= to <= chars.len(),
            from < to,
            run == chars@.subrange(from as int, to as int),
            i > from ==> match digits_value(run.take(i - from)) {
                Some(v) => if overflow {
                    v > u64::MAX
                } else {
                    v == acc
                },
                None => false,
            },
            i == from ==> acc == 0 && !overflow,
        decreases to - i,
    {
        let ghost seen = run.take(i - from);
        let ghost next = run.take(i - from + 1);
        proof {
            assert(next.drop_last() =~= seen);
            assert(next.last() == chars@[i as int]);
            if i == from {
                assert(next.len() == 1);
                assert(next[0] == chars@[i as int]);
            }
        }
        match digit_of(chars[i]) {
            Some(d) => {
                if !overflow {
                    match acc.checked_mul(10) {
                        Some(shifted) => match shifted.checked_add(d) {
                            Some(sum) => {
                                acc = sum;
                            },
                            None => {
                                overflow = true;
                            },
                        },
                        None => {
                            overflow = true;
                        },
                    }
                }
            },
            None => {
                proof {
                    lemma_bad_digit(run, i - from);
                }
                return None;
            },
        }
        i += 1;
    }
    proof {
        assert(run.take(to - from) =~= run);
    }
    if overflow {
        None
    } else {
        Some(acc)
    }
}

/// A run that holds anything but a digit has no value.
proof fn lemma_bad_digit(run: Seq<char>, at: int)
    requires
        0 <= at < run.len(),
        digit_value(run[at]) is None,
    ensures
        digits_value(run) is None,
    decreases run.len(),
{
    if run.len() > 1 && at < run.len() - 1 {
        lemma_bad_digit(run.drop_last(), at);
    }
}

/// Reads a size that is already trimmed and in upper case: a number of
/// bytes, or a number followed by `K`, `M`, `G` or `T` for the powers of
/// 1024. The number may have a `+` before it.
pub fn parse_size_text(text: &str) -> (size: Result<u64, SizeError>)
    ensures
        size == size_reading(text@),
{
    let mut chars: Vec<char> = Vec::new();
    for c in it: text.chars()
        invariant
            it.seq() == text@,
            chars@ == text@.take(it.index() as int),
    {
        chars.push(c);
        assert(text@.take(it.index() as int + 1) =~= text@.take(it.index() as int).push(c));
    }
    assert(chars@ =~= text@);
    let n = chars.len();
    let (end, factor) = if n > 0 {
        match factor_of(chars[n - 1]) {
            Some(f) => (n - 1, f),
            None => (n, 1),
        }
    } else {
        (n, 1)
    };
    let start: usize = if end > 0 && chars[0] == '+' {
        1
    } else {
        0
    };
    proof {
        let number = chars@.subrange(0, end as int);
        if end < n {
            assert(number =~= text@.drop_last());
        } else {
            assert(number =~= text@);
        }
        if start == 1 {
            assert(chars@.subrange(1, end as int) =~= number.skip(1));
        } else {
            assert(chars@.subrange(0, end as int) =~= number);
        }
    }
    match read_digits(&chars, start, end) {
        Some(number) => match number.checked_mul(factor) {
            Some(bytes) => Ok(bytes),
            None => Err(SizeError::TooLarge),
        },
        None => Err(SizeError::Invalid),
    }
}

/// Reads a size as a user writes it: white space around it and the case of
/// the unit letter do not matter.
pub fn parse_size(size_str: &str) -> (size: Result<u64, SizeError>)
    ensures
        size == user_size_reading(size_str@),
{
    let text = to_uppercase(trim(size_str));
    parse_size_text(text.as_str())
}

/// What kind of thing a directory entry is.
#[derive(Debug, Clone, Copy, PartialEq, Eq, Structural)]
pub enum EntryKind {
    File,
    Dir,
    Symlink,
    Other,
}

/// What the file system tells of an entry beyond its name and kind.
#[derive(Debug, Clone, Copy)]
pub struct EntryMetadata {
    /// Size in bytes.
    pub size: u64,
    /// Seconds since the entry was last modified, where that is known and
    /// not in the future.
    pub age_secs: Option<u64>,
}

/// A directory entry as a search sees it.
#[derive(Debug)]
pub struct EntryFacts {
    /// The entry's own name, without its directory.
    pub name: String,
    pub kind: EntryKind,
    /// Nothing where the entry's metadata could not be read.
    pub metadata: Option<EntryMetadata>,
}

/// How the results of a search are shown.
#[derive(Debug, Clone, Copy, PartialEq, Eq, Structural)]
pub enum OutputFormat {
    Plain,
    Detailed,
    Json,
}

/// The parameters of a search for files.
pub struct SearchCommand {
    pub pattern: String,
    pub path: String,
    pub ignore_case: bool,
    pub regex: bool,
    pub file_type: Option<String>,
    pub min_size: Option<String>,
    pub max_size: Option<String>,
    pub modified_days: Option<u64>,
    pub recursive: bool,
    pub max_depth: Option<usize>,
    pub hidden: bool,
    pub output: String,
    /// A command to run on each file found; `{}` in it stands for the path.
    pub exec_command: Option<String>,
    pub verbose: bool,
    pub quiet: bool,
    pub follow_links: bool,
}

/// Whether an entry is left out as hidden: its name begins with a dot, and it
/// is not the directory that the walk started from.
pub open spec fn is_hidden(name: Seq<char>, depth: usize) -> bool {
    name.len() > 0 && name[0] == '.' && depth > 0
}

/// Whether the kind of an entry passes a filter on the type. `file` or `f`
/// asks for files, `dir` or `d` for directories, `symlink` or `l` for
/// symbolic links; any other word asks for nothing.
pub open spec fn kind_allowed(file_type: Option<Seq<char>>, kind: EntryKind) -> bool {
    match file_type {
        None => true,
        Some(wanted) => {
            if wanted == "file"@ || wanted == "f"@ {
                kind == EntryKind::File
            } else if wanted == "dir"@ || wanted == "d"@ {
                kind == EntryKind::Dir
            } else if wanted == "symlink"@ || wanted == "l"@ {
                kind == EntryKind::Symlink
            } else {
                true
            }
        },
    }
}

/// Whether the size and age of an entry pass the limits. An entry whose
/// metadata could not be read passes; so does one whose age is not known.
pub open spec fn metadata_allowed(
    metadata: Option<EntryMetadata>,
    min_size: Option<u64>,
    max_size: Option<u64>,
    modified_days: Option<u64>,
) -> bool {
    match metadata {
        None => true,
        Some(m) => {
            &&& min_size matches Some(min) ==> m.size >= min
            &&& max_size matches Some(max) ==> m.size <= max
            &&& modified_days matches Some(days) ==> (m.age_secs matches Some(age) ==> age <= days
                * 86400)
        },
    }
}

/// One of the two size limits of a search.
#[derive(Debug, Clone, Copy, PartialEq, Eq, Structural)]
pub enum SizeLimit {
    Minimum,
    Maximum,
}

/// A size limit that could not be read.
#[derive(Debug, Clone, Copy, PartialEq, Eq, Structural)]
pub struct LimitError {
    /// The limit that could not be read.
    pub limit: SizeLimit,
    /// Why it could not be read.
    pub error: SizeError,
}

/// One size limit as it is read: none where none is written.
pub open spec fn limit_of(text: Option<Seq<char>>) -> Result<Option<u64>, SizeError> {
    match text {
        None => Ok(None),
        Some(t) => match user_size_reading(t) {
            Ok(bytes) => Ok(Some(bytes)),
            Err(error) => Err(error),
        },
    }
}

/// The two size limits as they are read, the lower one first: the first
/// that cannot be read is the error.
pub open spec fn size_limits_of(min: Option<Seq<char>>, max: Option<Seq<char>>) -> Result<
    (Option<u64>, Option<u64>),
    LimitError,
> {
    match limit_of(min) {
        Err(error) => Err(LimitError { limit: SizeLimit::Minimum, error }),
        Ok(low) => match limit_of(max) {
            Err(error) => Err(LimitError { limit: SizeLimit::Maximum, error }),
            Ok(high) => Ok((low, high)),
        },
    }
}

/// The format that a name stands for: `json`, `detailed`, or anything else
/// for the plain list.
pub open spec fn format_named(name: Seq<char>) -> OutputFormat {
    if name == "json"@ {
        OutputFormat::Json
    } else if name == "detailed"@ {
        OutputFormat::Detailed
    } else {
        OutputFormat::Plain
    }
}

/// Whether the kind of an entry passes a filter on the type.
pub fn allows_kind(file_type: &Option<String>, kind: EntryKind) -> (allowed: bool)
    ensures
        allowed == kind_allowed(optional_chars(*file_type), kind),
{
    match file_type {
        None => true,
        Some(wanted) => {
            let wanted = wanted.as_str();
            if same_text(wanted, "file") || same_text(wanted, "f") {
                kind == EntryKind::File
            } else if same_text(wanted, "dir") || same_text(wanted, "d") {
                kind == EntryKind::Dir
            } else if same_text(wanted, "symlink") || same_text(wanted, "l") {
                kind == EntryKind::Symlink
            } else {
                true
            }
        },
    }
}

/// Whether the size and age of an entry pass the limits.
pub fn allows_metadata(
    metadata: &Option<EntryMetadata>,
    min_size: Option<u64>,
    max_size: Option<u64>,
    modified_days: Option<u64>,
) -> (allowed: bool)
    ensures
        allowed == metadata_allowed(*metadata, min_size, max_size, modified_days),
{
    match metadata {
        None => true,
        Some(m) => {
            if let Some(min) = min_size {
                if m.size < min {
                    return false;
                }
            }
            if let Some(max) = max_size {
                if m.size > max {
                    return false;
                }
            }
            if let Some(days) = modified_days {
                if let Some(age) = m.age_secs {
                    match days.checked_mul(86400) {
                        Some(limit) => {
                            if age > limit {
                                return false;
                            }
                        },
                        None => {},
                    }
                }
            }
            true
        },
    }
}

impl SearchCommand {
    /// Compiles the pattern as the regular expression that it is.
    pub fn compile_regex(&self) -> (compiled: Result<Matcher, PatternError>)
        ensures
            match compiled {
                Ok(matcher) => matcher.expression() == name_expression(
                    self.pattern@,
                    true,
                    self.ignore_case,
                ),
                Err(error) => error.pattern@ == self.pattern@,
            },
    {
        let expression = name_pattern(self.pattern.as_str(), true, self.ignore_case);
        Matcher::compile(expression.as_str(), self.pattern.as_str())
    }

    /// Compiles the pattern as the glob that it is.
    pub fn compile_glob_to_regex(&self) -> (compiled: Result<Matcher, PatternError>)
        ensures
            match compiled {
                Ok(matcher) => matcher.expression() == name_expression(
                    self.pattern@,
                    false,
                    self.ignore_case,
                ),
                Err(error) => error.pattern@ == self.pattern@,
            },
    {
        let expression = name_pattern(self.pattern.as_str(), false, self.ignore_case);
        Matcher::compile(expression.as_str(), self.pattern.as_str())
    }

    /// Reads the two size limits, the lower one first. Where a limit is not
    /// given there is none; where one cannot be read, that is the error.
    pub fn size_limits(&self) -> (limits: Result<(Option<u64>, Option<u64>), LimitError>)
        ensures
            limits == size_limits_of(optional_chars(self.min_size), optional_chars(self.max_size)),
    {
        let min = match &self.min_size {
            Some(text) => match parse_size(text.as_str()) {
                Ok(bytes) => Some(bytes),
                Err(error) => {
                    return Err(LimitError { limit: SizeLimit::Minimum, error });
                },
            },
            None => None,
        };
        let max = match &self.max_size {
            Some(text) => match parse_size(text.as_str()) {
                Ok(bytes) => Some(bytes),
                Err(error) => {
                    return Err(LimitError { limit: SizeLimit::Maximum, error });
                },
            },
            None => None,
        };
        Ok((min, max))
    }

    /// How deep the walk goes: one level where the search is not recursive,
    /// else as deep as `max_depth` says, or without limit.
    pub fn walk_depth(&self) -> (depth: Option<usize>)
        ensures
            depth == if !self.recursive {
                Some(1usize)
            } else {
                self.max_depth
            },
    {
        if !self.recursive {
            Some(1)
        } else {
            self.max_depth
        }
    }

    /// Whether the walk takes an entry, and goes into it if it is a
    /// directory: hidden entries are left out unless they are asked for.
    pub fn should_process_entry(&self, file_name: &str, depth: usize) -> (process: bool)
        ensures
            process == (self.hidden || !is_hidden(file_name@, depth)),
    {
        if !self.hidden {
            if starts_with_char(file_name, '.') && depth > 0 {
                return false;
            }
        }
        true
    }

    /// Whether an entry whose name matched passes the other tests: the kind
    /// asked for, the size limits, and the age limit.
    pub fn passes_filters(
        &self,
        entry: &EntryFacts,
        min_size: Option<u64>,
        max_size: Option<u64>,
    ) -> (passes: bool)
        ensures
            passes == (kind_allowed(optional_chars(self.file_type), entry.kind)
                && metadata_allowed(entry.metadata, min_size, max_size, self.modified_days)),
    {
        allows_kind(&self.file_type, entry.kind) && allows_metadata(
            &entry.metadata,
            min_size,
            max_size,
            self.modified_days,
        )
    }

    /// Whether an entry is a result of the search: its name matches the
    /// pattern and it passes the filters.
    pub fn matches_criteria(
        &self,
        entry: &EntryFacts,
        pattern: &Matcher,
        min_size: Option<u64>,
        max_size: Option<u64>,
    ) -> (matches: bool)
        ensures
            matches == (found_in(pattern.expression(), entry.name@) && kind_allowed(
                optional_chars(self.file_type),
                entry.kind,
            ) && metadata_allowed(entry.metadata, min_size, max_size, self.modified_days)),
    {
        if !pattern.is_match(entry.name.as_str()) {
            return false;
        }
        self.passes_filters(entry, min_size, max_size)
    }

    /// The format in which the results are shown.
    pub fn output_format(&self) -> (format: OutputFormat)
        ensures
            format == format_named(self.output@),
    {
        if same_text(self.output.as_str(), "json") {
            OutputFormat::Json
        } else if same_text(self.output.as_str(), "detailed") {
            OutputFormat::Detailed
        } else {
            OutputFormat::Plain
        }
    }
}

} // verus!
