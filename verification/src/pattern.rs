//! The regular expressions that tell the lines of a Maven log apart, and the
//! calls into the `regex` crate that run them.

use vstd::prelude::*;

use crate::grammar::{
    counts_in, failure_in, is_compile_diagnostic, is_compiling, is_module_line, is_noise,
    is_stack_frame, names_exception, opens_failure, opens_summary, time_in, verdict_in,
};

verus! {

/// Boilerplate of Maven, all of it in one alternation.
pub const NOISE: &'static str =
    r"^(?:\[INFO\]\s*$|\[INFO\] Scanning for projects|\[INFO\] -+(?:<|$)|\[INFO\] ={5,}|\[INFO\] Downloading\s|\[INFO\] Downloaded\s|Downloading:|Downloaded:|Progress|\[INFO\] --- maven-|\[INFO\] Using encoding|\[INFO\] skip non existing|\[INFO\] Nothing to compile|\[INFO\] Copying \d+ resources?|\[INFO\] Changes detected|\[INFO\] Finished at:|\[INFO\]\s+from\s+\S+/pom\.xml|\[INFO\] Using auto detected provider|\s*$)";

/// The counts of Surefire: `Tests run: 4, Failures: 1, Errors: 0, Skipped: 0`.
pub const TEST_RESULT: &'static str =
    r"Tests run:\s*(\d+),\s*Failures:\s*(\d+),\s*Errors:\s*(\d+),\s*Skipped:\s*(\d+)";

/// A failure in the list of Surefire: `[ERROR]   FooTest.testBar:12 message`.
pub const FAILURE_SUMMARY: &'static str = r"^\[ERROR\]\s+(\S+\.\S+):(\d+)\s+(.+)";

/// The head of the report on a failure: `[ERROR] com.x.FooTest.testBar -- Time elapsed`.
pub const FAILURE_DETAIL: &'static str = r"^\[ERROR\]\s+(\S+)\s+--\s+Time elapsed";

/// A module in the reactor summary: `[INFO] core ..... SUCCESS [  1.2 s]`.
pub const REACTOR_LINE: &'static str = r"^\[INFO\]\s+\S.*\.\.\s+(SUCCESS|FAILURE)\s+\[";

/// A line of a stack trace.
pub const STACK_TRACE: &'static str = r"^\s+at\s+";

/// The line that names an exception or a failed assertion.
pub const EXCEPTION: &'static str =
    r"^(java\.\S+Exception|java\.\S+Error|org\.junit\.\S+Error)";

/// The verdict on the build.
pub const BUILD_STATUS: &'static str = r"^\[INFO\] BUILD (SUCCESS|FAILURE)";

/// The time that the build took.
pub const TOTAL_TIME: &'static str = r"^\[INFO\] Total time:\s+(.+)";

/// A diagnostic of the compiler. The path is absolute, of Unix or with the
/// drive letter of Windows.
pub const COMPILE_ERROR: &'static str = r"^\[ERROR\]\s+(?:/|[A-Za-z]:[\\/])";

/// The head of the reactor summary.
pub const REACTOR_SUMMARY: &'static str = r"^\[INFO\] Reactor Summary";

/// How many source files are compiled.
pub const COMPILING: &'static str = r"^\[INFO\] Compiling \d+ source files";

/// The type `regex::Regex`: a compiled regular expression.
#[verifier::external_type_specification]
#[verifier::external_body]
pub struct ExRegex(regex::Regex);

/// What `regex::Regex::is_match` returns for a pattern and a text.
pub uninterp spec fn regex_is_match(pattern: Seq<char>, text: Seq<char>) -> bool;

/// Whether `source` is one of the patterns of this module.
pub open spec fn is_rule(source: Seq<char>) -> bool {
    ||| source == NOISE@
    ||| source == TEST_RESULT@
    ||| source == FAILURE_SUMMARY@
    ||| source == FAILURE_DETAIL@
    ||| source == REACTOR_LINE@
    ||| source == STACK_TRACE@
    ||| source == EXCEPTION@
    ||| source == BUILD_STATUS@
    ||| source == TOTAL_TIME@
    ||| source == COMPILE_ERROR@
    ||| source == REACTOR_SUMMARY@
    ||| source == COMPILING@
}

/// Whether `source` is one of the patterns whose groups are read.
pub open spec fn is_capture_rule(source: Seq<char>) -> bool {
    ||| source == BUILD_STATUS@
    ||| source == TOTAL_TIME@
    ||| source == FAILURE_SUMMARY@
    ||| source == TEST_RESULT@
}

/// Whether the groups of a match, behind the whole match, hold `expected`; and
/// whether there is no match where nothing is expected.
pub open spec fn captured(r: Option<Vec<Option<String>>>, expected: Option<Seq<Seq<char>>>) -> bool {
    match (r, expected) {
        (Some(groups), Some(parts)) => {
            &&& groups@.len() == parts.len() + 1
            &&& forall|i: int|
                1 <= i <= parts.len() ==> (#[trigger] groups@[i] matches Some(s) && s@ == parts[i
                    - 1])
        },
        (None, None) => true,
        _ => false,
    }
}

/// A regular expression of this module, with the pattern that it was compiled
/// from. The fields are private and [`Pattern::new`] is all that sets them, so
/// that they always belong together.
pub struct Pattern {
    source: String,
    compiled: regex::Regex,
}

impl View for Pattern {
    type V = Seq<char>;

    /// The pattern.
    closed spec fn view(&self) -> Seq<char> {
        self.source@
    }
}

impl Pattern {
    /// `regex::Regex::new`: compiles a pattern. Each pattern of this module is
    /// within the syntax of the crate and small, so that it compiles.
    #[verifier::external_body]
    pub(crate) fn new(source: &str) -> (pattern: Pattern)
        requires
            is_rule(source@),
        ensures
            pattern@ == source@,
    {
        Pattern { source: source.to_string(), compiled: regex::Regex::new(source).unwrap() }
    }

    /// `regex::Regex::is_match`: whether the pattern matches somewhere in the
    /// text. The answer depends on the pattern and the text alone. For the
    /// patterns below it is said what they match, by the documented syntax of
    /// the crate: a literal matches itself, `^` and `$` are the ends of the
    /// text, `\s` is `White_Space`, `\S` its complement, `\d` the decimal
    /// digits, and `.` all but a line feed.
    #[verifier::external_body]
    pub(crate) fn is_match(&self, text: &str) -> (r: bool)
        ensures
            r == regex_is_match(self@, text@),
            self@ == NOISE@ ==> r == is_noise(text@),
            self@ == FAILURE_DETAIL@ ==> r == opens_failure(text@),
            self@ == REACTOR_LINE@ ==> r == is_module_line(text@),
            self@ == STACK_TRACE@ ==> r == is_stack_frame(text@),
            self@ == EXCEPTION@ ==> r == names_exception(text@),
            self@ == COMPILE_ERROR@ ==> r == is_compile_diagnostic(text@),
            self@ == REACTOR_SUMMARY@ ==> r == opens_summary(text@),
            self@ == COMPILING@ ==> r == is_compiling(text@),
    {
        self.compiled.is_match(text)
    }

    /// `regex::Regex::captures`: the groups of the first match in the text,
    /// with what each of them matched. It is said when there is a match and what
    /// the groups of each pattern hold: the first match is the leftmost, and
    /// repetitions take as much as they can. What the whole match holds, which
    /// comes before the groups, is left unsaid.
    #[verifier::external_body]
    pub(crate) fn captures(&self, text: &str) -> (r: Option<Vec<Option<String>>>)
        requires
            is_capture_rule(self@),
        ensures
            self@ == BUILD_STATUS@ ==> captured(
                r,
                match verdict_in(text@) {
                    Some(verdict) => Some(seq![verdict]),
                    None => None,
                },
            ),
            self@ == TOTAL_TIME@ ==> captured(
                r,
                match time_in(text@) {
                    Some(time) => Some(seq![time]),
                    None => None,
                },
            ),
            self@ == FAILURE_SUMMARY@ ==> captured(
                r,
                match failure_in(text@) {
                    Some((method, line, message)) => Some(seq![method, line, message]),
                    None => None,
                },
            ),
            self@ == TEST_RESULT@ ==> captured(
                r,
                match counts_in(text@) {
                    Some(c) => Some(seq![c.run, c.failures, c.errors, c.skipped]),
                    None => None,
                },
            ),
    {
        self.compiled.captures(text).map(
            |groups|
                groups.iter().map(|group| group.map(|m| m.as_str().to_string())).collect(),
        )
    }

    /// The only group of a pattern with one group.
    pub(crate) fn capture_one(&self, text: &str) -> (r: Option<String>)
        requires
            self@ == BUILD_STATUS@ || self@ == TOTAL_TIME@,
        ensures
            self@ == BUILD_STATUS@ ==> content(r) == verdict_in(text@),
            self@ == TOTAL_TIME@ ==> content(r) == time_in(text@),
    {
        match self.captures(text) {
            Some(mut groups) => {
                let last = groups.pop();
                match last {
                    Some(group) => group,
                    None => None,
                }
            },
            None => None,
        }
    }
}

/// The characters of a string, where there is one.
pub open spec fn content(s: Option<String>) -> Option<Seq<char>> {
    match s {
        Some(s) => Some(s@),
        None => None,
    }
}

} // verus!
