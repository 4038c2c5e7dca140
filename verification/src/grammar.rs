//! The forms of the lines in a Maven log, as properties of their characters.

use vstd::prelude::*;

use crate::pattern::regex_is_match;
use crate::text::{blank, last_of, until, white};

verus! {

/// Whether `c` is a decimal digit. Beyond ASCII these are the characters of the
/// regular expression class `\d`.
pub open spec fn digit(c: char) -> bool {
    if c <= '\u{7f}' {
        '0' <= c <= '9'
    } else {
        regex_is_match(r"\d"@, seq![c])
    }
}

/// How many white space characters `s` starts with.
pub open spec fn white_run(s: Seq<char>) -> nat
    decreases s.len(),
{
    if s.len() > 0 && white(s[0]) {
        1 + white_run(s.drop_first())
    } else {
        0
    }
}

/// How many characters other than white space `s` starts with.
pub open spec fn word_run(s: Seq<char>) -> nat
    decreases s.len(),
{
    if s.len() > 0 && !white(s[0]) {
        1 + word_run(s.drop_first())
    } else {
        0
    }
}

/// How many digits `s` starts with.
pub open spec fn digit_run(s: Seq<char>) -> nat
    decreases s.len(),
{
    if s.len() > 0 && digit(s[0]) {
        1 + digit_run(s.drop_first())
    } else {
        0
    }
}

/// How many dashes `s` starts with.
pub open spec fn dash_run(s: Seq<char>) -> nat
    decreases s.len(),
{
    if s.len() > 0 && s[0] == '-' {
        1 + dash_run(s.drop_first())
    } else {
        0
    }
}

/// What follows `head` in `s`, where `s` starts with it.
pub open spec fn after(s: Seq<char>, head: Seq<char>) -> Option<Seq<char>> {
    if head.is_prefix_of(s) {
        Some(s.skip(head.len() as int))
    } else {
        None
    }
}

/// What follows the white space that `s` starts with, of which there is some.
pub open spec fn after_white(s: Seq<char>) -> Option<Seq<char>> {
    if white_run(s) > 0 {
        Some(s.skip(white_run(s) as int))
    } else {
        None
    }
}

/// What follows `head` and then some white space.
pub open spec fn after_head(s: Seq<char>, head: Seq<char>) -> Option<Seq<char>> {
    match after(s, head) {
        Some(rest) => after_white(rest),
        None => None,
    }
}

/// Whether `s` starts with one or more characters other than white space, and
/// `end` directly behind them.
pub open spec fn word_then(s: Seq<char>, end: Seq<char>) -> bool {
    exists|n: int| 1 <= n <= word_run(s) && #[trigger] end.is_prefix_of(s.skip(n))
}

/// Whether `s` starts with one or more digits, and `end` directly behind them.
pub open spec fn digits_then(s: Seq<char>, end: Seq<char>) -> bool {
    digit_run(s) > 0 && end.is_prefix_of(s.skip(digit_run(s) as int))
}

/// Whether `s` starts with `head` and then a white space character.
pub open spec fn head_then_white(s: Seq<char>, head: Seq<char>) -> bool {
    after_head(s, head) is Some
}

/// A line that tells nothing: boilerplate of Maven, or no text at all.
pub open spec fn is_noise(s: Seq<char>) -> bool {
    ||| blank(s)
    ||| after(s, "[INFO]"@) matches Some(rest) && blank(rest)
    ||| "[INFO] Scanning for projects"@.is_prefix_of(s)
    ||| is_ruler(s)
    ||| "[INFO] ====="@.is_prefix_of(s)
    ||| head_then_white(s, "[INFO] Downloading"@)
    ||| head_then_white(s, "[INFO] Downloaded"@)
    ||| "Downloading:"@.is_prefix_of(s)
    ||| "Downloaded:"@.is_prefix_of(s)
    ||| "Progress"@.is_prefix_of(s)
    ||| "[INFO] --- maven-"@.is_prefix_of(s)
    ||| "[INFO] Using encoding"@.is_prefix_of(s)
    ||| "[INFO] skip non existing"@.is_prefix_of(s)
    ||| "[INFO] Nothing to compile"@.is_prefix_of(s)
    ||| after(s, "[INFO] Copying "@) matches Some(rest) && digits_then(rest, " resource"@)
    ||| "[INFO] Changes detected"@.is_prefix_of(s)
    ||| "[INFO] Finished at:"@.is_prefix_of(s)
    ||| names_pom(s)
    ||| "[INFO] Using auto detected provider"@.is_prefix_of(s)
}

/// A line of dashes, which may lead to a module's name in angle brackets.
pub open spec fn is_ruler(s: Seq<char>) -> bool {
    match after(s, "[INFO] "@) {
        Some(rest) => {
            let end = rest.skip(dash_run(rest) as int);
            dash_run(rest) > 0 && (end.len() == 0 || end[0] == '<')
        },
        None => false,
    }
}

/// A line that says which `pom.xml` a module is built from.
pub open spec fn names_pom(s: Seq<char>) -> bool {
    match after_head(s, "[INFO]"@) {
        Some(rest) => after_head(rest, "from"@) matches Some(path) && word_then(path, "/pom.xml"@),
        None => false,
    }
}

/// The line that opens the summary of a build of several modules.
pub open spec fn opens_summary(s: Seq<char>) -> bool {
    "[INFO] Reactor Summary"@.is_prefix_of(s)
}

/// Whether `s` is the end of a line on a module: two dots, the outcome, and a
/// bracket.
pub open spec fn module_outcome(s: Seq<char>) -> bool {
    match after_head(s, ".."@) {
        Some(rest) => {
            ||| after_head(rest, "SUCCESS"@) matches Some(end) && "["@.is_prefix_of(end)
            ||| after_head(rest, "FAILURE"@) matches Some(end) && "["@.is_prefix_of(end)
        },
        None => false,
    }
}

/// A line on one module in the summary: its name, dots, the outcome, and the
/// time in brackets.
pub open spec fn is_module_line(s: Seq<char>) -> bool {
    match after_head(s, "[INFO]"@) {
        Some(rest) => exists|n: int|
            1 <= n <= rest.len() && n <= 1 + until(rest.skip(1), '\n')
                && #[trigger] module_outcome(rest.skip(n)),
        None => false,
    }
}

/// A line on how many files are compiled.
pub open spec fn is_compiling(s: Seq<char>) -> bool {
    after(s, "[INFO] Compiling "@) matches Some(rest) && digits_then(rest, " source files"@)
}

/// Whether `s` starts with an absolute path, of Unix or with a drive letter.
pub open spec fn starts_with_path(s: Seq<char>) -> bool {
    ||| s.len() > 0 && s[0] == '/'
    ||| {
        &&& s.len() > 2
        &&& 'A' <= s[0] <= 'Z' || 'a' <= s[0] <= 'z'
        &&& s[1] == ':'
        &&& s[2] == '/' || s[2] == '\\'
    }
}

/// A diagnostic of the compiler: an error that names a file.
pub open spec fn is_compile_diagnostic(s: Seq<char>) -> bool {
    after_head(s, "[ERROR]"@) matches Some(rest) && starts_with_path(rest)
}

/// The line that opens the report on one failed test: its name, two dashes, and
/// the time that it took.
pub open spec fn opens_failure(s: Seq<char>) -> bool {
    match after_head(s, "[ERROR]"@) {
        Some(rest) => {
            let end = rest.skip(word_run(rest) as int);
            &&& word_run(rest) > 0
            &&& after_white(end) matches Some(dashes)
            &&& after_head(dashes, "--"@) matches Some(time)
            &&& "Time elapsed"@.is_prefix_of(time)
        },
        None => false,
    }
}

/// A line that names an exception of Java or an error of JUnit.
pub open spec fn names_exception(s: Seq<char>) -> bool {
    ||| after(s, "java."@) matches Some(rest) && word_then(rest, "Exception"@)
    ||| after(s, "java."@) matches Some(rest) && word_then(rest, "Error"@)
    ||| after(s, "org.junit."@) matches Some(rest) && word_then(rest, "Error"@)
}

/// An indented line of a stack trace.
pub open spec fn is_stack_frame(s: Seq<char>) -> bool {
    after_white(s) matches Some(rest) && head_then_white(rest, "at"@)
}

/// The verdict on the build, where the line gives it.
pub open spec fn verdict_in(s: Seq<char>) -> Option<Seq<char>> {
    if "[INFO] BUILD SUCCESS"@.is_prefix_of(s) {
        Some("SUCCESS"@)
    } else if "[INFO] BUILD FAILURE"@.is_prefix_of(s) {
        Some("FAILURE"@)
    } else {
        None
    }
}

/// The largest position in `s`, from one up to `most`, of a character that is
/// no line feed.
pub open spec fn message_start(s: Seq<char>, most: nat) -> Option<nat>
    decreases most,
{
    if most == 0 {
        None
    } else if most < s.len() && s[most as int] != '\n' {
        Some(most)
    } else {
        message_start(s, (most - 1) as nat)
    }
}

/// The message behind the white space that `s` starts with: it goes up to the
/// end of the line. Where there is nothing but white space, the message takes
/// the last of it.
pub open spec fn message_in(s: Seq<char>) -> Option<Seq<char>> {
    match message_start(s, white_run(s)) {
        Some(n) => {
            let message = s.skip(n as int);
            Some(message.take(until(message, '\n') as int))
        },
        None => None,
    }
}

/// The time that the build took, where the line gives it.
pub open spec fn time_in(s: Seq<char>) -> Option<Seq<char>> {
    match after(s, "[INFO] Total time:"@) {
        Some(rest) => message_in(rest),
        None => None,
    }
}

/// Whether `s` has a dot that is neither its first nor its last character.
pub open spec fn has_inner_dot(s: Seq<char>) -> bool {
    exists|i: int| 1 <= i < s.len() - 1 && #[trigger] s[i] == '.'
}

/// A test method with its class, the line number, and the message, where the
/// line is one of the list of failures.
pub open spec fn failure_in(s: Seq<char>) -> Option<(Seq<char>, Seq<char>, Seq<char>)> {
    match after_head(s, "[ERROR]"@) {
        Some(rest) => {
            let word = rest.take(word_run(rest) as int);
            match (last_of(word, ':'), message_in(rest.skip(word.len() as int))) {
                (Some(i), Some(message)) => {
                    let method = word.take(i as int);
                    let line = word.skip(i as int + 1);
                    if has_inner_dot(method) && line.len() > 0 && digit_run(line) == line.len() {
                        Some((method, line, message))
                    } else {
                        None
                    }
                },
                _ => None,
            }
        },
        None => None,
    }
}

/// The number behind `label` and optional white space, and what follows it.
pub open spec fn labelled(s: Seq<char>, label: Seq<char>) -> Option<(Seq<char>, Seq<char>)> {
    match after(s, label) {
        Some(rest) => {
            let value = rest.skip(white_run(rest) as int);
            let n = digit_run(value) as int;
            if n > 0 {
                Some((value.take(n), value.skip(n)))
            } else {
                None
            }
        },
        None => None,
    }
}

/// What follows a comma and optional white space.
pub open spec fn after_comma(s: Seq<char>) -> Option<Seq<char>> {
    match after(s, ","@) {
        Some(rest) => Some(rest.skip(white_run(rest) as int)),
        None => None,
    }
}

/// The number behind a comma and `label`, and what follows it.
pub open spec fn next_labelled(s: Seq<char>, label: Seq<char>) -> Option<(Seq<char>, Seq<char>)> {
    match after_comma(s) {
        Some(rest) => labelled(rest, label),
        None => None,
    }
}

/// The counts of tests that ran, failed, ended in an error and were skipped.
pub struct Counts {
    pub run: Seq<char>,
    pub failures: Seq<char>,
    pub errors: Seq<char>,
    pub skipped: Seq<char>,
}

/// The counts that `s` starts with.
pub open spec fn counts_at_start(s: Seq<char>) -> Option<Counts> {
    match labelled(s, "Tests run:"@) {
        Some((run, s1)) => match next_labelled(s1, "Failures:"@) {
            Some((failures, s2)) => match next_labelled(s2, "Errors:"@) {
                Some((errors, s3)) => match next_labelled(s3, "Skipped:"@) {
                    Some((skipped, _)) => Some(Counts { run, failures, errors, skipped }),
                    None => None,
                },
                None => None,
            },
            None => None,
        },
        None => None,
    }
}

/// The first counts in `s`.
pub open spec fn counts_in(s: Seq<char>) -> Option<Counts>
    decreases s.len(),
{
    if counts_at_start(s) is Some {
        counts_at_start(s)
    } else if s.len() == 0 {
        None
    } else {
        counts_in(s.drop_first())
    }
}

} // verus!
