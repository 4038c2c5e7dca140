//! Holds the regular expressions to the description of the lines that they match,
//! on generated lines.

use regex::Regex;
use rtk_mvn::pattern::{
    BUILD_STATUS, COMPILE_ERROR, COMPILING, EXCEPTION, FAILURE_DETAIL, FAILURE_SUMMARY, NOISE,
    REACTOR_LINE, REACTOR_SUMMARY, STACK_TRACE, TEST_RESULT, TOTAL_TIME,
};

type Text = Vec<char>;

fn text(s: &str) -> Text {
    s.chars().collect()
}

fn white(c: char) -> bool {
    ('\u{9}'..='\u{d}').contains(&c)
        || ('\u{2000}'..='\u{200a}').contains(&c)
        || " \u{85}\u{a0}\u{1680}\u{2028}\u{2029}\u{202f}\u{205f}\u{3000}".contains(c)
}

/// The digits of the generated lines: ASCII, and two of the Arabic ones.
fn digit(c: char) -> bool {
    c.is_ascii_digit() || c == '\u{663}' || c == '\u{6f4}'
}

fn run(s: &[char], class: fn(char) -> bool) -> usize {
    s.iter().take_while(|c| class(**c)).count()
}

fn white_run(s: &[char]) -> usize {
    run(s, white)
}

fn word_run(s: &[char]) -> usize {
    run(s, |c| !white(c))
}

fn digit_run(s: &[char]) -> usize {
    run(s, digit)
}

fn starts(s: &[char], head: &str) -> bool {
    s.starts_with(&text(head))
}

fn after<'a>(s: &'a [char], head: &str) -> Option<&'a [char]> {
    if starts(s, head) {
        Some(&s[head.chars().count()..])
    } else {
        None
    }
}

fn after_white(s: &[char]) -> Option<&[char]> {
    if white_run(s) > 0 {
        Some(&s[white_run(s)..])
    } else {
        None
    }
}

fn after_head<'a>(s: &'a [char], head: &str) -> Option<&'a [char]> {
    after(s, head).and_then(after_white)
}

fn word_then(s: &[char], end: &str) -> bool {
    (1..=word_run(s)).any(|n| starts(&s[n..], end))
}

fn digits_then(s: &[char], end: &str) -> bool {
    digit_run(s) > 0 && starts(&s[digit_run(s)..], end)
}

fn blank(s: &[char]) -> bool {
    s.iter().all(|c| white(*c))
}

fn noise(s: &[char]) -> bool {
    let literals = [
        "[INFO] Scanning for projects",
        "[INFO] =====",
        "Downloading:",
        "Downloaded:",
        "Progress",
        "[INFO] --- maven-",
        "[INFO] Using encoding",
        "[INFO] skip non existing",
        "[INFO] Nothing to compile",
        "[INFO] Changes detected",
        "[INFO] Finished at:",
        "[INFO] Using auto detected provider",
    ];
    let ruler = after(s, "[INFO] ").is_some_and(|rest| {
        let dashes = run(rest, |c| c == '-');
        dashes > 0 && (rest.len() == dashes || rest[dashes] == '<')
    });
    let pom = after_head(s, "[INFO]")
        .and_then(|rest| after_head(rest, "from"))
        .is_some_and(|path| word_then(path, "/pom.xml"));
    blank(s)
        || after(s, "[INFO]").is_some_and(blank)
        || literals.iter().any(|literal| starts(s, literal))
        || ruler
        || after_head(s, "[INFO] Downloading").is_some()
        || after_head(s, "[INFO] Downloaded").is_some()
        || after(s, "[INFO] Copying ").is_some_and(|rest| digits_then(rest, " resource"))
        || pom
}

fn module_outcome(s: &[char]) -> bool {
    after_head(s, "..").is_some_and(|rest| {
        ["SUCCESS", "FAILURE"]
            .iter()
            .any(|outcome| after_head(rest, outcome).is_some_and(|end| starts(end, "[")))
    })
}

fn module_line(s: &[char]) -> bool {
    after_head(s, "[INFO]").is_some_and(|rest| {
        (1..=rest.len()).any(|n| !rest[1..n].contains(&'\n') && module_outcome(&rest[n..]))
    })
}

fn compiling(s: &[char]) -> bool {
    after(s, "[INFO] Compiling ").is_some_and(|rest| digits_then(rest, " source files"))
}

fn compile_diagnostic(s: &[char]) -> bool {
    after_head(s, "[ERROR]").is_some_and(|rest| match rest {
        ['/', ..] => true,
        [letter, ':', '/' | '\\', ..] => letter.is_ascii_alphabetic(),
        _ => false,
    })
}

fn opens_failure(s: &[char]) -> bool {
    after_head(s, "[ERROR]").is_some_and(|rest| {
        word_run(rest) > 0
            && after_white(&rest[word_run(rest)..])
                .and_then(|dashes| after_head(dashes, "--"))
                .is_some_and(|time| starts(time, "Time elapsed"))
    })
}

fn names_exception(s: &[char]) -> bool {
    after(s, "java.").is_some_and(|rest| word_then(rest, "Exception") || word_then(rest, "Error"))
        || after(s, "org.junit.").is_some_and(|rest| word_then(rest, "Error"))
}

fn stack_frame(s: &[char]) -> bool {
    after_white(s).is_some_and(|rest| after_head(rest, "at").is_some())
}

fn opens_summary(s: &[char]) -> bool {
    starts(s, "[INFO] Reactor Summary")
}

fn verdict(s: &[char]) -> Option<Vec<Text>> {
    ["SUCCESS", "FAILURE"]
        .iter()
        .find(|verdict| starts(s, &format!("[INFO] BUILD {}", verdict)))
        .map(|verdict| vec![text(verdict)])
}

fn message(s: &[char]) -> Option<Text> {
    let start = (1..=white_run(s))
        .rev()
        .find(|n| *n < s.len() && s[*n] != '\n')?;
    Some(s[start..].iter().take_while(|c| **c != '\n').cloned().collect())
}

fn time(s: &[char]) -> Option<Vec<Text>> {
    Some(vec![message(after(s, "[INFO] Total time:")?)?])
}

fn failure(s: &[char]) -> Option<Vec<Text>> {
    let rest = after_head(s, "[ERROR]")?;
    let word = &rest[..word_run(rest)];
    let colon = word.iter().rposition(|c| *c == ':')?;
    let message = message(&rest[word.len()..])?;
    let (method, line) = (&word[..colon], &word[colon + 1..]);
    let inner_dot = (1..method.len().saturating_sub(1)).any(|i| method[i] == '.');
    if inner_dot && !line.is_empty() && digit_run(line) == line.len() {
        Some(vec![method.to_vec(), line.to_vec(), message])
    } else {
        None
    }
}

fn counts_at_start(s: &[char]) -> Option<Vec<Text>> {
    let mut counts = Vec::new();
    let mut rest = s;
    for label in ["Tests run:", "Failures:", "Errors:", "Skipped:"] {
        if !counts.is_empty() {
            rest = after(rest, ",")?;
            rest = &rest[white_run(rest)..];
        }
        rest = after(rest, label)?;
        rest = &rest[white_run(rest)..];
        let n = digit_run(rest);
        if n == 0 {
            return None;
        }
        counts.push(rest[..n].to_vec());
        rest = &rest[n..];
    }
    Some(counts)
}

fn counts(s: &[char]) -> Option<Vec<Text>> {
    (0..=s.len()).find_map(|start| counts_at_start(&s[start..]))
}

const PIECES: [&str; 66] = [
    " ", "  ", "\t", "\n", "\r", "\u{2003}", "\u{85}", "\u{1c}", "a", ".", "..", ":", "-", "--",
    "---", "<", "=====", "[", "SUCCESS", "FAILURE", "at", "from", "/pom.xml", "x", "7", "12",
    "\u{663}", "Exception", "Error", "java.", "org.junit.", "Tests run:", "Failures:", ",",
    "Errors:", "Skipped:", "/", "C:\\", "D:/", "Time elapsed", "[INFO]", "[INFO] ", "[ERROR]",
    "[ERROR] ", "[INFO] Total time:", "[INFO] BUILD SUCCESS", "[INFO] BUILD FAILURE",
    "[INFO] Copying ", " resource", "[INFO] Compiling ", " source files", "[INFO] Reactor Summary",
    "[INFO] Downloading", "[INFO] Downloaded", "Progress", "com.x.FooTest.m", "com.A.t:12",
    "[INFO] --- maven-", "Downloading:", "[INFO] Using encoding", "foo.bar:9 ", ":3 msg", "\u{6f4}",
    "Tests run: 3, Failures: 1, Errors: 0, Skipped: 2", "[INFO] Finished at:", "é",
];

const FORMS: [&[&str]; 12] = [
    &["[INFO]", " ", "mod", " ", "..", ".", " ", "SUCCESS", " ", "["],
    &["[INFO]", " ", "m", "...", "\t", "FAILURE", "  ", "[", " 1 s]"],
    &["[INFO] Compiling ", "1", "2", " source files", " x"],
    &["[ERROR]", " ", "a.b.C.d", " ", "--", " ", "Time elapsed", ": 1"],
    &["[INFO] Copying ", "3", " resource", "s"],
    &["[INFO]", " ", "from", " ", "a", "/", "b", "/pom.xml"],
    &["[INFO] ", "-", "-", "<", " x"],
    &["Tests run:", " ", "3", ",", " ", "Failures:", "1", ",", "Errors:", "0", ",", "Skipped:", "4"],
    &["[ERROR]", " ", "a", ".", "b", ":", "12", " ", "msg", " x"],
    &["java.", "lang.", "Foo", "Exception", "x"],
    &["[INFO] Total time:", " ", "1", " s"],
    &[" ", "at", " ", "x"],
];

/// A line with some likeness to a form: a few pieces are put in, taken out or
/// replaced.
fn next_line(state: &mut u64) -> String {
    let mut pick = |n: usize| {
        *state = state.wrapping_mul(6364136223846793005).wrapping_add(1442695040888963407);
        ((*state >> 33) as usize) % n
    };
    let mut pieces: Vec<&str> = FORMS[pick(FORMS.len())].to_vec();
    if pick(4) == 0 {
        pieces.clear();
    }
    for _ in 0..pick(6) {
        let piece = PIECES[pick(PIECES.len())];
        let at = pick(pieces.len() + 1);
        match pick(3) {
            0 if at < pieces.len() => {
                pieces.remove(at);
            }
            1 if at < pieces.len() => pieces[at] = piece,
            _ => pieces.insert(at, piece),
        }
    }
    pieces.concat()
}

const LINES: usize = 30000;

/// Compares on generated lines. Both answers have to occur.
fn agree_on_matches(pattern: &str, described: fn(&[char]) -> bool) {
    let re = Regex::new(pattern).unwrap();
    let mut state = 7;
    let mut matches = 0;
    for _ in 0..LINES {
        let line = next_line(&mut state);
        let expected = described(&text(&line));
        assert_eq!(re.is_match(&line), expected, "{:?} on {:?}", pattern, line);
        matches += usize::from(expected);
    }
    assert!(0 < matches && matches < LINES);
}

fn agree_on_groups(pattern: &str, described: fn(&[char]) -> Option<Vec<Text>>) {
    let re = Regex::new(pattern).unwrap();
    let mut state = 11;
    let mut matches = 0;
    for _ in 0..LINES {
        let line = next_line(&mut state);
        let expected = described(&text(&line));
        let found = re.captures(&line).map(|groups| {
            groups
                .iter()
                .skip(1)
                .map(|group| text(group.unwrap().as_str()))
                .collect::<Vec<Text>>()
        });
        assert_eq!(found, expected, "{:?} on {:?}", pattern, line);
        matches += usize::from(expected.is_some());
    }
    assert!(0 < matches && matches < LINES);
}

#[test]
fn noise_is_as_described() {
    agree_on_matches(NOISE, noise);
}

#[test]
fn module_lines_are_as_described() {
    agree_on_matches(REACTOR_LINE, module_line);
}

#[test]
fn heads_of_summaries_are_as_described() {
    agree_on_matches(REACTOR_SUMMARY, opens_summary);
}

#[test]
fn compiling_lines_are_as_described() {
    agree_on_matches(COMPILING, compiling);
}

#[test]
fn compile_diagnostics_are_as_described() {
    agree_on_matches(COMPILE_ERROR, compile_diagnostic);
}

#[test]
fn heads_of_reports_are_as_described() {
    agree_on_matches(FAILURE_DETAIL, opens_failure);
}

#[test]
fn exceptions_are_as_described() {
    agree_on_matches(EXCEPTION, names_exception);
}

#[test]
fn stack_frames_are_as_described() {
    agree_on_matches(STACK_TRACE, stack_frame);
}

#[test]
fn verdicts_are_as_described() {
    agree_on_groups(BUILD_STATUS, verdict);
}

#[test]
fn times_are_as_described() {
    agree_on_groups(TOTAL_TIME, time);
}

#[test]
fn listed_failures_are_as_described() {
    agree_on_groups(FAILURE_SUMMARY, failure);
}

#[test]
fn counts_are_as_described() {
    agree_on_groups(TEST_RESULT, counts);
}
