//! The output of a test run, line by line.

use vstd::prelude::*;

use crate::failure::{
    compact, compact_test_name, failure_models, find_known, is_same_test, known_at, same_test,
    upsert_failure, upserted, FailureModel, MavenTestFailure,
};
use crate::grammar::{
    counts_in, failure_in, is_compile_diagnostic, is_stack_frame, names_exception,
    opens_failure, time_in, verdict_in, Counts,
};
use crate::pattern::{
    Pattern, BUILD_STATUS, COMPILE_ERROR, EXCEPTION, FAILURE_DETAIL, FAILURE_SUMMARY,
    STACK_TRACE, TEST_RESULT, TOTAL_TIME,
};
use crate::strings::{
    after_first, before_first, contains, parse_count, same, starts_with, strip_prefixes, trim,
    truncate,
};
use crate::text::{
    before, contents, count_value, find_in, holds, trimmed, truncated, without_prefixes,
};

verus! {

/// How many characters of a diagnostic of the compiler are kept.
pub const MAX_DIAGNOSTIC_WIDTH: usize = 150;

/// How many characters of a message or of a line of a stack trace are kept.
pub const MAX_MESSAGE_WIDTH: usize = 120;

/// How many lines of a stack trace are kept.
pub const MAX_STACK_LINES: usize = 3;

/// How many tests ran, failed, ended in an error and were skipped.
#[verifier::ext_equal]
pub struct TallyModel {
    pub run: nat,
    pub failures: nat,
    pub errors: nat,
    pub skipped: nat,
}

/// Whether the numbers are within the range of `usize`.
pub open spec fn tally_fits(t: TallyModel) -> bool {
    &&& t.run <= usize::MAX
    &&& t.failures <= usize::MAX
    &&& t.errors <= usize::MAX
    &&& t.skipped <= usize::MAX
}

/// A tally with the counts of one more line.
pub open spec fn tally_with(t: TallyModel, c: Counts) -> TallyModel {
    TallyModel {
        run: t.run + count_value(c.run),
        failures: t.failures + count_value(c.failures),
        errors: t.errors + count_value(c.errors),
        skipped: t.skipped + count_value(c.skipped),
    }
}

/// No tests at all.
pub open spec fn empty_tally() -> TallyModel {
    TallyModel { run: 0, failures: 0, errors: 0, skipped: 0 }
}

/// What has been gathered from the lines of a test run so far.
#[verifier::ext_equal]
pub struct TestModel {
    /// The sum of the summaries of the modules.
    pub module: TallyModel,
    /// The sum of the lines on single classes.
    pub class: TallyModel,
    /// The failures that are settled.
    pub failures: Seq<FailureModel>,
    /// The failure whose report was read last.
    pub current: Option<FailureModel>,
    /// Whether the report on that failure goes on.
    pub in_report: bool,
    /// Whether the failures are being listed.
    pub in_list: bool,
    /// The last verdict, empty where there was none.
    pub verdict: Seq<char>,
    /// The last total time, empty where there was none.
    pub time: Seq<char>,
    /// The diagnostics of the compiler, each of them once.
    pub diagnostics: Seq<Seq<char>>,
}

/// Nothing gathered yet.
pub open spec fn empty_test_model() -> TestModel {
    TestModel {
        module: empty_tally(),
        class: empty_tally(),
        failures: seq![],
        current: None,
        in_report: false,
        in_list: false,
        verdict: seq![],
        time: seq![],
        diagnostics: seq![],
    }
}

/// `list` with `entry` at the end, where it does not hold it yet.
pub open spec fn with_new(list: Seq<Seq<char>>, entry: Seq<char>) -> Seq<Seq<char>> {
    if list.contains(entry) {
        list
    } else {
        list.push(entry)
    }
}

/// The diagnostics once `line` is read.
pub open spec fn diagnostics_with(list: Seq<Seq<char>>, line: Seq<char>) -> Seq<Seq<char>> {
    if is_compile_diagnostic(line) {
        with_new(list, truncated(line, MAX_DIAGNOSTIC_WIDTH as nat))
    } else {
        list
    }
}

/// A failure as the list of failures gives it.
pub open spec fn listed_failure(
    method: Seq<char>,
    line: Seq<char>,
    message: Seq<char>,
) -> FailureModel {
    FailureModel {
        test_name: compact(method),
        fqn: seq![],
        message: truncated(message, MAX_MESSAGE_WIDTH as nat),
        location: method + ":"@ + line,
        stack_lines: seq![],
    }
}

/// A line that ends the list of failures.
pub open spec fn closes_list(line: Seq<char>) -> bool {
    ||| line.len() == 0
    ||| "[INFO]"@.is_prefix_of(line)
    ||| "[ERROR] Tests run:"@.is_prefix_of(line)
}

/// The name of the test in the line that opens its report.
pub open spec fn reported_name(line: Seq<char>) -> Seq<char> {
    before(without_prefixes(line, "[ERROR] "@), " -- "@)
}

/// A failure of which only the name is known.
pub open spec fn named_failure(name: Seq<char>) -> FailureModel {
    FailureModel {
        test_name: compact(name),
        fqn: name,
        message: seq![],
        location: seq![],
        stack_lines: seq![],
    }
}

/// The settled failures together with the one whose report was read last.
pub open spec fn settled(m: TestModel) -> Seq<FailureModel> {
    match m.current {
        Some(f) => upserted(m.failures, f),
        None => m.failures,
    }
}

/// A line that says what went wrong.
pub open spec fn tells_cause(line: Seq<char>) -> bool {
    names_exception(line) || "java.lang.Assertion"@.is_prefix_of(line)
}

/// What went wrong, without the name of the exception.
pub open spec fn cause(line: Seq<char>) -> Seq<char> {
    match find_in(line, ": "@) {
        Some(i) => truncated(line.skip(i as int + 2), MAX_MESSAGE_WIDTH as nat),
        None => truncated(line, MAX_MESSAGE_WIDTH as nat),
    }
}

/// A line of a stack trace within JUnit or the runtime of Java.
pub open spec fn within_framework(line: Seq<char>) -> bool {
    ||| holds(line, "org.junit."@)
    ||| holds(line, "java.base/"@)
    ||| holds(line, "jdk.internal"@)
    ||| holds(line, "sun.reflect"@)
}

/// A line that ends the report on a failure.
pub open spec fn closes_report(line: Seq<char>) -> bool {
    ||| line.len() == 0
    ||| "[INFO]"@.is_prefix_of(line)
    ||| "[ERROR]"@.is_prefix_of(line)
}

/// The effect of a line within the report on the failure `f`. The lines of a stack
/// trace are known by their indentation, which the other lines do without.
pub open spec fn report_step(m: TestModel, f: FailureModel, raw: Seq<char>) -> TestModel {
    let line = trimmed(raw);
    if tells_cause(line) {
        TestModel { current: Some(FailureModel { message: cause(line), ..f }), ..m }
    } else if is_stack_frame(raw) && f.stack_lines.len() < MAX_STACK_LINES {
        if within_framework(line) {
            m
        } else {
            let frame = truncated(line, MAX_MESSAGE_WIDTH as nat);
            TestModel {
                current: Some(FailureModel { stack_lines: f.stack_lines.push(frame), ..f }),
                ..m
            }
        }
    } else if closes_report(line) {
        TestModel { in_report: false, ..m }
    } else {
        m
    }
}

/// The effect of a line of counts. A line on a single class says in which class
/// the tests are, the summary of a module does not.
pub open spec fn count_step(m: TestModel, line: Seq<char>, c: Counts) -> TestModel {
    if holds(line, " -- in "@) {
        TestModel { class: tally_with(m.class, c), ..m }
    } else {
        TestModel { module: tally_with(m.module, c), ..m }
    }
}

/// The effect of a line that is not part of the list of failures.
pub open spec fn plain_step(m: TestModel, raw: Seq<char>) -> TestModel {
    let line = trimmed(raw);
    if counts_in(line) is Some {
        count_step(m, line, counts_in(line)->0)
    } else if opens_failure(line) {
        TestModel {
            failures: settled(m),
            current: Some(named_failure(reported_name(line))),
            in_report: true,
            ..m
        }
    } else if m.in_report && m.current is Some {
        report_step(m, m.current->0, raw)
    } else {
        m
    }
}

/// Whether a listed failure and the failure whose report was read last belong in
/// one entry.
pub open spec fn joins_report(m: TestModel, listed: FailureModel) -> bool {
    match m.current {
        Some(f) => same_test(f, listed) && known_at(m.failures, f) == known_at(m.failures, listed),
        None => false,
    }
}

/// What the list adds on a failure. Where the report that was read last is on the
/// same failure and has a message, the message is left to the report, which comes
/// before the list and tells more.
pub open spec fn added_by_list(m: TestModel, listed: FailureModel) -> FailureModel {
    if joins_report(m, listed) && (m.current->0).message.len() > 0 {
        FailureModel { message: seq![], ..listed }
    } else {
        listed
    }
}

/// The effect of a line that gives neither the verdict nor the total time.
pub open spec fn body_step(m: TestModel, raw: Seq<char>) -> TestModel {
    let line = trimmed(raw);
    if line == "[ERROR] Failures:"@ {
        TestModel { in_list: true, ..m }
    } else if m.in_list && failure_in(line) is Some {
        let (method, number, message) = failure_in(line)->0;
        let listed = listed_failure(method, number, message);
        TestModel { failures: upserted(m.failures, added_by_list(m, listed)), ..m }
    } else {
        plain_step(TestModel { in_list: m.in_list && !closes_list(line), ..m }, raw)
    }
}

/// What has been gathered once one more line is read, which may be indented.
pub open spec fn test_step(m: TestModel, raw: Seq<char>) -> TestModel {
    let line = trimmed(raw);
    if verdict_in(line) is Some {
        TestModel { verdict: verdict_in(line)->0, ..m }
    } else if time_in(line) is Some {
        TestModel { time: time_in(line)->0, ..m }
    } else {
        body_step(TestModel { diagnostics: diagnostics_with(m.diagnostics, line), ..m }, raw)
    }
}

/// What the lines of a log give.
pub open spec fn test_scan(log: Seq<Seq<char>>) -> TestModel
    decreases log.len(),
{
    if log.len() == 0 {
        empty_test_model()
    } else {
        test_step(test_scan(log.drop_last()), log.last())
    }
}

/// Whether the sums of the counts are within the range of `usize`.
pub open spec fn counts_fit(m: TestModel) -> bool {
    tally_fits(m.module) && tally_fits(m.class)
}

/// A sum of counts that is out of range stays so.
pub(crate) proof fn lemma_counts_stay_out_of_range(log: Seq<Seq<char>>, n: int)
    requires
        0 <= n <= log.len(),
        !counts_fit(test_scan(log.take(n))),
    ensures
        !counts_fit(test_scan(log)),
    decreases log.len(),
{
    if n < log.len() {
        assert(log.drop_last().take(n) =~= log.take(n));
        lemma_counts_stay_out_of_range(log.drop_last(), n);
    } else {
        assert(log.take(n) =~= log);
    }
}

/// How many tests ran, failed, ended in an error and were skipped.
#[derive(Clone, Copy)]
pub struct Tally {
    pub run: usize,
    pub failures: usize,
    pub errors: usize,
    pub skipped: usize,
}

impl View for Tally {
    type V = TallyModel;

    open spec fn view(&self) -> TallyModel {
        TallyModel {
            run: self.run as nat,
            failures: self.failures as nat,
            errors: self.errors as nat,
            skipped: self.skipped as nat,
        }
    }
}

impl Tally {
    /// No tests at all.
    fn zero() -> (t: Tally)
        ensures
            t@ == empty_tally(),
    {
        Tally { run: 0, failures: 0, errors: 0, skipped: 0 }
    }

    /// The sum of two tallies, if it is in range.
    fn plus(&self, other: &Tally) -> (r: Option<Tally>)
        ensures
            ({
                let sum = TallyModel {
                    run: self@.run + other@.run,
                    failures: self@.failures + other@.failures,
                    errors: self@.errors + other@.errors,
                    skipped: self@.skipped + other@.skipped,
                };
                match r {
                    Some(t) => t@ == sum,
                    None => !tally_fits(sum),
                }
            }),
    {
        let run = self.run.checked_add(other.run);
        let failures = self.failures.checked_add(other.failures);
        let errors = self.errors.checked_add(other.errors);
        let skipped = self.skipped.checked_add(other.skipped);
        match (run, failures, errors, skipped) {
            (Some(run), Some(failures), Some(errors), Some(skipped)) => Some(
                Tally { run, failures, errors, skipped },
            ),
            _ => None,
        }
    }
}

/// The patterns that tell the lines of a test run apart.
pub struct TestRules {
    verdict: Pattern,
    time: Pattern,
    diagnostic: Pattern,
    listed: Pattern,
    counts: Pattern,
    reported: Pattern,
    exception: Pattern,
    frame: Pattern,
}

impl TestRules {
    /// Whether each pattern is the one that its name says.
    pub closed spec fn wf(&self) -> bool {
        &&& self.verdict@ == BUILD_STATUS@
        &&& self.time@ == TOTAL_TIME@
        &&& self.diagnostic@ == COMPILE_ERROR@
        &&& self.listed@ == FAILURE_SUMMARY@
        &&& self.counts@ == TEST_RESULT@
        &&& self.reported@ == FAILURE_DETAIL@
        &&& self.exception@ == EXCEPTION@
        &&& self.frame@ == STACK_TRACE@
    }

    /// Compiles the patterns.
    pub fn new() -> (rules: TestRules)
        ensures
            rules.wf(),
    {
        TestRules {
            verdict: Pattern::new(BUILD_STATUS),
            time: Pattern::new(TOTAL_TIME),
            diagnostic: Pattern::new(COMPILE_ERROR),
            listed: Pattern::new(FAILURE_SUMMARY),
            counts: Pattern::new(TEST_RESULT),
            reported: Pattern::new(FAILURE_DETAIL),
            exception: Pattern::new(EXCEPTION),
            frame: Pattern::new(STACK_TRACE),
        }
    }

    /// The counts in a line, by their values.
    fn count(&self, line: &str) -> (r: Option<Tally>)
        requires
            self.wf(),
        ensures
            match counts_in(line@) {
                Some(c) => r matches Some(t) && t@ == tally_with(empty_tally(), c),
                None => r is None,
            },
    {
        match self.counts.captures(line) {
            Some(groups) => {
                match (&groups[1], &groups[2], &groups[3], &groups[4]) {
                    (Some(run), Some(failures), Some(errors), Some(skipped)) => Some(
                        Tally {
                            run: parse_count(run.as_str()),
                            failures: parse_count(failures.as_str()),
                            errors: parse_count(errors.as_str()),
                            skipped: parse_count(skipped.as_str()),
                        },
                    ),
                    _ => None,
                }
            },
            None => None,
        }
    }

    /// The failure in a line of the list of failures.
    fn failure(&self, line: &str) -> (r: Option<MavenTestFailure>)
        requires
            self.wf(),
        ensures
            match failure_in(line@) {
                Some((method, number, message)) => r matches Some(f) && f@ == listed_failure(
                    method,
                    number,
                    message,
                ),
                None => r is None,
            },
    {
        match self.listed.captures(line) {
            Some(groups) => {
                match (&groups[1], &groups[2], &groups[3]) {
                    (Some(method), Some(number), Some(message)) => {
                        let mut location = method.clone();
                        location.append(":");
                        location.append(number.as_str());
                        let f = MavenTestFailure {
                            test_name: compact_test_name(method.as_str()),
                            fqn: String::new(),
                            message: truncate(message.as_str(), MAX_MESSAGE_WIDTH),
                            location,
                            stack_lines: Vec::new(),
                        };
                        assert(f@ =~= listed_failure(method@, number@, message@));
                        Some(f)
                    },
                    _ => None,
                }
            },
            None => None,
        }
    }
}

/// What has been gathered from the lines of a test run so far.
pub struct TestScan {
    pub module: Tally,
    pub class: Tally,
    pub failures: Vec<MavenTestFailure>,
    pub current: Option<MavenTestFailure>,
    pub in_report: bool,
    pub in_list: bool,
    pub verdict: String,
    pub time: String,
    pub diagnostics: Vec<String>,
}

impl View for TestScan {
    type V = TestModel;

    open spec fn view(&self) -> TestModel {
        TestModel {
            module: self.module@,
            class: self.class@,
            failures: failure_models(self.failures@),
            current: match self.current {
                Some(f) => Some(f@),
                None => None,
            },
            in_report: self.in_report,
            in_list: self.in_list,
            verdict: self.verdict@,
            time: self.time@,
            diagnostics: contents(self.diagnostics@),
        }
    }
}

/// Whether a list holds an entry.
fn has_entry(list: &Vec<String>, entry: &str) -> (r: bool)
    ensures
        r == contents(list@).contains(entry@),
{
    let mut i: usize = 0;
    while i < list.len()
        invariant
            i <= list@.len(),
            forall|k: int| 0 <= k < i ==> contents(list@)[k] != entry@,
        decreases list@.len() - i,
    {
        if same(list[i].as_str(), entry) {
            assert(contents(list@)[i as int] == entry@);
            return true;
        }
        i += 1;
    }
    false
}

impl TestScan {
    /// Nothing gathered yet.
    pub fn new() -> (scan: TestScan)
        ensures
            scan@ == empty_test_model(),
    {
        let scan = TestScan {
            module: Tally::zero(),
            class: Tally::zero(),
            failures: Vec::new(),
            current: None,
            in_report: false,
            in_list: false,
            verdict: String::new(),
            time: String::new(),
            diagnostics: Vec::new(),
        };
        assert(scan@ =~= empty_test_model());
        scan
    }

    /// Notes a diagnostic of the compiler. Maven prints each of them twice.
    fn note_diagnostic(&mut self, rules: &TestRules, line: &str)
        requires
            rules.wf(),
        ensures
            final(self)@ == (TestModel {
                diagnostics: diagnostics_with(old(self)@.diagnostics, line@),
                ..old(self)@
            }),
    {
        if rules.diagnostic.is_match(line) {
            let entry = truncate(line, MAX_DIAGNOSTIC_WIDTH);
            if !has_entry(&self.diagnostics, entry.as_str()) {
                self.diagnostics.push(entry);
                assert(contents(self.diagnostics@) =~= old(self)@.diagnostics.push(entry@));
            }
        }
        assert(self@ =~= (TestModel {
            diagnostics: diagnostics_with(old(self)@.diagnostics, line@),
            ..old(self)@
        }));
    }

    /// Moves the failure whose report was read last to the settled ones.
    pub(crate) fn settle(&mut self)
        ensures
            final(self)@ == (TestModel {
                failures: settled(old(self)@),
                current: None,
                ..old(self)@
            }),
    {
        if let Some(f) = self.current.take() {
            upsert_failure(&mut self.failures, f);
        }
    }

    /// What the list adds on a failure: the message is left to the report on the
    /// same failure, if that has one.
    fn added_by_list(&self, listed: MavenTestFailure) -> (r: MavenTestFailure)
        ensures
            r@ == added_by_list(self@, listed@),
    {
        let mut r = listed;
        if let Some(f) = &self.current {
            if is_same_test(f, &r) && find_known(&self.failures, f) == find_known(
                &self.failures,
                &r,
            ) && !f.message.as_str().is_empty() {
                r.message = String::new();
                assert(r@ =~= added_by_list(self@, listed@));
            }
        }
        r
    }

    /// Reads a line within the report on a failure.
    fn read_report(&mut self, rules: &TestRules, raw: &str, line: &str)
        requires
            rules.wf(),
            old(self)@.current is Some,
            line@ == trimmed(raw@),
        ensures
            final(self)@ == report_step(old(self)@, old(self)@.current->0, raw@),
    {
        if let Some(mut f) = self.current.take() {
            let ghost before = f@;
            if rules.exception.is_match(line) || starts_with(line, "java.lang.Assertion") {
                let text = match after_first(line, ": ") {
                    Some(message) => message,
                    None => line.to_owned(),
                };
                f.message = truncate(text.as_str(), MAX_MESSAGE_WIDTH);
                proof {
                    reveal_strlit(": ");
                }
            } else if rules.frame.is_match(raw) && f.stack_lines.len() < MAX_STACK_LINES {
                if !contains(line, "org.junit.") && !contains(line, "java.base/") && !contains(
                    line,
                    "jdk.internal",
                ) && !contains(line, "sun.reflect") {
                    f.stack_lines.push(truncate(line, MAX_MESSAGE_WIDTH));
                    assert(f@.stack_lines =~= before.stack_lines.push(
                        truncated(line@, MAX_MESSAGE_WIDTH as nat),
                    ));
                }
            } else if line.is_empty() || starts_with(line, "[INFO]") || starts_with(
                line,
                "[ERROR]",
            ) {
                self.in_report = false;
            }
            self.current = Some(f);
        }
    }

    /// Adds the counts of a line to those of the classes or of the modules. None
    /// where a sum is out of range.
    fn add_counts(self, line: &str, tally: &Tally) -> (r: Option<TestScan>)
        requires
            counts_in(line@) is Some,
            tally@ == tally_with(empty_tally(), counts_in(line@)->0),
        ensures
            ({
                let m = count_step(self@, line@, counts_in(line@)->0);
                match r {
                    Some(scan) => scan@ == m,
                    None => !counts_fit(m),
                }
            }),
    {
        let mut scan = self;
        if contains(line, " -- in ") {
            match scan.class.plus(tally) {
                Some(sum) => {
                    scan.class = sum;
                    Some(scan)
                },
                None => None,
            }
        } else {
            match scan.module.plus(tally) {
                Some(sum) => {
                    scan.module = sum;
                    Some(scan)
                },
                None => None,
            }
        }
    }

    /// Reads a line that is not part of the list of failures.
    fn read_plain(self, rules: &TestRules, raw: &str, line: &str) -> (r: Option<TestScan>)
        requires
            rules.wf(),
            line@ == trimmed(raw@),
        ensures
            match r {
                Some(scan) => scan@ == plain_step(self@, raw@),
                None => !counts_fit(plain_step(self@, raw@)),
            },
    {
        if let Some(tally) = rules.count(line) {
            return self.add_counts(line, &tally);
        }
        let mut scan = self;
        if rules.reported.is_match(line) {
            scan.settle();
            let name = before_first(strip_prefixes(line, "[ERROR] ").as_str(), " -- ");
            let f = MavenTestFailure {
                test_name: compact_test_name(name.as_str()),
                fqn: name,
                message: String::new(),
                location: String::new(),
                stack_lines: Vec::new(),
            };
            assert(f@ =~= named_failure(reported_name(line@)));
            scan.current = Some(f);
            scan.in_report = true;
            return Some(scan);
        }
        if scan.in_report && scan.current.is_some() {
            scan.read_report(rules, raw, line);
        }
        Some(scan)
    }

    /// Reads one more line, with its indentation. None where a sum of counts is out
    /// of range.
    pub fn step(self, rules: &TestRules, raw: &str) -> (r: Option<TestScan>)
        requires
            rules.wf(),
        ensures
            match r {
                Some(scan) => scan@ == test_step(self@, raw@) && counts_fit(scan@),
                None => !counts_fit(test_step(self@, raw@)),
            },
    {
        let trimmed_line = trim(raw);
        let line = trimmed_line.as_str();
        let mut scan = self;
        if let Some(verdict) = rules.verdict.capture_one(line) {
            scan.verdict = verdict;
            return Some(scan);
        }
        if let Some(time) = rules.time.capture_one(line) {
            scan.time = time;
            return Some(scan);
        }
        // Where compilation fails no test runs, and the diagnostics are all that
        // there is to report.
        scan.note_diagnostic(rules, line);
        if same(line, "[ERROR] Failures:") {
            scan.in_list = true;
            return Some(scan);
        }
        if scan.in_list {
            if let Some(f) = rules.failure(line) {
                let entry = scan.added_by_list(f);
                upsert_failure(&mut scan.failures, entry);
                return Some(scan);
            }
            if line.is_empty() || starts_with(line, "[INFO]") || starts_with(
                line,
                "[ERROR] Tests run:",
            ) {
                scan.in_list = false;
            }
        }
        scan.read_plain(rules, raw, line)
    }
}

/// Whether a line is a diagnostic of the compiler.
pub fn is_compile_error(line: &str) -> (r: bool)
    ensures
        r == is_compile_diagnostic(line@),
{
    Pattern::new(COMPILE_ERROR).is_match(line)
}

} // verus!
