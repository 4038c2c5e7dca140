//! The report on a test run.

use vstd::prelude::*;

use crate::failure::{failure_models, FailureModel, MavenTestFailure};
use crate::log::{indented_lines, read_indented, show_time, time_note};
use crate::strings::{decimal_string, same, trim, truncate};
use crate::test_scan::{
    counts_fit, lemma_counts_stay_out_of_range, settled, test_scan, Tally, TallyModel,
    TestModel, TestRules, TestScan,
};
use crate::text::{concat, contents, decimal, trimmed, truncated};

verus! {

/// How many diagnostics of the compiler are shown.
pub const MAX_DIAGNOSTICS: usize = 10;

/// How many characters of a location are shown.
pub const MAX_LOCATION_WIDTH: usize = 100;

/// The line below the head of a report.
pub const RULER: &'static str = "=======================================\n";

/// The counts that are reported: those of the modules, or those of the classes
/// where the summaries of the modules count no test.
pub open spec fn totals(m: TestModel) -> TallyModel {
    if m.module.run == 0 && m.class.run > 0 {
        m.class
    } else {
        m.module
    }
}

/// How many tests did not pass.
pub open spec fn failed(t: TallyModel) -> nat {
    t.failures + t.errors
}

/// How many tests passed: those that ran and neither failed nor were skipped.
pub open spec fn passed(t: TallyModel) -> nat {
    if t.run >= failed(t) + t.skipped {
        (t.run - failed(t) - t.skipped) as nat
    } else {
        0
    }
}

/// Whether the numbers of a report are within the range of `usize`.
pub open spec fn reportable(m: TestModel) -> bool {
    counts_fit(m) && failed(totals(m)) + totals(m).skipped <= usize::MAX
}

/// The line on one diagnostic.
pub open spec fn diagnostic_line(diagnostic: Seq<char>) -> Seq<char> {
    "  "@ + diagnostic + "\n"@
}

/// The note on the diagnostics that are not shown.
pub open spec fn hidden_note(list: Seq<Seq<char>>) -> Seq<char> {
    if list.len() > MAX_DIAGNOSTICS {
        "  ... +"@ + decimal((list.len() - MAX_DIAGNOSTICS) as nat) + " more errors\n"@
    } else {
        seq![]
    }
}

/// The diagnostics that are shown.
pub open spec fn shown(list: Seq<Seq<char>>) -> Seq<Seq<char>> {
    if list.len() > MAX_DIAGNOSTICS {
        list.take(MAX_DIAGNOSTICS as int)
    } else {
        list
    }
}

/// The report on a run in which compilation failed.
pub open spec fn diagnostics_text(m: TestModel) -> Seq<char> {
    trimmed(
        "mvn test: "@ + decimal(m.diagnostics.len()) + " build errors"@ + time_note(m.time) + "\n"@
            + RULER@ + concat(
            shown(m.diagnostics).map_values(|d: Seq<char>| diagnostic_line(d)),
        ) + hidden_note(m.diagnostics),
    )
}

/// The report on a run without tests.
pub open spec fn no_tests_text(m: TestModel) -> Seq<char> {
    if m.diagnostics.len() > 0 {
        diagnostics_text(m)
    } else if m.verdict == "FAILURE"@ {
        "mvn test: BUILD FAILURE"@ + time_note(m.time)
    } else {
        "mvn test: no tests found"@ + time_note(m.time)
    }
}

/// The note on the tests that were skipped, where there are any.
pub open spec fn skipped_note(skipped: nat) -> Seq<char> {
    if skipped > 0 {
        ", "@ + decimal(skipped) + " skipped"@
    } else {
        seq![]
    }
}

/// The report on a run in which no test failed.
pub open spec fn passed_text(m: TestModel) -> Seq<char> {
    let t = totals(m);
    "mvn test: "@ + decimal(passed(t)) + " passed"@ + skipped_note(t.skipped) + time_note(m.time)
}

/// `text` on a line of its own, where there is one.
pub open spec fn optional_line(head: Seq<char>, text: Seq<char>) -> Seq<char> {
    if text.len() > 0 {
        head + text + "\n"@
    } else {
        seq![]
    }
}

/// The line on one line of a stack trace.
pub open spec fn stack_line(line: Seq<char>) -> Seq<char> {
    "    "@ + line + "\n"@
}

/// The entry on one failure.
pub open spec fn failure_text(f: FailureModel) -> Seq<char> {
    "  "@ + f.test_name + " FAILED\n"@ + optional_line("    "@, f.message) + optional_line(
        "    at "@,
        truncated(f.location, MAX_LOCATION_WIDTH as nat),
    ) + concat(f.stack_lines.map_values(|line: Seq<char>| stack_line(line)))
}

/// The report on a run with failures.
pub open spec fn failed_text(m: TestModel) -> Seq<char> {
    let t = totals(m);
    trimmed(
        "FAILED: "@ + decimal(failed(t)) + "/"@ + decimal(t.run) + " tests"@ + time_note(m.time)
            + "\n"@ + RULER@ + concat(settled(m).map_values(|f: FailureModel| failure_text(f))) + (
        if m.verdict == "FAILURE"@ {
            "\nBUILD FAILURE"@
        } else {
            seq![]
        }),
    )
}

/// The report on a test run.
pub open spec fn test_text(m: TestModel) -> Seq<char> {
    if totals(m).run == 0 {
        no_tests_text(m)
    } else if failed(totals(m)) == 0 {
        passed_text(m)
    } else {
        failed_text(m)
    }
}

/// Adds `text` on a line of its own, where there is one.
fn show_optional(r: &mut String, head: &str, text: &str)
    ensures
        final(r)@ == old(r)@ + optional_line(head@, text@),
{
    if !text.is_empty() {
        r.append(head);
        r.append(text);
        r.append("\n");
    }
    assert(r@ =~= old(r)@ + optional_line(head@, text@));
}

/// Adds the entry on one failure.
fn show_failure(r: &mut String, f: &MavenTestFailure)
    ensures
        final(r)@ == old(r)@ + failure_text(f@),
{
    r.append("  ");
    r.append(f.test_name.as_str());
    r.append(" FAILED\n");
    show_optional(r, "    ", f.message.as_str());
    show_optional(r, "    at ", truncate(f.location.as_str(), MAX_LOCATION_WIDTH).as_str());
    let ghost head = r@;
    let ghost stack = f@.stack_lines.map_values(|line: Seq<char>| stack_line(line));
    let mut i: usize = 0;
    assert(stack.take(0) =~= seq![]);
    assert(r@ =~= head + concat(stack.take(0)));
    while i < f.stack_lines.len()
        invariant
            i <= f.stack_lines@.len(),
            stack == f@.stack_lines.map_values(|line: Seq<char>| stack_line(line)),
            r@ == head + concat(stack.take(i as int)),
        decreases f.stack_lines@.len() - i,
    {
        r.append("    ");
        r.append(f.stack_lines[i].as_str());
        r.append("\n");
        assert(stack.take(i as int + 1).drop_last() =~= stack.take(i as int));
        assert(r@ =~= head + concat(stack.take(i as int + 1)));
        i += 1;
    }
    assert(stack.take(i as int) =~= stack);
    assert(r@ =~= old(r)@ + failure_text(f@));
}

/// Adds the entries on all failures.
fn show_failures(r: &mut String, failures: &Vec<MavenTestFailure>)
    ensures
        final(r)@ == old(r)@ + concat(
            failure_models(failures@).map_values(|f: FailureModel| failure_text(f)),
        ),
{
    let ghost entries = failure_models(failures@).map_values(|f: FailureModel| failure_text(f));
    let mut i: usize = 0;
    assert(entries.take(0) =~= seq![]);
    assert(r@ =~= old(r)@ + concat(entries.take(0)));
    while i < failures.len()
        invariant
            i <= failures@.len(),
            entries == failure_models(failures@).map_values(|f: FailureModel| failure_text(f)),
            r@ == old(r)@ + concat(entries.take(i as int)),
        decreases failures@.len() - i,
    {
        show_failure(r, &failures[i]);
        assert(entries.take(i as int + 1).drop_last() =~= entries.take(i as int));
        assert(r@ =~= old(r)@ + concat(entries.take(i as int + 1)));
        i += 1;
    }
    assert(entries.take(i as int) =~= entries);
}

/// Adds the first diagnostics, and a note on the others.
fn show_diagnostics(r: &mut String, list: &Vec<String>)
    ensures
        final(r)@ == old(r)@ + concat(
            shown(contents(list@)).map_values(|d: Seq<char>| diagnostic_line(d)),
        ) + hidden_note(contents(list@)),
{
    let ghost entries = shown(contents(list@)).map_values(|d: Seq<char>| diagnostic_line(d));
    let n: usize = if list.len() > MAX_DIAGNOSTICS { MAX_DIAGNOSTICS } else { list.len() };
    let mut i: usize = 0;
    assert(entries.take(0) =~= seq![]);
    assert(r@ =~= old(r)@ + concat(entries.take(0)));
    while i < n
        invariant
            i <= n <= list@.len(),
            n == entries.len(),
            entries == shown(contents(list@)).map_values(|d: Seq<char>| diagnostic_line(d)),
            r@ == old(r)@ + concat(entries.take(i as int)),
        decreases n - i,
    {
        r.append("  ");
        r.append(list[i].as_str());
        r.append("\n");
        assert(entries.take(i as int + 1).drop_last() =~= entries.take(i as int));
        assert(r@ =~= old(r)@ + concat(entries.take(i as int + 1)));
        i += 1;
    }
    assert(entries.take(i as int) =~= entries);
    if list.len() > MAX_DIAGNOSTICS {
        r.append("  ... +");
        r.append(decimal_string(list.len() - MAX_DIAGNOSTICS).as_str());
        r.append(" more errors\n");
    }
    assert(r@ =~= old(r)@ + concat(entries) + hidden_note(contents(list@)));
}

impl TestScan {
    /// The counts that are reported.
    fn reported_totals(&self) -> (t: Tally)
        ensures
            t@ == totals(self@),
    {
        if self.module.run == 0 && self.class.run > 0 {
            self.class
        } else {
            self.module
        }
    }

    /// Whether the numbers of the report are within the range of `usize`.
    pub fn is_reportable(&self) -> (r: bool)
        ensures
            r == reportable(self@),
    {
        let t = self.reported_totals();
        match t.failures.checked_add(t.errors) {
            Some(failed) => failed.checked_add(t.skipped).is_some(),
            None => false,
        }
    }

    /// The report on the test run.
    pub fn finish(self) -> (r: String)
        requires
            reportable(self@),
        ensures
            r@ == test_text(self@),
    {
        let ghost m = self@;
        let t = self.reported_totals();
        let failed: usize = t.failures + t.errors;
        let passed: usize = if t.run >= failed + t.skipped { t.run - (failed + t.skipped) } else { 0 };
        let mut scan = self;
        scan.settle();
        let time = show_time(scan.time.as_str());
        let mut r = String::new();
        if t.run == 0 {
            if !scan.diagnostics.is_empty() {
                r.append("mvn test: ");
                r.append(decimal_string(scan.diagnostics.len()).as_str());
                r.append(" build errors");
                r.append(time.as_str());
                r.append("\n");
                r.append(RULER);
                show_diagnostics(&mut r, &scan.diagnostics);
                return trim(r.as_str());
            }
            if same(scan.verdict.as_str(), "FAILURE") {
                r.append("mvn test: BUILD FAILURE");
            } else {
                r.append("mvn test: no tests found");
            }
            r.append(time.as_str());
            return r;
        }
        if failed == 0 {
            r.append("mvn test: ");
            r.append(decimal_string(passed).as_str());
            r.append(" passed");
            if t.skipped > 0 {
                r.append(", ");
                r.append(decimal_string(t.skipped).as_str());
                r.append(" skipped");
            }
            r.append(time.as_str());
            return r;
        }
        r.append("FAILED: ");
        r.append(decimal_string(failed).as_str());
        r.append("/");
        r.append(decimal_string(t.run).as_str());
        r.append(" tests");
        r.append(time.as_str());
        r.append("\n");
        r.append(RULER);
        show_failures(&mut r, &scan.failures);
        if same(scan.verdict.as_str(), "FAILURE") {
            r.append("\nBUILD FAILURE");
        }
        trim(r.as_str())
    }
}

/// Reads the output of a test run. None where a sum of counts is out of range.
fn scan_tests(output: &str) -> (r: Option<TestScan>)
    ensures
        match r {
            Some(scan) => scan@ == test_scan(indented_lines(output@)),
            None => !counts_fit(test_scan(indented_lines(output@))),
        },
{
    let log = read_indented(output);
    let rules = TestRules::new();
    let mut scan = TestScan::new();
    let ghost all = contents(log@);
    let mut i: usize = 0;
    assert(all.take(0) =~= seq![]);
    while i < log.len()
        invariant
            rules.wf(),
            i <= log@.len(),
            all == contents(log@),
            all == indented_lines(output@),
            scan@ == test_scan(all.take(i as int)),
        decreases log@.len() - i,
    {
        assert(all.take(i as int + 1).drop_last() =~= all.take(i as int));
        match scan.step(&rules, log[i].as_str()) {
            Some(next) => {
                scan = next;
            },
            None => {
                proof {
                    lemma_counts_stay_out_of_range(all, i as int + 1);
                }
                return None;
            },
        }
        i += 1;
    }
    assert(all.take(i as int) =~= all);
    Some(scan)
}

/// Whether the counts in the output of a test run, and their sums, are within the
/// range of `usize`.
pub fn counts_in_range(output: &str) -> (r: bool)
    ensures
        r == reportable(test_scan(indented_lines(output@))),
{
    match scan_tests(output) {
        Some(scan) => scan.is_reportable(),
        None => false,
    }
}

/// Condenses the output of a test run to the failures and a summary.
pub fn filter_mvn_test(output: &str) -> (r: String)
    requires
        reportable(test_scan(indented_lines(output@))),
    ensures
        r@ == test_text(test_scan(indented_lines(output@))),
{
    match scan_tests(output) {
        Some(scan) => scan.finish(),
        None => {
            assert(false);
            String::new()
        },
    }
}

/// Condenses the output of a test run. None where its counts or their sums are
/// out of the range of `usize`.
pub fn checked_filter_mvn_test(output: &str) -> (r: Option<String>)
    ensures
        match r {
            Some(text) => reportable(test_scan(indented_lines(output@))) && text@ == test_text(
                test_scan(indented_lines(output@)),
            ),
            None => !reportable(test_scan(indented_lines(output@))),
        },
{
    if counts_in_range(output) {
        Some(filter_mvn_test(output))
    } else {
        None
    }
}

} // verus!
