//! What the report on a test run says.

use vstd::prelude::*;

use crate::failure::{upserted, FailureModel};
use crate::form_laws::are_digits;
use crate::grammar::{is_compile_diagnostic, message_start, time_in, white_run, Counts};
use crate::grammar_laws::lemma_decimal;
use crate::keep_laws::cut;
use crate::log::{indented_lines, log_lines, time_note};
use crate::run_laws::law_one_summary_decides;
use crate::string_laws::{law_long_text_is_cut, law_texts_are_joined, law_time_stands_in_brackets};
use crate::test_laws::{
    diagnostic_of, law_failed_report_starts_with_totals, lemma_diagnostics,
};
use crate::test_report::{
    diagnostic_line, failure_text, hidden_note, reportable, shown, stack_line, test_text, totals,
    RULER,
};
use crate::test_scan::{settled, test_scan, TallyModel, TestModel};
use crate::text::{
    concat, count_value, decimal, joined, lines_of, trim_back, trim_front, trimmed, truncated,
    white,
};
use crate::text_laws::{
    is_full_line, law_joined_lines_are_read_back, law_log_lines_are_single, lemma_trim_ends,
    lemma_trim_front_stays, lemma_until_feed, without_feed,
};

verus! {

/// The sums that a report is on: those of the modules where they count any test, and
/// else those of the classes.
pub open spec fn sums_of(m: TestModel) -> TallyModel {
    if m.module.run > 0 {
        m.module
    } else {
        m.class
    }
}

/// The time in brackets, where it is known.
pub open spec fn in_brackets(time: Seq<char>) -> Seq<char> {
    if time.len() > 0 {
        seq![' ', '('] + time + seq![')']
    } else {
        seq![]
    }
}

proof fn lemma_time_note(time: Seq<char>)
    ensures
        time_note(time) == in_brackets(time),
{
    law_time_stands_in_brackets(time);
    if time.len() == 0 {
        assert(time_note(time) =~= in_brackets(time));
    }
}

/// A test run with a failure or an error is reported as failed, with the sum of the
/// failures and the errors and the number of tests that ran, and never as passed or
/// as one without tests.
pub proof fn law_failures_and_errors_make_a_run_fail(m: TestModel)
    requires
        sums_of(m).run > 0,
        sums_of(m).failures > 0 || sums_of(m).errors > 0,
    ensures
        ("FAILED: "@ + decimal(sums_of(m).failures + sums_of(m).errors) + "/"@ + decimal(
            sums_of(m).run,
        ) + " tests"@).is_prefix_of(test_text(m)),
        !"mvn test: "@.is_prefix_of(test_text(m)),
{
    let t = sums_of(m);
    assert(totals(m) == t);
    law_failed_report_starts_with_totals(m);
    reveal_strlit("FAILED: ");
    reveal_strlit("mvn test: ");
    let text = test_text(m);
    let head = "FAILED: "@ + decimal(t.failures + t.errors) + "/"@ + decimal(t.run) + " tests"@;
    assert(head[0] == text.subrange(0, head.len() as int)[0]);
    if "mvn test: "@.is_prefix_of(text) {
        assert("mvn test: "@[0] == text.subrange(0, 10)[0]);
    }
}

/// A test run without a failure and without an error is reported as passed, with the
/// tests that ran and were not skipped, those that were, and the time.
pub proof fn law_a_run_without_failures_passes(m: TestModel)
    requires
        sums_of(m).run > 0,
        sums_of(m).failures == 0,
        sums_of(m).errors == 0,
    ensures
        ({
            let t = sums_of(m);
            let rest = if t.run >= t.skipped {
                t.run - t.skipped
            } else {
                0
            };
            &&& t.skipped == 0 ==> test_text(m) == "mvn test: "@ + decimal(t.run) + " passed"@
                + in_brackets(m.time)
            &&& t.skipped > 0 ==> test_text(m) == "mvn test: "@ + decimal(rest as nat)
                + " passed, "@ + decimal(t.skipped) + " skipped"@ + in_brackets(m.time)
        }),
{
    let t = sums_of(m);
    assert(totals(m) == t);
    lemma_time_note(m.time);
    reveal_strlit(", ");
    reveal_strlit(" passed");
    reveal_strlit(" passed, ");
    if t.skipped == 0 {
        assert("mvn test: "@ + decimal(t.run) + " passed"@ + seq![] + in_brackets(m.time)
            =~= "mvn test: "@ + decimal(t.run) + " passed"@ + in_brackets(m.time));
    } else {
        assert(" passed"@ + ", "@ =~= " passed, "@);
        let rest = if t.run >= t.skipped {
            t.run - t.skipped
        } else {
            0
        };
        let n = decimal(rest as nat);
        let k = decimal(t.skipped);
        assert("mvn test: "@ + n + " passed"@ + (", "@ + k + " skipped"@) + in_brackets(m.time)
            =~= "mvn test: "@ + n + (" passed"@ + ", "@) + k + " skipped"@ + in_brackets(m.time));
    }
}

/// A test run in which nothing ran and nothing was diagnosed says whether the build
/// failed.
pub proof fn law_a_run_without_tests_says_so(m: TestModel)
    requires
        sums_of(m).run == 0,
        m.diagnostics.len() == 0,
    ensures
        m.verdict == "FAILURE"@ ==> test_text(m) == "mvn test: BUILD FAILURE"@ + in_brackets(
            m.time,
        ),
        m.verdict != "FAILURE"@ ==> test_text(m) == "mvn test: no tests found"@ + in_brackets(
            m.time,
        ),
{
    lemma_time_note(m.time);
}

/// The text of an entry: the name, the message and the location where they are
/// known, the location cut to 100 characters, and the stack, each on a line of its
/// own.
pub proof fn law_entries_tell_all(f: FailureModel, frame: Seq<char>)
    ensures
        f.message.len() > 0 && f.location.len() > 0 && f.stack_lines.len() == 0 ==> failure_text(f)
            == "  "@ + f.test_name + " FAILED\n    "@ + f.message + "\n    at "@ + cut(
            f.location,
            100,
        ) + "\n"@,
        f.message.len() > 0 && f.location.len() == 0 && f.stack_lines.len() == 0 ==> failure_text(f)
            == "  "@ + f.test_name + " FAILED\n    "@ + f.message + "\n"@,
        f.message.len() == 0 && f.location.len() > 0 && f.stack_lines.len() == 0 ==> failure_text(f)
            == "  "@ + f.test_name + " FAILED\n    at "@ + cut(f.location, 100) + "\n"@,
        f.message.len() == 0 && f.location.len() == 0 && f.stack_lines.len() == 0 ==> failure_text(
            f,
        ) == "  "@ + f.test_name + " FAILED\n"@,
        failure_text(FailureModel { stack_lines: f.stack_lines.push(frame), ..f }) == failure_text(
            f,
        ) + ("    "@ + frame + "\n"@),
{
    reveal_strlit("\n");
    reveal_strlit("    ");
    reveal_strlit("    at ");
    reveal_strlit(" FAILED\n");
    reveal_strlit(" FAILED\n    ");
    reveal_strlit(" FAILED\n    at ");
    reveal_strlit("\n    at ");
    assert(" FAILED\n    "@ =~= " FAILED\n"@ + "    "@);
    assert(" FAILED\n    at "@ =~= " FAILED\n"@ + "    at "@);
    assert("\n    at "@ =~= "\n"@ + "    at "@);
    let place = truncated(f.location, 100);
    if f.location.len() > 100 {
        law_long_text_is_cut(f.location, 100);
    }
    assert(place == cut(f.location, 100));
    let lines = f.stack_lines.map_values(|line: Seq<char>| stack_line(line));
    let g = FailureModel { stack_lines: f.stack_lines.push(frame), ..f };
    let more = g.stack_lines.map_values(|line: Seq<char>| stack_line(line));
    assert(more =~= lines.push(stack_line(frame)));
    law_texts_are_joined(lines, stack_line(frame), seq![]);
    assert(failure_text(g) =~= failure_text(f) + ("    "@ + frame + "\n"@));
    if f.stack_lines.len() == 0 {
        assert(lines =~= seq![]);
        let start = "  "@ + f.test_name + " FAILED\n"@;
        if f.message.len() > 0 && f.location.len() > 0 {
            assert(failure_text(f) =~= "  "@ + f.test_name + (" FAILED\n"@ + "    "@) + f.message + (
            "\n"@ + "    at "@) + place + "\n"@);
        } else if f.message.len() > 0 {
            assert(failure_text(f) =~= "  "@ + f.test_name + (" FAILED\n"@ + "    "@) + f.message
                + "\n"@);
        } else if f.location.len() > 0 {
            assert(failure_text(f) =~= "  "@ + f.test_name + (" FAILED\n"@ + "    at "@) + place
                + "\n"@);
        } else {
            assert(failure_text(f) =~= start);
        }
    }
}

/// The report on a failed test run is the counts with the time, a ruler, an entry
/// for every failure in their order, and, where the build failed, an empty line and
/// the verdict.
pub proof fn law_a_failed_run_lists_its_failures(m: TestModel, entries: Seq<Seq<char>>)
    requires
        sums_of(m).run > 0,
        sums_of(m).failures + sums_of(m).errors > 0,
        entries.len() == settled(m).len(),
        forall|i: int|
            0 <= i < entries.len() ==> #[trigger] entries[i] == failure_text(settled(m)[i]),
    ensures
        ({
            let t = sums_of(m);
            let head = "FAILED: "@ + decimal(t.failures + t.errors) + "/"@ + decimal(t.run)
                + " tests"@ + in_brackets(m.time)
                + "\n=======================================\n"@;
            &&& m.verdict == "FAILURE"@ ==> test_text(m) == head + concat(entries)
                + "\nBUILD FAILURE"@
            &&& m.verdict != "FAILURE"@ ==> test_text(m) == trimmed(head + concat(entries))
        }),
{
    let t = sums_of(m);
    assert(totals(m) == t);
    lemma_time_note(m.time);
    assert(entries =~= settled(m).map_values(|f: FailureModel| failure_text(f)));
    reveal_strlit("\n");
    reveal_strlit("=======================================\n");
    reveal_strlit("\n=======================================\n");
    assert("\n=======================================\n"@ =~= "\n"@ + RULER@);
    let start = "FAILED: "@ + decimal(t.failures + t.errors) + "/"@ + decimal(t.run) + " tests"@
        + in_brackets(m.time);
    let head = start + "\n=======================================\n"@;
    assert(head =~= start + "\n"@ + RULER@);
    reveal_strlit("FAILED: ");
    reveal_strlit("\nBUILD FAILURE");
    if m.verdict == "FAILURE"@ {
        let whole = head + concat(entries) + "\nBUILD FAILURE"@;
        assert(test_text(m) == trimmed(whole));
        assert(whole[0] == 'F');
        assert(whole.last() == 'E');
        lemma_trim_front_stays(whole);
    } else {
        assert(head + concat(entries) + seq![] =~= head + concat(entries));
    }
}

/// A report can be made where the four sums of the modules and of the classes are in
/// range, and so is what did not pass of the sums that are reported. Nothing else is
/// asked for.
pub proof fn law_reports_need_numbers_in_range(m: TestModel)
    ensures
        reportable(m) <==> {
            let max = usize::MAX;
            let t = if m.module.run == 0 && m.class.run > 0 {
                m.class
            } else {
                m.module
            };
            &&& m.module.run <= max && m.module.failures <= max && m.module.errors <= max
                && m.module.skipped <= max
            &&& m.class.run <= max && m.class.failures <= max && m.class.errors <= max
                && m.class.skipped <= max
            &&& t.failures + t.errors + t.skipped <= max
        },
{
}

/// The failure whose report was read last is reported with the others.
pub proof fn law_the_last_report_counts(m: TestModel, f: FailureModel)
    ensures
        m.current is None ==> settled(m) == m.failures,
        m.current == Some(f) ==> settled(m) == upserted(m.failures, f),
{
}

/// Lines with a line feed behind each.
proof fn lemma_fed_lines(list: Seq<Seq<char>>, fed: Seq<Seq<char>>)
    requires
        list.len() > 0,
        fed.len() == list.len(),
        forall|i: int| 0 <= i < list.len() ==> #[trigger] fed[i] == list[i] + "\n"@,
    ensures
        concat(fed) == joined(list, "\n"@) + "\n"@,
    decreases list.len(),
{
    assert(fed[list.len() - 1] == list.last() + "\n"@);
    if list.len() == 1 {
        assert(fed.drop_last() =~= seq![]);
        reveal_with_fuel(concat, 2);
        assert(concat(fed) =~= list[0] + "\n"@);
    } else {
        lemma_fed_lines(list.drop_last(), fed.drop_last());
        assert(concat(fed) =~= joined(list.drop_last(), "\n"@) + "\n"@ + (list.last() + "\n"@));
    }
}

proof fn lemma_concat_front(first: Seq<char>, list: Seq<Seq<char>>)
    ensures
        concat(seq![first] + list) == first + concat(list),
    decreases list.len(),
{
    if list.len() == 0 {
        assert(seq![first] + list =~= seq![first]);
        assert(seq![first].drop_last() =~= seq![]);
        reveal_with_fuel(concat, 2);
        assert(concat(seq![first]) =~= first);
    } else {
        lemma_concat_front(first, list.drop_last());
        assert((seq![first] + list).drop_last() =~= seq![first] + list.drop_last());
    }
}

/// The total time of a test run has no line feed.
proof fn lemma_time_of_a_run(log: Seq<Seq<char>>)
    ensures
        without_feed(test_scan(log).time),
    decreases log.len(),
{
    if log.len() > 0 {
        lemma_time_of_a_run(log.drop_last());
        let line = trimmed(log.last());
        if let Some(time) = time_in(line) {
            let rest = line.skip("[INFO] Total time:"@.len() as int);
            let n = message_start(rest, white_run(rest))->0;
            lemma_until_feed(rest.skip(n as int));
        }
    }
}

/// Every diagnostic of a log is a full line that ends in no white space.
proof fn lemma_diagnostics_are_lines(output: Seq<char>, k: int)
    requires
        0 <= k < test_scan(indented_lines(output)).diagnostics.len(),
    ensures
        ({
            let d = test_scan(indented_lines(output)).diagnostics[k];
            is_full_line(d) && !white(d.last())
        }),
{
    let log = indented_lines(output);
    let list = test_scan(log).diagnostics;
    let source = lemma_diagnostics(log);
    let i = source[k];
    law_log_lines_are_single(output, i);
    let line = trimmed(log[i]);
    assert(log_lines(output)[i] == line);
    lemma_trim_ends(trim_front(log[i]));
    assert(is_compile_diagnostic(line));
    reveal_strlit("[ERROR]");
    reveal_strlit("...");
    assert(line.len() > 0);
    assert(list[k] == diagnostic_of(log[i]));
}

/// Where no test ran and the compiler has found something, the report gives the
/// number of the diagnostics with the time, a ruler, the first ten of them, each on
/// a line of its own, and how many more there are. Those that are shown and those
/// that are counted are all of them.
#[verifier::rlimit(40)]
pub proof fn law_diagnostics_are_shown_or_counted(output: Seq<char>)
    requires
        sums_of(test_scan(indented_lines(output))).run == 0,
        test_scan(indented_lines(output)).diagnostics.len() > 0,
    ensures
        ({
            let m = test_scan(indented_lines(output));
            let lines = lines_of(test_text(m));
            let n = m.diagnostics.len() as int;
            let first = if n < 10 {
                n
            } else {
                10
            };
            &&& lines[0] == "mvn test: "@ + decimal(n as nat) + " build errors"@ + in_brackets(
                m.time,
            )
            &&& lines[1] == "======================================="@
            &&& forall|i: int| 0 <= i < first ==> #[trigger] lines[i + 2] == "  "@ + m.diagnostics[i]
            &&& n <= 10 ==> lines.len() == 2 + n
            &&& n > 10 ==> lines.len() == 13 && lines[12] == "  ... +"@ + decimal((n - 10) as nat)
                + " more errors"@
        }),
{
    let m = test_scan(indented_lines(output));
    let n = m.diagnostics.len() as int;
    let first = if n < 10 {
        n
    } else {
        10
    };
    let some = m.diagnostics.take(first);
    assert(shown(m.diagnostics) =~= some);
    lemma_time_note(m.time);
    lemma_time_of_a_run(indented_lines(output));
    reveal_strlit("\n");
    reveal_strlit("  ");
    reveal_strlit("mvn test: ");
    reveal_strlit(" build errors");
    reveal_strlit("=======================================");
    reveal_strlit("=======================================\n");
    reveal_strlit("  ... +");
    reveal_strlit(" more errors");
    reveal_strlit(" more errors\n");
    let head = "mvn test: "@ + decimal(n as nat) + " build errors"@ + in_brackets(m.time);
    let ruler = "======================================="@;
    let entries = some.map_values(|d: Seq<char>| "  "@ + d);
    let note = "  ... +"@ + decimal((n - 10) as nat) + " more errors"@;
    let last = if n > 10 {
        seq![note]
    } else {
        seq![]
    };
    let list = seq![head] + (seq![ruler] + (entries + last));
    let fed_entries = some.map_values(|d: Seq<char>| diagnostic_line(d));
    let fed_last = if n > 10 {
        seq![note + "\n"@]
    } else {
        seq![]
    };
    let fed = seq![head + "\n"@] + (seq![ruler + "\n"@] + (fed_entries + fed_last));
    assert forall|i: int| 0 <= i < list.len() implies #[trigger] fed[i] == list[i] + "\n"@ by {}
    lemma_fed_lines(list, fed);
    lemma_concat_front(head + "\n"@, seq![ruler + "\n"@] + (fed_entries + fed_last));
    lemma_concat_front(ruler + "\n"@, fed_entries + fed_last);
    assert(RULER@ =~= ruler + "\n"@);
    assert(" more errors\n"@ =~= " more errors"@ + "\n"@);
    assert(concat(fed_entries + fed_last) == concat(fed_entries) + hidden_note(m.diagnostics)) by {
        if n > 10 {
            assert((fed_entries + fed_last).drop_last() =~= fed_entries);
            assert(hidden_note(m.diagnostics) =~= note + "\n"@);
        } else {
            assert(fed_entries + fed_last =~= fed_entries);
            assert(concat(fed_entries) + seq![] =~= concat(fed_entries));
        }
    }
    let whole = head + "\n"@ + RULER@ + concat(fed_entries) + hidden_note(m.diagnostics);
    assert(test_text(m) == trimmed(whole));
    assert(whole =~= concat(fed));
    lemma_report_lines(output, list, head, entries, last);
    let text = joined(list, "\n"@);
    law_joined_lines_are_read_back(list);
    lemma_joined_ends(list);
    lemma_trimmed_text(text);
    assert(text + "\n"@ == whole);
}

/// The ends of a joined text are those of its first and last part.
proof fn lemma_joined_ends(list: Seq<Seq<char>>)
    requires
        list.len() > 0,
        list[0].len() > 0,
        list.last().len() > 0,
    ensures
        joined(list, "\n"@).len() > 0,
        joined(list, "\n"@)[0] == list[0][0],
        joined(list, "\n"@).last() == list.last().last(),
    decreases list.len(),
{
    if list.len() > 1 {
        lemma_joined_start(list.drop_last());
        assert(list.drop_last()[0] == list[0]);
    }
}

proof fn lemma_joined_start(list: Seq<Seq<char>>)
    requires
        list.len() > 0,
        list[0].len() > 0,
    ensures
        joined(list, "\n"@).len() > 0,
        joined(list, "\n"@)[0] == list[0][0],
    decreases list.len(),
{
    if list.len() > 1 {
        assert(list.drop_last()[0] == list[0]);
        lemma_joined_start(list.drop_last());
    }
}

proof fn lemma_trimmed_text(text: Seq<char>)
    requires
        text.len() > 0,
        !white(text[0]),
        !white(text.last()),
    ensures
        trimmed(text + "\n"@) == text,
{
    reveal_strlit("\n");
    let whole = text + "\n"@;
    assert(whole[0] == text[0]);
    lemma_trim_front_stays(whole);
    assert(whole.drop_last() =~= text);
    assert(whole.last() == '\n');
    assert(trim_back(whole) == trim_back(text));
}

proof fn lemma_report_lines(
    output: Seq<char>,
    list: Seq<Seq<char>>,
    head: Seq<char>,
    entries: Seq<Seq<char>>,
    last: Seq<Seq<char>>,
)
    requires
        ({
            let m = test_scan(indented_lines(output));
            let n = m.diagnostics.len() as int;
            let first = if n < 10 {
                n
            } else {
                10
            };
            let note = "  ... +"@ + decimal((n - 10) as nat) + " more errors"@;
            &&& n > 0
            &&& head == "mvn test: "@ + decimal(n as nat) + " build errors"@ + in_brackets(m.time)
            &&& entries.len() == first
            &&& forall|i: int| 0 <= i < first ==> #[trigger] entries[i] == "  "@ + m.diagnostics[i]
            &&& last == if n > 10 {
                seq![note]
            } else {
                seq![]
            }
            &&& list == seq![head] + (seq!["======================================="@] + (entries
                + last))
        }),
    ensures
        forall|i: int| 0 <= i < list.len() ==> is_full_line(#[trigger] list[i]),
        !white(list[0][0]),
        !white(list.last().last()),
{
    let m = test_scan(indented_lines(output));
    let n = m.diagnostics.len() as int;
    reveal_strlit("  ");
    reveal_strlit("mvn test: ");
    reveal_strlit(" build errors");
    reveal_strlit("=======================================");
    reveal_strlit("  ... +");
    reveal_strlit(" more errors");
    lemma_time_of_a_run(indented_lines(output));
    lemma_decimal(n as nat);
    lemma_decimal((n - 10) as nat);
    assert(is_full_line(head)) by {
        assert(head.last() == ')' || head.last() == 's');
        assert forall|i: int| 0 <= i < head.len() implies #[trigger] head[i] != '\n' by {
            let number = decimal(n as nat);
            let k = 10 + number.len() as int;
            if 10 <= i < k {
                assert(head[i] == number[i - 10]);
            } else if i >= k + 13 {
                assert(head[i] == in_brackets(m.time)[i - k - 13]);
            }
        }
    }
    let note = "  ... +"@ + decimal((n - 10) as nat) + " more errors"@;
    assert(is_full_line(note)) by {
        assert(note.last() == 's');
        assert forall|i: int| 0 <= i < note.len() implies #[trigger] note[i] != '\n' by {
            let number = decimal((n - 10) as nat);
            let k = 7 + number.len() as int;
            if 7 <= i < k {
                assert(note[i] == number[i - 7]);
            }
        }
    }
    assert forall|i: int| 0 <= i < entries.len() implies is_full_line(#[trigger] entries[i])
        && !white(entries[i].last()) by {
        lemma_diagnostics_are_lines(output, i);
    }
    let ruler = "======================================="@;
    assert(is_full_line(ruler));
    assert forall|i: int| 0 <= i < list.len() implies is_full_line(#[trigger] list[i]) by {
        if i >= 2 {
            if i - 2 < entries.len() {
                assert(list[i] == entries[i - 2]);
            } else {
                assert(list[i] == last[i - 2 - entries.len()]);
            }
        }
    }
    assert(list[0] == head);
    if n > 10 {
        assert(list.last() == note);
    } else {
        assert(list.last() == entries[n - 1]);
    }
}

/// The report on a test run of which nothing but one summary is known, from the log
/// to the text: the numbers of the summary decide whether it failed, and are told.
pub proof fn law_one_summary_is_reported(level: Seq<char>, c: Counts)
    requires
        level == "[INFO] "@ || level == "[WARNING] "@ || level == "[ERROR] "@,
        are_digits(c.run),
        are_digits(c.failures),
        are_digits(c.errors),
        are_digits(c.skipped),
        count_value(c.run) > 0,
    ensures
        ({
            let output = level + "Tests run: "@ + c.run + ", Failures: "@ + c.failures
                + ", Errors: "@ + c.errors + ", Skipped: "@ + c.skipped;
            let text = test_text(test_scan(indented_lines(output)));
            let run = count_value(c.run);
            let failures = count_value(c.failures);
            let errors = count_value(c.errors);
            let skipped = count_value(c.skipped);
            &&& failures + errors > 0 ==> text == "FAILED: "@ + decimal(failures + errors) + "/"@
                + decimal(run) + " tests\n======================================="@
            &&& failures + errors == 0 && skipped == 0 ==> text == "mvn test: "@ + decimal(run)
                + " passed"@
            &&& failures + errors == 0 && 0 < skipped <= run ==> text == "mvn test: "@ + decimal(
                (run - skipped) as nat,
            ) + " passed, "@ + decimal(skipped) + " skipped"@
        }),
{
    let output = level + "Tests run: "@ + c.run + ", Failures: "@ + c.failures + ", Errors: "@
        + c.errors + ", Skipped: "@ + c.skipped;
    let m = test_scan(indented_lines(output));
    law_one_summary_decides(level, c);
    let t = sums_of(m);
    assert(in_brackets(m.time) =~= seq![]);
    if t.failures + t.errors > 0 {
        law_a_failed_run_lists_its_failures(m, seq![]);
        reveal_strlit("FAILURE");
        reveal_strlit("FAILED: ");
        reveal_strlit(" tests");
        reveal_strlit("\n");
        reveal_strlit("\n=======================================\n");
        reveal_strlit(" tests\n=======================================");
        let start = "FAILED: "@ + decimal(t.failures + t.errors) + "/"@ + decimal(t.run);
        let text = start + " tests\n======================================="@;
        let head = start + " tests"@ + in_brackets(m.time)
            + "\n=======================================\n"@;
        assert(m.verdict != "FAILURE"@);
        assert(concat(seq![]) == Seq::<char>::empty());
        assert(head + concat(seq![]) =~= text + "\n"@);
        assert(text[0] == 'F');
        assert(text.last() == '=');
        lemma_trimmed_text(text);
    } else {
        law_a_run_without_failures_passes(m);
        let a = "mvn test: "@ + decimal(t.run) + " passed"@;
        assert(a + in_brackets(m.time) =~= a);
        if 0 < t.skipped <= t.run {
            let b = "mvn test: "@ + decimal((t.run - t.skipped) as nat) + " passed, "@ + decimal(
                t.skipped,
            ) + " skipped"@;
            assert(b + in_brackets(m.time) =~= b);
        }
    }
}

} // verus!
