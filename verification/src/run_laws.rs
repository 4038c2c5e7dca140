//! What each line of a test run does.

use vstd::prelude::*;

use crate::build_laws::lemma_time_is_no_verdict;
use crate::failure::{compact, same_test, FailureModel};
use crate::failure_laws::{lemma_first_known, lemma_known_at, may_be_one_test};
use crate::form_laws::{
    are_decimal_digits, are_digits, has_dot_inside, is_gap, is_word,
    law_listed_failures_are_read, law_time_lines, law_verdict_lines, listed_line,
};
use crate::grammar::{
    counts_in, failure_in, is_compile_diagnostic, is_stack_frame, names_exception,
    opens_failure, time_in, verdict_in, white_run, Counts,
};
use crate::grammar_laws::{is_number, surefire_counts};
use crate::keep_laws::cut;
use crate::log::indented_lines;
use crate::string_laws::{
    law_absent_text_is_not_found, law_first_occurrence_is_found, law_lines_end_at_line_feeds,
    law_long_text_is_cut, law_prefixes_are_dropped, stands_at,
};
use crate::test_laws::{
    law_module_summary_is_added, law_own_frames_are_kept, lemma_error_line, lemma_frame_line,
    lemma_list_head, listed_in,
};
use crate::test_scan::{
    cause, joins_report, reported_name, settled, test_scan, test_step, within_framework,
    TestModel,
};
use crate::text::{count_value, holds, trimmed, truncated, white};
use crate::text_laws::{law_plain_text_is_unchanged, lemma_trim_front_stays, without_feed};

verus! {

proof fn lemma_cut(s: Seq<char>, max: nat)
    requires
        max >= 3,
    ensures
        truncated(s, max) == cut(s, max as int),
{
    if s.len() > max {
        law_long_text_is_cut(s, max);
    }
}

/// The verdict and the total time are taken from their lines, and nothing else
/// changes.
pub proof fn law_outcome_of_a_test_run_is_taken(
    m: TestModel,
    raw: Seq<char>,
    rest: Seq<char>,
    gap: Seq<char>,
    time: Seq<char>,
)
    requires
        is_gap(gap),
        time.len() > 0,
        !white(time[0]),
        without_feed(time),
    ensures
        trimmed(raw) == "[INFO] BUILD SUCCESS"@ + rest ==> test_step(m, raw) == (TestModel {
            verdict: "SUCCESS"@,
            ..m
        }),
        trimmed(raw) == "[INFO] BUILD FAILURE"@ + rest ==> test_step(m, raw) == (TestModel {
            verdict: "FAILURE"@,
            ..m
        }),
        trimmed(raw) == "[INFO] Total time:"@ + gap + time ==> test_step(m, raw) == (TestModel {
            time,
            ..m
        }),
{
    law_verdict_lines(seq![], rest);
    law_time_lines(gap, time, seq![]);
    lemma_time_is_no_verdict("[INFO] Total time:"@ + gap + time);
}

/// A line of counts adds each of its four numbers to the sum of that name: to those
/// of the classes where it names a class, else to those of the modules. The other
/// sums stay.
pub proof fn law_each_count_is_added(m: TestModel, raw: Seq<char>, c: Counts, at: int)
    requires
        counts_in(trimmed(raw)) == Some(c),
        verdict_in(trimmed(raw)) is None,
        time_in(trimmed(raw)) is None,
        m.in_list ==> failure_in(trimmed(raw)) is None,
        trimmed(raw) != "[ERROR] Failures:"@,
    ensures
        ({
            let after = test_step(m, raw);
            &&& stands_at(trimmed(raw), " -- in "@, at) ==> after.module == m.module
                && after.class.run == m.class.run + count_value(c.run) && after.class.failures
                == m.class.failures + count_value(c.failures) && after.class.errors
                == m.class.errors + count_value(c.errors) && after.class.skipped
                == m.class.skipped + count_value(c.skipped)
            &&& (forall|k: int| !#[trigger] stands_at(trimmed(raw), " -- in "@, k))
                ==> after.class == m.class && after.module.run == m.module.run + count_value(c.run)
                && after.module.failures == m.module.failures + count_value(c.failures)
                && after.module.errors == m.module.errors + count_value(c.errors)
                && after.module.skipped == m.module.skipped + count_value(c.skipped)
            &&& after.failures == m.failures
            &&& after.current == m.current
            &&& after.in_report == m.in_report
            &&& after.verdict == m.verdict
            &&& after.time == m.time
        }),
{
    let line = trimmed(raw);
    if stands_at(line, " -- in "@, at) {
        lemma_holds(line, " -- in "@, at);
    }
    if forall|k: int| !#[trigger] stands_at(line, " -- in "@, k) {
        law_absent_text_is_not_found(line, " -- in "@);
    }
}

pub(crate) proof fn lemma_holds(s: Seq<char>, what: Seq<char>, at: int)
    requires
        stands_at(s, what, at),
    ensures
        holds(s, what),
    decreases at,
{
    if exists|k: int| 0 <= k < at && #[trigger] stands_at(s, what, k) {
        let k = choose|k: int| 0 <= k < at && #[trigger] stands_at(s, what, k);
        lemma_holds(s, what, k);
    } else {
        law_first_occurrence_is_found(s, what, at);
    }
}

/// Lines without counts leave all sums as they are.
pub proof fn law_other_lines_add_no_counts(m: TestModel, raw: Seq<char>)
    requires
        counts_in(trimmed(raw)) is None,
    ensures
        test_step(m, raw).module == m.module,
        test_step(m, raw).class == m.class,
{
}

/// The list of failures begins with its head and goes on until an empty line, one at
/// the level of information, or the counts. Lines that give the verdict or the total
/// time do not end it.
pub proof fn law_list_begins_and_ends(m: TestModel, raw: Seq<char>)
    ensures
        ({
            let line = trimmed(raw);
            let after = test_step(m, raw);
            let ends = line.len() == 0 || "[INFO]"@.is_prefix_of(line)
                || "[ERROR] Tests run:"@.is_prefix_of(line);
            &&& line == "[ERROR] Failures:"@ ==> after.in_list
            &&& line != "[ERROR] Failures:"@ && !m.in_list ==> !after.in_list
            &&& m.in_list && !ends ==> after.in_list
            &&& ends && verdict_in(line) is None && time_in(line) is None && failure_in(line) is None
                ==> !after.in_list
        }),
{
    let line = trimmed(raw);
    reveal_strlit("[INFO]");
    reveal_strlit("[ERROR]");
    reveal_strlit("[ERROR] Failures:");
    reveal_strlit("[ERROR] Tests run:");
    if line == "[ERROR] Failures:"@ {
        assert(line.subrange(0, 7) =~= "[ERROR]"@);
        lemma_error_line(line);
        if "[INFO]"@.is_prefix_of(line) {
            assert("[INFO]"@[1] == line.subrange(0, 6)[1]);
        }
        if "[ERROR] Tests run:"@.is_prefix_of(line) {
            assert("[ERROR] Tests run:"@.len() <= line.len());
        }
    }
}

/// A line of the list of failures gives a failure of the compact name, with the
/// message cut to 120 characters and the method and the line as its location. It
/// gives neither a full name nor a stack.
pub proof fn law_listed_failures_are_taken(
    raw: Seq<char>,
    gap: Seq<char>,
    method: Seq<char>,
    line: Seq<char>,
    space: Seq<char>,
    message: Seq<char>,
)
    requires
        trimmed(raw) == listed_line(gap, method, line, space, message),
        is_gap(gap),
        is_word(method),
        has_dot_inside(method),
        are_decimal_digits(line),
        is_word(line),
        is_gap(space),
        message.len() > 0,
        !white(message[0]),
        without_feed(message),
    ensures
        ({
            let f = listed_in(raw);
            &&& f.test_name == compact(method)
            &&& f.fqn.len() == 0
            &&& f.message == cut(message, 120)
            &&& f.location == method + seq![':'] + line
            &&& f.stack_lines.len() == 0
        }),
{
    law_listed_failures_are_read(gap, method, line, space, message);
    lemma_cut(message, 120);
    reveal_strlit(":");
    assert(":"@ =~= seq![':']);
}

/// The name that the head of a report gives: what stands between the levels at its
/// start and the first two dashes with a space on either side.
pub proof fn law_heads_give_the_name(levels: Seq<char>, name: Seq<char>, rest: Seq<char>)
    requires
        levels.len() == 0 || levels == "[ERROR] "@ || levels == "[ERROR] [ERROR] "@,
        !"[ERROR] "@.is_prefix_of(name + " -- "@ + rest),
        forall|k: int|
            0 <= k < name.len() ==> !#[trigger] stands_at(name + " -- "@ + rest, " -- "@, k),
    ensures
        reported_name(levels + (name + " -- "@ + rest)) == name,
{
    reveal_strlit("[ERROR] ");
    reveal_strlit("[ERROR] [ERROR] ");
    reveal_strlit(" -- ");
    let s = name + " -- "@ + rest;
    law_prefixes_are_dropped(s, "[ERROR] "@);
    law_prefixes_are_dropped("[ERROR] "@ + s, "[ERROR] "@);
    if levels.len() == 0 {
        assert(levels + s =~= s);
    } else if levels == "[ERROR] [ERROR] "@ {
        assert(levels + s =~= "[ERROR] "@ + ("[ERROR] "@ + s));
    }
    let n = name.len() as int;
    assert forall|i: int| 0 <= i < " -- "@.len() implies s[n + i] == #[trigger] " -- "@[i] by {}
    law_first_occurrence_is_found(s, " -- "@, n);
    assert(s.subrange(0, n) =~= name);
}

/// The head of a report settles the report before it and begins one of the name that
/// it gives, with nothing but the name. All else stays.
pub proof fn law_heads_begin_a_report(m: TestModel, raw: Seq<char>, name: Seq<char>)
    requires
        opens_failure(trimmed(raw)),
        reported_name(trimmed(raw)) == name,
        counts_in(trimmed(raw)) is None,
        failure_in(trimmed(raw)) is None,
    ensures
        ({
            let after = test_step(m, raw);
            &&& after.failures == settled(m)
            &&& after.current == Some(
                FailureModel {
                    test_name: compact(name),
                    fqn: name,
                    message: seq![],
                    location: seq![],
                    stack_lines: seq![],
                },
            )
            &&& after.in_report
            &&& after.module == m.module
            &&& after.class == m.class
            &&& after.verdict == m.verdict
            &&& after.time == m.time
        }),
{
    lemma_error_line(trimmed(raw));
    lemma_list_head();
}

/// Within a report, a line that names an exception or a failed assertion gives the
/// message: all that follows the first colon with a space behind it, cut to 120
/// characters, also where there are more of them. Nothing else changes.
pub proof fn law_causes_are_taken_whole(
    m: TestModel,
    f: FailureModel,
    raw: Seq<char>,
    head: Seq<char>,
    message: Seq<char>,
)
    requires
        m.in_report,
        m.current == Some(f),
        trimmed(raw) == head + seq![':', ' '] + message,
        forall|k: int| 0 <= k < head.len() ==> !(#[trigger] head[k] == ':' && k + 1 < head.len()
            && head[k + 1] == ' '),
        names_exception(trimmed(raw)) || "java.lang.Assertion"@.is_prefix_of(trimmed(raw)),
        counts_in(trimmed(raw)) is None,
    ensures
        test_step(m, raw) == (TestModel {
            current: Some(FailureModel { message: cut(message, 120), ..f }),
            ..m
        }),
{
    let line = trimmed(raw);
    reveal_strlit(": ");
    lemma_cause_line(m, raw);
    let n = head.len() as int;
    assert forall|k: int| 0 <= k < n implies !#[trigger] stands_at(line, ": "@, k) by {
        if stands_at(line, ": "@, k) {
            assert(line[k + 0] == ": "@[0]);
            assert(line[k + 1] == ": "@[1]);
            assert(line[k] == head[k]);
        }
    }
    assert forall|i: int| 0 <= i < ": "@.len() implies line[n + i] == #[trigger] ": "@[i] by {}
    law_first_occurrence_is_found(line, ": "@, n);
    assert(line.skip(n + 2) =~= message);
    lemma_cut(message, 120);
}

/// Where there is no colon with a space behind it, the whole line is the message.
pub proof fn law_bare_causes_are_taken(m: TestModel, f: FailureModel, raw: Seq<char>)
    requires
        m.in_report,
        m.current == Some(f),
        forall|k: int|
            0 <= k < trimmed(raw).len() - 1 ==> !(#[trigger] trimmed(raw)[k] == ':' && trimmed(
                raw,
            )[k + 1] == ' '),
        names_exception(trimmed(raw)) || "java.lang.Assertion"@.is_prefix_of(trimmed(raw)),
        counts_in(trimmed(raw)) is None,
    ensures
        test_step(m, raw) == (TestModel {
            current: Some(FailureModel { message: cut(trimmed(raw), 120), ..f }),
            ..m
        }),
{
    let line = trimmed(raw);
    reveal_strlit(": ");
    lemma_cause_line(m, raw);
    assert forall|k: int| !#[trigger] stands_at(line, ": "@, k) by {
        if stands_at(line, ": "@, k) {
            assert(line[k + 0] == ": "@[0]);
            assert(line[k + 1] == ": "@[1]);
        }
    }
    law_absent_text_is_not_found(line, ": "@);
    lemma_cut(line, 120);
}

/// A line that tells the cause has no role outside a report.
proof fn lemma_cause_line(m: TestModel, raw: Seq<char>)
    requires
        m.in_report,
        m.current is Some,
        names_exception(trimmed(raw)) || "java.lang.Assertion"@.is_prefix_of(trimmed(raw)),
        counts_in(trimmed(raw)) is None,
    ensures
        test_step(m, raw) == (TestModel {
            current: Some(
                FailureModel { message: cause(trimmed(raw)), ..m.current->0 },
            ),
            ..m
        }),
{
    let line = trimmed(raw);
    reveal_strlit("java.");
    reveal_strlit("org.junit.");
    reveal_strlit("java.lang.Assertion");
    let head = if "java."@.is_prefix_of(line) {
        "java."@
    } else if "java.lang.Assertion"@.is_prefix_of(line) {
        "java.lang.Assertion"@
    } else {
        "org.junit."@
    };
    assert(head[0] == line.subrange(0, head.len() as int)[0]);
    reveal_strlit("[INFO]");
    reveal_strlit("[ERROR]");
    if "[INFO]"@.is_prefix_of(line) {
        assert("[INFO]"@[0] == line.subrange(0, 6)[0]);
    }
    if "[ERROR]"@.is_prefix_of(line) {
        assert("[ERROR]"@[0] == line.subrange(0, 7)[0]);
    }
    lemma_outside_the_levels(line);
}

/// A line at neither of two levels has no role by its level.
proof fn lemma_outside_the_levels(line: Seq<char>)
    requires
        !"[INFO]"@.is_prefix_of(line),
        !"[ERROR]"@.is_prefix_of(line),
    ensures
        verdict_in(line) is None,
        time_in(line) is None,
        failure_in(line) is None,
        !is_compile_diagnostic(line),
        !opens_failure(line),
        line != "[ERROR] Failures:"@,
        !"[ERROR] Tests run:"@.is_prefix_of(line),
{
    reveal_strlit("[INFO]");
    reveal_strlit("[ERROR]");
    reveal_strlit("[INFO] BUILD SUCCESS");
    reveal_strlit("[INFO] BUILD FAILURE");
    reveal_strlit("[INFO] Total time:");
    reveal_strlit("[ERROR] Failures:");
    reveal_strlit("[ERROR] Tests run:");
    lemma_shorter_head(line, "[INFO]"@, "[INFO] BUILD SUCCESS"@);
    lemma_shorter_head(line, "[INFO]"@, "[INFO] BUILD FAILURE"@);
    lemma_shorter_head(line, "[INFO]"@, "[INFO] Total time:"@);
    lemma_shorter_head(line, "[ERROR]"@, "[ERROR] Failures:"@);
    lemma_shorter_head(line, "[ERROR]"@, "[ERROR] Tests run:"@);
    if line == "[ERROR] Failures:"@ {
        assert(line =~= line.subrange(0, line.len() as int));
    }
}

proof fn lemma_shorter_head(line: Seq<char>, head: Seq<char>, longer: Seq<char>)
    requires
        !head.is_prefix_of(line),
        head.len() <= longer.len(),
        forall|i: int| 0 <= i < head.len() ==> head[i] == #[trigger] longer[i],
    ensures
        !longer.is_prefix_of(line),
{
    if longer.is_prefix_of(line) {
        assert(head =~= line.subrange(0, head.len() as int)) by {
            assert forall|i: int| 0 <= i < head.len() implies head[i] == line[i] by {
                assert(longer[i] == line.subrange(0, longer.len() as int)[i]);
            }
        }
    }
}

/// Whether a line of a stack trace is within JUnit or the runtime of Java.
pub open spec fn names_framework(line: Seq<char>) -> bool {
    exists|k: int|
        #![trigger stands_at(line, "org.junit."@, k)]
        #![trigger stands_at(line, "java.base/"@, k)]
        #![trigger stands_at(line, "jdk.internal"@, k)]
        #![trigger stands_at(line, "sun.reflect"@, k)]
        {
            ||| stands_at(line, "org.junit."@, k)
            ||| stands_at(line, "java.base/"@, k)
            ||| stands_at(line, "jdk.internal"@, k)
            ||| stands_at(line, "sun.reflect"@, k)
        }
}

proof fn lemma_framework(line: Seq<char>)
    ensures
        within_framework(line) <==> names_framework(line),
{
    lemma_holds_iff(line, "org.junit."@);
    lemma_holds_iff(line, "java.base/"@);
    lemma_holds_iff(line, "jdk.internal"@);
    lemma_holds_iff(line, "sun.reflect"@);
}

proof fn lemma_holds_iff(s: Seq<char>, what: Seq<char>)
    ensures
        holds(s, what) <==> exists|k: int| #[trigger] stands_at(s, what, k),
{
    if exists|k: int| #[trigger] stands_at(s, what, k) {
        let k = choose|k: int| #[trigger] stands_at(s, what, k);
        lemma_holds(s, what, k);
    } else {
        law_absent_text_is_not_found(s, what);
    }
}

/// Within a report, the first three lines of the stack trace that do not name JUnit
/// or the runtime of Java are kept, without indentation and cut to 120 characters;
/// all other lines of it are passed over. Nothing else changes.
pub proof fn law_first_own_frames_are_kept(m: TestModel, f: FailureModel, raw: Seq<char>)
    requires
        m.in_report,
        m.current == Some(f),
        is_stack_frame(raw),
        counts_in(trimmed(raw)) is None,
    ensures
        test_step(m, raw) == if f.stack_lines.len() < 3 && !names_framework(trimmed(raw)) {
            TestModel {
                current: Some(
                    FailureModel { stack_lines: f.stack_lines.push(cut(trimmed(raw), 120)), ..f },
                ),
                ..m
            }
        } else {
            m
        },
{
    law_own_frames_are_kept(m, f, raw);
    lemma_framework(trimmed(raw));
    lemma_cut(trimmed(raw), 120);
}

/// A report ends with an empty line, and with a line at the level of information or
/// of an error that has no other role.
pub proof fn law_reports_end(m: TestModel, raw: Seq<char>)
    requires
        trimmed(raw).len() == 0 || "[INFO]"@.is_prefix_of(trimmed(raw))
            || "[ERROR]"@.is_prefix_of(trimmed(raw)),
        m.in_report,
        m.current is Some,
        verdict_in(trimmed(raw)) is None,
        time_in(trimmed(raw)) is None,
        counts_in(trimmed(raw)) is None,
        failure_in(trimmed(raw)) is None,
        !opens_failure(trimmed(raw)),
        trimmed(raw) != "[ERROR] Failures:"@,
    ensures
        !test_step(m, raw).in_report,
        test_step(m, raw).current == m.current,
        test_step(m, raw).failures == m.failures,
{
    let line = trimmed(raw);
    reveal_strlit("[INFO]");
    reveal_strlit("[ERROR]");
    reveal_strlit("java.");
    reveal_strlit("org.junit.");
    reveal_strlit("java.lang.Assertion");
    if line.len() > 0 {
        let head = if "[INFO]"@.is_prefix_of(line) {
            "[INFO]"@
        } else {
            "[ERROR]"@
        };
        assert(head[0] == line.subrange(0, head.len() as int)[0]);
        assert forall|h: Seq<char>| h.len() > 0 && h[0] != '[' implies !(
        #[trigger] h.is_prefix_of(line)) by {
            if h.is_prefix_of(line) {
                assert(h[0] == line.subrange(0, h.len() as int)[0]);
            }
        }
    }
    if is_stack_frame(raw) {
        lemma_frame_line(raw);
    }
}

/// A line that is neither empty nor at the level of information or of an error, and
/// has no counts in it, does nothing, unless a report is open and the line names an
/// exception or a failed assertion, or is one of a stack trace.
pub proof fn law_plain_lines_do_nothing(m: TestModel, raw: Seq<char>)
    requires
        trimmed(raw).len() > 0,
        !"[INFO]"@.is_prefix_of(trimmed(raw)),
        !"[ERROR]"@.is_prefix_of(trimmed(raw)),
        counts_in(trimmed(raw)) is None,
        m.in_report ==> !names_exception(trimmed(raw))
            && !"java.lang.Assertion"@.is_prefix_of(trimmed(raw)) && !is_stack_frame(raw),
    ensures
        test_step(m, raw) == m,
{
    lemma_outside_the_levels(trimmed(raw));
}

/// A diagnostic of the compiler is noted, cut to 150 characters, where it is not
/// noted yet. No other line adds one, and none takes one away.
pub proof fn law_diagnostics_are_noted(m: TestModel, raw: Seq<char>)
    ensures
        ({
            let entry = cut(trimmed(raw), 150);
            test_step(m, raw).diagnostics == if is_compile_diagnostic(trimmed(raw))
                && !m.diagnostics.contains(entry) {
                m.diagnostics.push(entry)
            } else {
                m.diagnostics
            }
        }),
{
    if is_compile_diagnostic(trimmed(raw)) {
        lemma_error_line(trimmed(raw));
        lemma_cut(trimmed(raw), 150);
    }
}

/// A line at the level of information that gives neither the verdict nor the total
/// time nor counts ends a report and the list of failures, and does nothing else.
pub proof fn law_information_ends_what_is_open(m: TestModel, raw: Seq<char>)
    requires
        "[INFO]"@.is_prefix_of(trimmed(raw)) || trimmed(raw).len() == 0,
        verdict_in(trimmed(raw)) is None,
        time_in(trimmed(raw)) is None,
        counts_in(trimmed(raw)) is None,
    ensures
        test_step(m, raw) == (TestModel {
            in_list: false,
            in_report: m.in_report && m.current is None,
            ..m
        }),
{
    let line = trimmed(raw);
    reveal_strlit("[INFO]");
    reveal_strlit("[ERROR]");
    reveal_strlit("[ERROR] Failures:");
    reveal_strlit("java.");
    reveal_strlit("org.junit.");
    reveal_strlit("java.lang.Assertion");
    if line.len() > 0 {
        assert("[INFO]"@[0] == line.subrange(0, 6)[0]);
        assert("[INFO]"@[1] == line.subrange(0, 6)[1]);
    }
    assert forall|h: Seq<char>| h.len() > 1 && (h[0] != '[' || h[1] != 'I') implies !(
    #[trigger] h.is_prefix_of(line)) by {
        if h.is_prefix_of(line) {
            assert(h[0] == line.subrange(0, h.len() as int)[0]);
            assert(h[1] == line.subrange(0, h.len() as int)[1]);
        }
    }
    if is_stack_frame(raw) {
        lemma_frame_line(raw);
    }
    assert("[ERROR] Failures:"@[1] == 'E');
}

/// An error without any other role ends a report, and does nothing else. One that
/// starts as the counts do ends the list of failures too.
pub proof fn law_other_errors_end_a_report(m: TestModel, raw: Seq<char>)
    requires
        "[ERROR]"@.is_prefix_of(trimmed(raw)),
        trimmed(raw) != "[ERROR] Failures:"@,
        counts_in(trimmed(raw)) is None,
        failure_in(trimmed(raw)) is None,
        !is_compile_diagnostic(trimmed(raw)),
        !opens_failure(trimmed(raw)),
    ensures
        test_step(m, raw) == (TestModel {
            in_list: m.in_list && !"[ERROR] Tests run:"@.is_prefix_of(trimmed(raw)),
            in_report: m.in_report && m.current is None,
            ..m
        }),
{
    let line = trimmed(raw);
    lemma_error_line(line);
    reveal_strlit("[INFO]");
    reveal_strlit("[ERROR]");
    reveal_strlit("java.");
    reveal_strlit("org.junit.");
    reveal_strlit("java.lang.Assertion");
    assert("[ERROR]"@[0] == line.subrange(0, 7)[0]);
    assert("[ERROR]"@[1] == line.subrange(0, 7)[1]);
    assert forall|h: Seq<char>| h.len() > 1 && (h[0] != '[' || h[1] != 'E') implies !(
    #[trigger] h.is_prefix_of(line)) by {
        if h.is_prefix_of(line) {
            assert(h[0] == line.subrange(0, h.len() as int)[0]);
            assert(h[1] == line.subrange(0, h.len() as int)[1]);
        }
    }
    if is_stack_frame(raw) {
        lemma_frame_line(raw);
    }
}

/// The head of the list of failures opens the list, and does nothing else.
pub proof fn law_the_head_of_the_list_opens_it(m: TestModel, raw: Seq<char>)
    requires
        trimmed(raw) == "[ERROR] Failures:"@,
    ensures
        test_step(m, raw) == (TestModel { in_list: true, ..m }),
{
    let line = trimmed(raw);
    reveal_strlit("[ERROR]");
    reveal_strlit("[ERROR] Failures:");
    assert(line.subrange(0, 7) =~= "[ERROR]"@);
    lemma_error_line(line);
    let rest = line.skip(7);
    assert(white(rest[0]) && !white(rest.drop_first()[0]));
    reveal_with_fuel(white_run, 2);
    assert(white_run(rest) == 1);
    let word = rest.skip(1);
    assert(word[0] == 'F' && word[1] == 'a');
    assert(!is_compile_diagnostic(line));
}

/// A line of the list of failures changes the failures alone, and the diagnostics
/// where it is one.
pub proof fn law_listed_lines_change_the_failures(m: TestModel, raw: Seq<char>)
    requires
        m.in_list,
        failure_in(trimmed(raw)) is Some,
    ensures
        ({
            let after = test_step(m, raw);
            after == (TestModel {
                failures: after.failures,
                diagnostics: after.diagnostics,
                ..m
            })
        }),
{
    lemma_error_line(trimmed(raw));
    lemma_list_head();
}

/// The verdict and the total time change by their own lines alone.
pub proof fn law_outcome_of_a_test_run_stays(m: TestModel, raw: Seq<char>)
    ensures
        verdict_in(trimmed(raw)) is None ==> test_step(m, raw).verdict == m.verdict,
        time_in(trimmed(raw)) is None ==> test_step(m, raw).time == m.time,
{
}

/// A test run is read from its first line to its last, each line once. Before the
/// first nothing is known.
pub proof fn law_test_runs_are_read_in_order(log: Seq<Seq<char>>, raw: Seq<char>)
    ensures
        test_scan(log.push(raw)) == test_step(test_scan(log), raw),
        ({
            let m = test_scan(seq![]);
            &&& m.module.run == 0 && m.module.failures == 0 && m.module.errors == 0
                && m.module.skipped == 0
            &&& m.class.run == 0 && m.class.failures == 0 && m.class.errors == 0 && m.class.skipped
                == 0
            &&& m.failures.len() == 0
            &&& m.current is None
            &&& !m.in_report
            &&& !m.in_list
            &&& m.verdict.len() == 0
            &&& m.time.len() == 0
            &&& m.diagnostics.len() == 0
        }),
{
    assert(log.push(raw).drop_last() =~= log);
}

/// A listed failure belongs with the report that was read last where both can be on
/// one test, and the entry to which they go is the same, or new for both.
pub proof fn law_listed_failures_join_their_report(
    m: TestModel,
    f: FailureModel,
    listed: FailureModel,
    i: int,
)
    requires
        m.current == Some(f),
    ensures
        !may_be_one_test(f, listed) ==> !joins_report(m, listed),
        may_be_one_test(f, listed) && (forall|k: int|
            0 <= k < m.failures.len() ==> !may_be_one_test(#[trigger] m.failures[k], f)
                && !may_be_one_test(m.failures[k], listed)) ==> joins_report(m, listed),
        0 <= i < m.failures.len() && may_be_one_test(m.failures[i], listed) && (forall|k: int|
            0 <= k < i ==> !may_be_one_test(#[trigger] m.failures[k], listed)
                && !may_be_one_test(m.failures[k], f)) ==> (joins_report(m, listed) <==> (
        may_be_one_test(f, listed) && may_be_one_test(m.failures[i], f))),
{
    assert forall|a: FailureModel, b: FailureModel| #[trigger]
        same_test(a, b) == may_be_one_test(a, b) by {}
    lemma_known_at(m.failures, f);
    lemma_known_at(m.failures, listed);
    if 0 <= i < m.failures.len() && may_be_one_test(m.failures[i], listed) && (forall|k: int|
        0 <= k < i ==> !may_be_one_test(#[trigger] m.failures[k], listed) && !may_be_one_test(
            m.failures[k],
            f,
        )) {
        assert forall|k: int| 0 <= k < i implies !same_test(#[trigger] m.failures[k], listed)
            && !same_test(m.failures[k], f) by {
            assert(!may_be_one_test(m.failures[k], listed));
        }
        lemma_first_known(m.failures, listed, i);
        if may_be_one_test(m.failures[i], f) {
            lemma_first_known(m.failures, f, i);
        }
    } else if forall|k: int|
        0 <= k < m.failures.len() ==> !may_be_one_test(#[trigger] m.failures[k], f)
            && !may_be_one_test(m.failures[k], listed) {
        assert forall|k: int| 0 <= k < m.failures.len() implies !same_test(
            #[trigger] m.failures[k],
            f,
        ) && !same_test(m.failures[k], listed) by {
            assert(!may_be_one_test(m.failures[k], f));
        }
    }
}

/// One summary decides over a test run: its numbers are those that are reported.
pub proof fn law_one_summary_decides(level: Seq<char>, c: Counts)
    requires
        level == "[INFO] "@ || level == "[WARNING] "@ || level == "[ERROR] "@,
        are_digits(c.run),
        are_digits(c.failures),
        are_digits(c.errors),
        are_digits(c.skipped),
    ensures
        ({
            let output = level + "Tests run: "@ + c.run + ", Failures: "@ + c.failures
                + ", Errors: "@ + c.errors + ", Skipped: "@ + c.skipped;
            let m = test_scan(indented_lines(output));
            &&& m.module.run == count_value(c.run)
            &&& m.module.failures == count_value(c.failures)
            &&& m.module.errors == count_value(c.errors)
            &&& m.module.skipped == count_value(c.skipped)
            &&& m.class.run == 0
            &&& m.diagnostics.len() == 0
            &&& m.verdict.len() == 0
            &&& m.time.len() == 0
            &&& settled(m).len() == 0
        }),
{
    reveal_strlit("[INFO] ");
    reveal_strlit("[WARNING] ");
    reveal_strlit("[ERROR] ");
    reveal_strlit("Tests run: ");
    reveal_strlit(", Failures: ");
    reveal_strlit(", Errors: ");
    reveal_strlit(", Skipped: ");
    let counts = surefire_counts(c);
    let output = level + "Tests run: "@ + c.run + ", Failures: "@ + c.failures + ", Errors: "@
        + c.errors + ", Skipped: "@ + c.skipped;
    assert(output =~= level + counts);
    lemma_digits_are_a_number(c.run);
    lemma_digits_are_a_number(c.failures);
    lemma_digits_are_a_number(c.errors);
    lemma_digits_are_a_number(c.skipped);
    lemma_printed(level + counts, level, c);
    let line = level + counts;
    law_plain_text_is_unchanged(line);
    law_lines_end_at_line_feeds(line, seq![]);
    assert(line[0] == '[');
    assert(line.last() == c.skipped.last());
    assert(48 <= c.skipped[c.skipped.len() - 1] as int <= 57);
    lemma_trim_front_stays(line);
    assert(trimmed(line) == line);
    let log = seq![line];
    assert(indented_lines(output) == log);
    assert(log.drop_last() =~= seq![]);
    law_test_runs_are_read_in_order(seq![], line);
    assert(Seq::<Seq<char>>::empty().push(line) =~= log);
    law_module_summary_is_added(test_scan(seq![]), line, level, c);
}

proof fn lemma_digits_are_a_number(s: Seq<char>)
    requires
        are_digits(s),
    ensures
        is_number(s),
{
    assert forall|i: int| 0 <= i < s.len() implies '0' <= #[trigger] s[i] <= '9' by {
        assert(48 <= s[i] as int <= 57);
    }
}

/// What is printed holds neither a line feed nor an escape character.
proof fn lemma_printed(line: Seq<char>, level: Seq<char>, c: Counts)
    requires
        line == level + surefire_counts(c),
        level == "[INFO] "@ || level == "[WARNING] "@ || level == "[ERROR] "@,
        is_number(c.run),
        is_number(c.failures),
        is_number(c.errors),
        is_number(c.skipped),
    ensures
        forall|i: int|
            0 <= i < line.len() ==> #[trigger] line[i] != '\n' && line[i] != '\u{1b}',
{
    reveal_strlit("[INFO] ");
    reveal_strlit("[WARNING] ");
    reveal_strlit("[ERROR] ");
    reveal_strlit("Tests run: ");
    reveal_strlit(", Failures: ");
    reveal_strlit(", Errors: ");
    reveal_strlit(", Skipped: ");
    assert(without_controls("Tests run: "@));
    lemma_without_controls(c.run);
    lemma_without_controls(c.failures);
    lemma_without_controls(c.errors);
    lemma_without_controls(c.skipped);
    let s1 = "Tests run: "@ + c.run;
    lemma_more_without_controls("Tests run: "@, c.run);
    lemma_more_without_controls(s1, ", Failures: "@);
    let s2 = s1 + ", Failures: "@ + c.failures;
    lemma_more_without_controls(s1 + ", Failures: "@, c.failures);
    lemma_more_without_controls(s2, ", Errors: "@);
    let s3 = s2 + ", Errors: "@ + c.errors;
    lemma_more_without_controls(s2 + ", Errors: "@, c.errors);
    lemma_more_without_controls(s3, ", Skipped: "@);
    lemma_more_without_controls(s3 + ", Skipped: "@, c.skipped);
    lemma_more_without_controls(level, surefire_counts(c));
}

spec fn without_controls(s: Seq<char>) -> bool {
    forall|i: int| 0 <= i < s.len() ==> #[trigger] s[i] != '\n' && s[i] != '\u{1b}'
}

proof fn lemma_without_controls(s: Seq<char>)
    requires
        is_number(s),
    ensures
        without_controls(s),
{
    assert forall|i: int| 0 <= i < s.len() implies #[trigger] s[i] != '\n' && s[i] != '\u{1b}' by {
        assert('0' <= s[i] <= '9');
    }
}

proof fn lemma_more_without_controls(a: Seq<char>, b: Seq<char>)
    requires
        without_controls(a),
        without_controls(b),
    ensures
        without_controls(a + b),
{
}

} // verus!
