//! What holds of every report on a test run.

use vstd::prelude::*;

use crate::build_laws::lemma_time_is_no_verdict;
use crate::failure::{compact, known_at, merged, same_test, upserted, FailureModel};
use crate::failure_laws::{
    distinct, keeps_facts, law_each_test_keeps_one_entry, law_known_facts_stay,
    lemma_first_known, lemma_known_at,
};
use crate::grammar::{
    after_head, counts_in, failure_in, is_compile_diagnostic, is_stack_frame, message_start,
    opens_failure, time_in, verdict_in, white_run, word_run, Counts,
};
use crate::grammar_laws::{
    is_number, law_surefire_counts_are_read, starts_without_digit, surefire_counts,
};
use crate::log::time_note;
use crate::test_report::{
    diagnostic_line, failed, failure_text, hidden_note, passed, shown, test_text, totals, RULER,
};
use crate::test_scan::{
    added_by_list, cause, closes_list, empty_tally, joins_report, listed_failure,
    reported_name, settled, tally_with, tells_cause, test_scan, test_step, within_framework,
    TallyModel, TestModel, MAX_DIAGNOSTIC_WIDTH, MAX_MESSAGE_WIDTH, MAX_STACK_LINES,
};
use crate::text::{
    concat, decimal, find_in, holds, last_of, trim_front, trimmed, truncated, until, white,
};
use crate::text_laws::{
    lemma_trim_back_keeps_head, lemma_trim_ends, lemma_trim_front_is_skip,
    lemma_trim_front_stays, lemma_until_feed,
};

verus! {

/// Where the summaries of the modules count any test, the lines on single classes
/// do not count; where they count none, these do.
pub proof fn law_class_counts_are_a_fallback(m: TestModel)
    ensures
        m.module.run > 0 ==> totals(m) == m.module,
        m.module.run == 0 && m.class.run > 0 ==> totals(m) == m.class,
{
}

/// Whether the counts of a line are those of a single class.
pub open spec fn is_class_line(line: Seq<char>) -> bool {
    holds(line, " -- in "@)
}

/// The sum of the counts in a log: of the lines on single classes, or of the
/// summaries of the modules.
pub open spec fn sum_of_counts(log: Seq<Seq<char>>, of_classes: bool) -> TallyModel
    decreases log.len(),
{
    if log.len() == 0 {
        empty_tally()
    } else {
        let sum = sum_of_counts(log.drop_last(), of_classes);
        match counts_in(trimmed(log.last())) {
            Some(c) => if is_class_line(trimmed(log.last())) == of_classes {
                tally_with(sum, c)
            } else {
                sum
            },
            None => sum,
        }
    }
}

/// Whether a line has no other role that comes before that of its counts.
pub open spec fn only_counts(line: Seq<char>) -> bool {
    &&& verdict_in(line) is None
    &&& time_in(line) is None
    &&& failure_in(line) is None
    &&& line != "[ERROR] Failures:"@
}

/// The totals are sums over the whole log, never a single line: those of the
/// modules add up the summaries, those of the classes the lines on classes.
pub proof fn law_totals_are_sums(log: Seq<Seq<char>>)
    requires
        forall|i: int|
            0 <= i < log.len() && counts_in(trimmed(#[trigger] log[i])) is Some ==> only_counts(
                trimmed(log[i]),
            ),
    ensures
        test_scan(log).module == sum_of_counts(log, false),
        test_scan(log).class == sum_of_counts(log, true),
    decreases log.len(),
{
    if log.len() > 0 {
        let rest = log.drop_last();
        assert forall|i: int|
            0 <= i < rest.len() && counts_in(
                trimmed(#[trigger] rest[i]),
            ) is Some implies only_counts(trimmed(rest[i])) by {
            assert(rest[i] == log[i]);
        }
        law_totals_are_sums(rest);
        assert(log.last() == log[log.len() - 1]);
    }
}

/// Whether `s` is the level that Maven puts in front of a line.
pub open spec fn is_level(s: Seq<char>) -> bool {
    s == "[INFO] "@ || s == "[WARNING] "@ || s == "[ERROR] "@
}

/// Whether all four counts are numbers.
pub open spec fn are_numbers(c: Counts) -> bool {
    is_number(c.run) && is_number(c.failures) && is_number(c.errors) && is_number(c.skipped)
}

/// A line of counts at some level has no other role.
proof fn lemma_counts_line(level: Seq<char>, c: Counts, back: Seq<char>)
    requires
        is_level(level),
        are_numbers(c),
        starts_without_digit(back),
    ensures
        counts_in(level + (surefire_counts(c) + back)) == Some(c),
        only_counts(level + (surefire_counts(c) + back)),
        !is_compile_diagnostic(level + (surefire_counts(c) + back)),
{
    reveal_strlit("[INFO] ");
    reveal_strlit("[WARNING] ");
    reveal_strlit("[ERROR] ");
    reveal_strlit("[ERROR]");
    reveal_strlit("Tests run: ");
    reveal_strlit("[ERROR] Failures:");
    reveal_strlit("[INFO] BUILD SUCCESS");
    reveal_strlit("[INFO] BUILD FAILURE");
    reveal_strlit("[INFO] Total time:");
    let line = level + (surefire_counts(c) + back);
    law_surefire_counts_are_read(level, c, back);
    let n = level.len() as int;
    assert(line.skip(n) =~= surefire_counts(c) + back);
    assert(line[n] == 'T' && line[n + 1] == 'e' && line[n + 2] == 's' && line[n + 3] == 't'
        && line[n + 4] == 's' && line[n + 5] == ' ');
    assert forall|head: Seq<char>|
        head.len() > 8 && head[1] == 'I' && (head[7] == 'B' || head[8] == 'o') implies !(
    #[trigger] head.is_prefix_of(line)) by {
        if head.is_prefix_of(line) {
            assert(head[1] == line.subrange(0, head.len() as int)[1]);
            assert(head[7] == line.subrange(0, head.len() as int)[7]);
            assert(head[8] == line.subrange(0, head.len() as int)[8]);
        }
    }
    assert(line != "[ERROR] Failures:"@) by {
        if line == "[ERROR] Failures:"@ {
            assert(line[1] == 'E');
            assert(line[8] == 'F');
        }
    }
    if "[ERROR]"@.is_prefix_of(line) {
        assert("[ERROR]"@[1] == line.subrange(0, 7)[1]);
        assert(level == "[ERROR] "@);
        let rest = line.skip(7);
        assert(white(rest[0]));
        assert(!white(rest.drop_first()[0]));
        reveal_with_fuel(white_run, 2);
        assert(white_run(rest) == 1);
        let words = rest.skip(1);
        assert(words =~= line.skip(8));
        lemma_word_of_five(words);
        let word = words.take(5);
        assert forall|k: int| 0 <= k < word.len() implies #[trigger] word[k] != ':' by {}
        lemma_no_colon(word);
    }
}

proof fn lemma_word_of_five(s: Seq<char>)
    requires
        s.len() > 5,
        !white(s[0]) && !white(s[1]) && !white(s[2]) && !white(s[3]) && !white(s[4]),
        white(s[5]),
    ensures
        word_run(s) == 5,
{
    let s1 = s.drop_first();
    let s2 = s1.drop_first();
    let s3 = s2.drop_first();
    let s4 = s3.drop_first();
    let s5 = s4.drop_first();
    assert(word_run(s5) == 0);
    assert(word_run(s4) == 1);
    assert(word_run(s3) == 2);
    assert(word_run(s2) == 3);
    assert(word_run(s1) == 4);
}

proof fn lemma_no_colon(s: Seq<char>)
    requires
        forall|k: int| 0 <= k < s.len() ==> #[trigger] s[k] != ':',
    ensures
        last_of(s, ':') is None,
    decreases s.len(),
{
    if s.len() > 0 {
        assert forall|k: int| 0 <= k < s.drop_last().len() implies #[trigger] s.drop_last()[k]
            != ':' by {
            assert(s.drop_last()[k] == s[k]);
        }
        lemma_no_colon(s.drop_last());
    }
}

proof fn lemma_without_dash(s: Seq<char>, what: Seq<char>, at: int)
    requires
        forall|k: int| 0 <= k < s.len() ==> #[trigger] s[k] != '-',
        0 <= at < what.len(),
        what[at] == '-',
    ensures
        !holds(s, what),
    decreases s.len(),
{
    if what.is_prefix_of(s) {
        assert(what[at] == s.subrange(0, what.len() as int)[at]);
    }
    if s.len() > 0 {
        assert forall|k: int| 0 <= k < s.drop_first().len() implies #[trigger] s.drop_first()[k]
            != '-' by {
            assert(s.drop_first()[k] == s[k + 1]);
        }
        lemma_without_dash(s.drop_first(), what, at);
    }
}

/// The summary of a module adds its counts to the totals of the modules, and
/// changes nothing else, unless it ends the list of failures.
pub proof fn law_module_summary_is_added(
    m: TestModel,
    raw: Seq<char>,
    level: Seq<char>,
    c: Counts,
)
    requires
        trimmed(raw) == level + surefire_counts(c),
        is_level(level),
        are_numbers(c),
    ensures
        test_step(m, raw) == (TestModel {
            module: tally_with(m.module, c),
            in_list: m.in_list && !closes_list(trimmed(raw)),
            ..m
        }),
{
    let line = level + surefire_counts(c);
    assert(line =~= level + (surefire_counts(c) + seq![]));
    lemma_counts_line(level, c, seq![]);
    reveal_strlit("[INFO] ");
    reveal_strlit("[WARNING] ");
    reveal_strlit("[ERROR] ");
    reveal_strlit("Tests run: ");
    reveal_strlit(", Failures: ");
    reveal_strlit(", Errors: ");
    reveal_strlit(", Skipped: ");
    reveal_strlit(" -- in ");
    lemma_number_without_dash(c.run);
    lemma_number_without_dash(c.failures);
    lemma_number_without_dash(c.errors);
    lemma_number_without_dash(c.skipped);
    assert(forall|k: int| 0 <= k < line.len() ==> #[trigger] line[k] != '-');
    lemma_without_dash(line, " -- in "@, 1);
}

proof fn lemma_number_without_dash(s: Seq<char>)
    requires
        is_number(s),
    ensures
        forall|k: int| 0 <= k < s.len() ==> #[trigger] s[k] != '-',
{
    assert forall|k: int| 0 <= k < s.len() implies #[trigger] s[k] != '-' by {
        assert('0' <= s[k] <= '9');
    }
}

/// A line on a single class adds its counts to the totals of the classes, and
/// changes nothing else, unless it ends the list of failures.
pub proof fn law_class_line_is_added(
    m: TestModel,
    raw: Seq<char>,
    level: Seq<char>,
    c: Counts,
    between: Seq<char>,
    class: Seq<char>,
)
    requires
        trimmed(raw) == level + (surefire_counts(c) + (between + " -- in "@ + class)),
        is_level(level),
        are_numbers(c),
        starts_without_digit(between),
    ensures
        test_step(m, raw) == (TestModel {
            class: tally_with(m.class, c),
            in_list: m.in_list && !closes_list(trimmed(raw)),
            ..m
        }),
{
    reveal_strlit(" -- in ");
    let back = between + " -- in "@ + class;
    let line = level + (surefire_counts(c) + back);
    assert(starts_without_digit(back)) by {
        assert(back[0] == if between.len() > 0 { between[0] } else { ' ' });
    }
    lemma_counts_line(level, c, back);
    let at = (level + (surefire_counts(c) + between)).len() as int;
    assert(line.skip(at) =~= " -- in "@ + class);
    assert(line.skip(at).subrange(0, " -- in "@.len() as int) =~= " -- in "@);
    lemma_occurrence(line, " -- in "@, at);
}

/// Where the numbers are consistent, every test that ran has passed, has failed,
/// or was skipped.
pub proof fn law_every_test_is_accounted_for(t: TallyModel)
    requires
        failed(t) + t.skipped <= t.run,
    ensures
        passed(t) + failed(t) + t.skipped == t.run,
{
}

/// An error gives neither the verdict nor the total time.
pub(crate) proof fn lemma_error_line(line: Seq<char>)
    requires
        "[ERROR]"@.is_prefix_of(line),
    ensures
        verdict_in(line) is None,
        time_in(line) is None,
{
    reveal_strlit("[ERROR]");
    reveal_strlit("[INFO] BUILD SUCCESS");
    reveal_strlit("[INFO] BUILD FAILURE");
    reveal_strlit("[INFO] Total time:");
    assert("[ERROR]"@[1] == line.subrange(0, 7)[1]);
    assert forall|head: Seq<char>| head.len() > 1 && head[1] == 'I' implies !head.is_prefix_of(
        line,
    ) by {
        if head.is_prefix_of(line) {
            assert(head[1] == line.subrange(0, head.len() as int)[1]);
        }
    }
}

/// The diagnostic in a line of a log, as it is reported.
pub open spec fn diagnostic_of(raw: Seq<char>) -> Seq<char> {
    truncated(trimmed(raw), MAX_DIAGNOSTIC_WIDTH as nat)
}

/// Whether `source` says, for each of `list`, where in the log the diagnostic comes
/// first, and these places are in ascending order.
pub open spec fn are_first_lines(
    source: Seq<int>,
    list: Seq<Seq<char>>,
    log: Seq<Seq<char>>,
) -> bool {
    &&& source.len() == list.len()
    &&& forall|k: int|
        0 <= k < source.len() ==> 0 <= #[trigger] source[k] < log.len() && is_compile_diagnostic(
            trimmed(log[source[k]]),
        ) && list[k] == diagnostic_of(log[source[k]])
    &&& forall|j: int, k: int|
        0 <= j < k < source.len() ==> #[trigger] source[j] < #[trigger] source[k]
    &&& forall|k: int, i: int|
        0 <= k < source.len() && 0 <= i < source[k] && is_compile_diagnostic(
            trimmed(#[trigger] log[i]),
        ) ==> diagnostic_of(log[i]) != #[trigger] list[k]
}

/// Every diagnostic of the compiler is reported, none of them twice, in the order
/// of their first lines, and nothing else is among them.
pub proof fn law_each_diagnostic_once(log: Seq<Seq<char>>)
    ensures
        test_scan(log).diagnostics.no_duplicates(),
        forall|i: int|
            0 <= i < log.len() && is_compile_diagnostic(trimmed(#[trigger] log[i])) ==> test_scan(
                log,
            ).diagnostics.contains(diagnostic_of(log[i])),
        exists|source: Seq<int>| are_first_lines(source, test_scan(log).diagnostics, log),
{
    let source = lemma_diagnostics(log);
}

pub(crate) proof fn lemma_diagnostics(log: Seq<Seq<char>>) -> (source: Seq<int>)
    ensures
        test_scan(log).diagnostics.no_duplicates(),
        forall|i: int|
            0 <= i < log.len() && is_compile_diagnostic(trimmed(#[trigger] log[i])) ==> test_scan(
                log,
            ).diagnostics.contains(diagnostic_of(log[i])),
        are_first_lines(source, test_scan(log).diagnostics, log),
    decreases log.len(),
{
    if log.len() == 0 {
        seq![]
    } else {
        let rest = log.drop_last();
        let before = test_scan(rest).diagnostics;
        let all = test_scan(log).diagnostics;
        let earlier = lemma_diagnostics(rest);
        let entry = diagnostic_of(log.last());
        let is_new = is_compile_diagnostic(trimmed(log.last())) && !before.contains(entry);
        if is_compile_diagnostic(trimmed(log.last())) {
            lemma_error_line(trimmed(log.last()));
        }
        assert(all == if is_new { before.push(entry) } else { before });
        assert forall|d: Seq<char>| before.contains(d) implies #[trigger] all.contains(d) by {
            let k = choose|k: int| 0 <= k < before.len() && before[k] == d;
            assert(all[k] == d);
        }
        assert forall|i: int|
            0 <= i < log.len() && is_compile_diagnostic(
                trimmed(#[trigger] log[i]),
            ) implies all.contains(diagnostic_of(log[i])) by {
            if i < rest.len() {
                assert(rest[i] == log[i]);
            } else if is_new {
                assert(all[all.len() - 1] == entry);
            }
        }
        assert forall|k: int| 0 <= k < earlier.len() implies #[trigger] log[earlier[k]]
            == rest[earlier[k]] by {}
        let source = if is_new {
            earlier.push(log.len() - 1)
        } else {
            earlier
        };
        assert forall|k: int, i: int|
            0 <= k < source.len() && 0 <= i < source[k] && is_compile_diagnostic(
                trimmed(#[trigger] log[i]),
            ) implies diagnostic_of(log[i]) != #[trigger] all[k] by {
            assert(rest[i] == log[i]);
            if k < earlier.len() {
                assert(all[k] == before[k]);
            } else {
                assert(before.contains(diagnostic_of(rest[i])));
            }
        }
        source
    }
}

/// The failure in a line of the list of failures.
pub open spec fn listed_in(raw: Seq<char>) -> FailureModel {
    let (method, number, message) = failure_in(trimmed(raw))->0;
    listed_failure(method, number, message)
}

/// No two settled entries are on one test, no stack is too long, and the location
/// is known from the list of failures alone.
proof fn lemma_failures(log: Seq<Seq<char>>)
    ensures
        distinct(test_scan(log).failures),
        forall|i: int|
            0 <= i < test_scan(log).failures.len() ==> (#[trigger] test_scan(
                log,
            ).failures[i]).stack_lines.len() <= MAX_STACK_LINES,
        test_scan(log).current matches Some(f) ==> f.stack_lines.len() <= MAX_STACK_LINES
            && f.location.len() == 0,
    decreases log.len(),
{
    if log.len() > 0 {
        lemma_failures(log.drop_last());
        let m = test_scan(log.drop_last());
        let line = log.last();
        if let Some(f) = m.current {
            lemma_upsert(m.failures, f);
        }
        if failure_in(trimmed(line)) is Some {
            lemma_upsert(m.failures, added_by_list(m, listed_in(line)));
        }
    }
}

proof fn lemma_upsert(list: Seq<FailureModel>, f: FailureModel)
    requires
        distinct(list),
        forall|i: int|
            0 <= i < list.len() ==> (#[trigger] list[i]).stack_lines.len() <= MAX_STACK_LINES,
        f.stack_lines.len() <= MAX_STACK_LINES,
    ensures
        distinct(upserted(list, f)),
        forall|i: int|
            0 <= i < upserted(list, f).len() ==> (#[trigger] upserted(list, f)[i]).stack_lines.len()
                <= MAX_STACK_LINES,
{
    law_each_test_keeps_one_entry(list, f);
    lemma_known_at(list, f);
    let after = upserted(list, f);
    assert forall|i: int| 0 <= i < after.len() implies (#[trigger] after[i]).stack_lines.len()
        <= MAX_STACK_LINES by {
        if i < list.len() {
            assert(list[i].stack_lines.len() <= MAX_STACK_LINES);
        }
    }
}

/// Each failure is listed once: no two entries of a report are on one test.
pub proof fn law_each_failure_once(log: Seq<Seq<char>>)
    ensures
        distinct(settled(test_scan(log))),
{
    lemma_failures(log);
    if let Some(f) = test_scan(log).current {
        lemma_upsert(test_scan(log).failures, f);
    }
}

/// No entry of a report has more than [`MAX_STACK_LINES`] lines of its stack.
pub proof fn law_stacks_are_short(log: Seq<Seq<char>>, i: int)
    requires
        0 <= i < settled(test_scan(log)).len(),
    ensures
        settled(test_scan(log))[i].stack_lines.len() <= MAX_STACK_LINES,
{
    lemma_failures(log);
    if let Some(f) = test_scan(log).current {
        lemma_upsert(test_scan(log).failures, f);
    }
}

proof fn lemma_trimmed_keeps_head(s: Seq<char>, head: Seq<char>)
    requires
        head.is_prefix_of(s),
        head.len() > 0,
        !white(head[0]),
        !white(head.last()),
    ensures
        head.is_prefix_of(trimmed(s)),
{
    assert(s[0] == s.subrange(0, head.len() as int)[0]);
    lemma_trim_front_stays(s);
    lemma_trim_back_keeps_head(s, head);
}

/// The report on a run with failures starts with how many of the tests failed.
pub proof fn law_failed_report_starts_with_totals(m: TestModel)
    requires
        totals(m).run > 0,
        failed(totals(m)) > 0,
    ensures
        ("FAILED: "@ + decimal(failed(totals(m))) + "/"@ + decimal(totals(m).run)
            + " tests"@).is_prefix_of(test_text(m)),
{
    reveal_strlit("FAILED: ");
    reveal_strlit(" tests");
    let t = totals(m);
    let head = "FAILED: "@ + decimal(failed(t)) + "/"@ + decimal(t.run) + " tests"@;
    let whole = head + time_note(m.time) + "\n"@ + RULER@
        + concat(
        settled(m).map_values(|f: FailureModel| failure_text(f)),
    ) + (if m.verdict == "FAILURE"@ {
        "\nBUILD FAILURE"@
    } else {
        seq![]
    });
    assert(test_text(m) == trimmed(whole));
    assert(head =~= whole.subrange(0, head.len() as int));
    lemma_trimmed_keeps_head(whole, head);
}

/// Where compilation failed, so that no test ran, the report starts with the
/// number of diagnostics.
pub proof fn law_broken_build_is_reported(m: TestModel)
    requires
        totals(m).run == 0,
        m.diagnostics.len() > 0,
    ensures
        ("mvn test: "@ + decimal(m.diagnostics.len()) + " build errors"@).is_prefix_of(test_text(m)),
{
    reveal_strlit("mvn test: ");
    reveal_strlit(" build errors");
    let head = "mvn test: "@ + decimal(m.diagnostics.len()) + " build errors"@;
    let whole = head + time_note(m.time) + "\n"@ + RULER@
        + concat(
        shown(m.diagnostics).map_values(
            |d: Seq<char>| diagnostic_line(d),
        ),
    ) + hidden_note(m.diagnostics);
    assert(test_text(m) == trimmed(whole));
    assert(head =~= whole.subrange(0, head.len() as int));
    lemma_trimmed_keeps_head(whole, head);
}

proof fn lemma_occurrence(s: Seq<char>, what: Seq<char>, at: int)
    requires
        0 <= at <= s.len(),
        what.is_prefix_of(s.skip(at)),
    ensures
        holds(s, what),
    decreases s.len(),
{
    if at == 0 {
        assert(s.skip(0) =~= s);
    } else {
        assert(s.drop_first().skip(at - 1) =~= s.skip(at));
        lemma_occurrence(s.drop_first(), what, at - 1);
    }
}

/// What comes before and after one part of a concatenation.
proof fn lemma_part(list: Seq<Seq<char>>, i: int) -> (ends: (Seq<char>, Seq<char>))
    requires
        0 <= i < list.len(),
    ensures
        concat(list) == ends.0 + list[i] + ends.1,
    decreases list.len(),
{
    if i == list.len() - 1 {
        assert(concat(list) =~= concat(list.drop_last()) + list[i] + seq![]);
        (concat(list.drop_last()), seq![])
    } else {
        let (front, back) = lemma_part(list.drop_last(), i);
        assert(concat(list) =~= front + list[i] + (back + list.last()));
        (front, back + list.last())
    }
}

/// The report on a run with failures names every one of them.
pub proof fn law_failed_report_names_every_failure(m: TestModel, i: int)
    requires
        totals(m).run > 0,
        failed(totals(m)) > 0,
        0 <= i < settled(m).len(),
    ensures
        holds(test_text(m), settled(m)[i].test_name + " FAILED"@),
{
    reveal_strlit("FAILED: ");
    reveal_strlit(" FAILED");
    reveal_strlit(" FAILED\n");
    let t = totals(m);
    let f = settled(m)[i];
    let start = "FAILED: "@ + decimal(failed(t)) + "/"@ + decimal(t.run) + " tests"@ + time_note(
        m.time,
    ) + "\n"@ + RULER@;
    let entries = settled(m).map_values(|f: FailureModel| failure_text(f));
    let end = if m.verdict == "FAILURE"@ {
        "\nBUILD FAILURE"@
    } else {
        seq![]
    };
    let whole = start + concat(entries) + end;
    assert(test_text(m) == trimmed(whole));
    let (front, back) = lemma_part(entries, i);
    assert(entries[i] == failure_text(f));
    let what = f.test_name + " FAILED"@;
    let head = start + front + "  "@ + what;
    let at = (start + front + "  "@).len() as int;
    assert(" FAILED\n"@ =~= " FAILED"@ + "\n"@) by {
        reveal_strlit("\n");
    }
    assert(head =~= whole.subrange(0, head.len() as int));
    lemma_trimmed_keeps_head(whole, head);
    let text = trimmed(whole);
    assert(head == text.subrange(0, head.len() as int));
    assert(what =~= text.skip(at).subrange(0, what.len() as int)) by {
        assert forall|k: int| 0 <= k < what.len() implies what[k] == text.skip(at)[k] by {
            assert(what[k] == head[at + k]);
            assert(head[at + k] == text.subrange(0, head.len() as int)[at + k]);
        }
    }
    lemma_occurrence(text, what, at);
}

/// Whether `f` is an entry on the test of the given names. The full name counts
/// where it is not empty.
pub open spec fn is_entry_on(f: FailureModel, test_name: Seq<char>, fqn: Seq<char>) -> bool {
    f.test_name == test_name && (fqn.len() > 0 ==> f.fqn == fqn)
}

/// Whether a list has an entry on the test of the given names.
pub open spec fn has_entry_on(
    list: Seq<FailureModel>,
    test_name: Seq<char>,
    fqn: Seq<char>,
) -> bool {
    exists|i: int| 0 <= i < list.len() && is_entry_on(#[trigger] list[i], test_name, fqn)
}

/// Whether the test of the given names is among the failures so far.
spec fn is_noted(m: TestModel, test_name: Seq<char>, fqn: Seq<char>) -> bool {
    ||| has_entry_on(m.failures, test_name, fqn)
    ||| m.current matches Some(f) && is_entry_on(f, test_name, fqn)
}

proof fn lemma_entry_stays(
    list: Seq<FailureModel>,
    f: FailureModel,
    test_name: Seq<char>,
    fqn: Seq<char>,
)
    ensures
        has_entry_on(list, test_name, fqn) ==> has_entry_on(upserted(list, f), test_name, fqn),
        is_entry_on(f, test_name, fqn) ==> has_entry_on(upserted(list, f), test_name, fqn),
{
    lemma_known_at(list, f);
    let after = upserted(list, f);
    if has_entry_on(list, test_name, fqn) {
        let i = choose|i: int|
            0 <= i < list.len() && is_entry_on(#[trigger] list[i], test_name, fqn);
        law_known_facts_stay(list, f, i);
        assert(is_entry_on(after[i], test_name, fqn));
    }
    if is_entry_on(f, test_name, fqn) {
        let i = match known_at(list, f) {
            Some(i) => i as int,
            None => list.len() as int,
        };
        assert(is_entry_on(after[i], test_name, fqn));
    }
}

proof fn lemma_note_stays(m: TestModel, raw: Seq<char>, test_name: Seq<char>, fqn: Seq<char>)
    requires
        is_noted(m, test_name, fqn),
    ensures
        is_noted(test_step(m, raw), test_name, fqn),
{
    if let Some(f) = m.current {
        lemma_entry_stays(m.failures, f, test_name, fqn);
    }
    if failure_in(trimmed(raw)) is Some {
        lemma_entry_stays(m.failures, added_by_list(m, listed_in(raw)), test_name, fqn);
    }
}

proof fn lemma_noted_to_the_end(
    log: Seq<Seq<char>>,
    n: int,
    test_name: Seq<char>,
    fqn: Seq<char>,
)
    requires
        0 <= n <= log.len(),
        is_noted(test_scan(log.take(n)), test_name, fqn),
    ensures
        has_entry_on(settled(test_scan(log)), test_name, fqn),
    decreases log.len() - n,
{
    if n < log.len() {
        assert(log.take(n + 1).drop_last() =~= log.take(n));
        lemma_note_stays(test_scan(log.take(n)), log[n], test_name, fqn);
        lemma_noted_to_the_end(log, n + 1, test_name, fqn);
    } else {
        assert(log.take(n) =~= log);
        let m = test_scan(log);
        if let Some(f) = m.current {
            lemma_entry_stays(m.failures, f, test_name, fqn);
        }
    }
}

/// Every failure that has a report of its own has an entry, with its full name.
/// The line that opens the report is one without counts, and not itself of the
/// form of a line in the list of failures.
pub proof fn law_every_reported_failure_has_an_entry(log: Seq<Seq<char>>, i: int)
    requires
        0 <= i < log.len(),
        opens_failure(trimmed(log[i])),
        counts_in(trimmed(log[i])) is None,
        failure_in(trimmed(log[i])) is None,
    ensures
        has_entry_on(
            settled(test_scan(log)),
            compact(reported_name(trimmed(log[i]))),
            reported_name(trimmed(log[i])),
        ),
{
    lemma_error_line(trimmed(log[i]));
    lemma_list_head();
    assert(log.take(i + 1).drop_last() =~= log.take(i));
    assert(log.take(i + 1).last() == log[i]);
    let name = reported_name(trimmed(log[i]));
    lemma_noted_to_the_end(log, i + 1, compact(name), name);
}

/// Every failure in the list of failures has an entry. The line is one that comes
/// while the failures are listed.
pub proof fn law_every_listed_failure_has_an_entry(log: Seq<Seq<char>>, i: int)
    requires
        0 <= i < log.len(),
        test_scan(log.take(i)).in_list,
        failure_in(trimmed(log[i])) is Some,
    ensures
        has_entry_on(settled(test_scan(log)), compact((failure_in(trimmed(log[i]))->0).0), seq![]),
{
    let line = trimmed(log[i]);
    let m = test_scan(log.take(i));
    let (method, number, message) = failure_in(line)->0;
    lemma_error_line(line);
    lemma_list_head();
    assert(log.take(i + 1).drop_last() =~= log.take(i));
    assert(log.take(i + 1).last() == log[i]);
    lemma_entry_stays(m.failures, added_by_list(m, listed_in(log[i])), compact(method), seq![]);
    lemma_noted_to_the_end(log, i + 1, compact(method), seq![]);
}

/// Settled entries stay where they are, with all that they hold.
proof fn lemma_settled_stays(m: TestModel, raw: Seq<char>, i: int)
    requires
        0 <= i < m.failures.len(),
    ensures
        i < test_step(m, raw).failures.len(),
        keeps_facts(m.failures[i], test_step(m, raw).failures[i]),
{
    if let Some(f) = m.current {
        law_known_facts_stay(m.failures, f, i);
    }
    if failure_in(trimmed(raw)) is Some {
        law_known_facts_stay(m.failures, added_by_list(m, listed_in(raw)), i);
    }
}

/// What is settled stays to the end: no entry of a report is moved, removed or
/// overwritten by the lines that follow.
pub proof fn law_settled_entries_stay(log: Seq<Seq<char>>, n: int, i: int)
    requires
        0 <= n <= log.len(),
        0 <= i < test_scan(log.take(n)).failures.len(),
    ensures
        i < settled(test_scan(log)).len(),
        keeps_facts(test_scan(log.take(n)).failures[i], settled(test_scan(log))[i]),
    decreases log.len() - n,
{
    if n < log.len() {
        assert(log.take(n + 1).drop_last() =~= log.take(n));
        lemma_settled_stays(test_scan(log.take(n)), log[n], i);
        law_settled_entries_stay(log, n + 1, i);
    } else {
        assert(log.take(n) =~= log);
        if let Some(f) = test_scan(log).current {
            law_known_facts_stay(test_scan(log).failures, f, i);
        }
    }
}

/// What a line of the list of failures does while the failures are listed.
proof fn lemma_listed_step(log: Seq<Seq<char>>, k: int)
    requires
        0 <= k < log.len(),
        test_scan(log.take(k)).in_list,
        failure_in(trimmed(log[k])) is Some,
    ensures
        ({
            let m = test_scan(log.take(k));
            let after = test_scan(log.take(k + 1));
            &&& after.failures == upserted(m.failures, added_by_list(m, listed_in(log[k])))
            &&& after.current == m.current
            &&& after.in_list
            &&& after.in_report == m.in_report
        }),
{
    lemma_error_line(trimmed(log[k]));
    lemma_list_head();
    assert(log.take(k + 1).drop_last() =~= log.take(k));
    assert(log.take(k + 1).last() == log[k]);
}

/// A failure in the list of failures fills the gaps of the first entry on its test,
/// or is a new entry. Where it belongs with the report that was read last, this is
/// as if the report had been settled before; all else leaves that report alone.
pub proof fn law_listed_failure_is_merged(log: Seq<Seq<char>>, k: int)
    requires
        0 <= k < log.len(),
        test_scan(log.take(k)).in_list,
        failure_in(trimmed(log[k])) is Some,
    ensures
        ({
            let m = test_scan(log.take(k));
            let after = test_scan(log.take(k + 1));
            let listed = listed_in(log[k]);
            &&& after.current == m.current
            &&& joins_report(m, listed) ==> settled(after) == upserted(settled(m), listed)
            &&& !joins_report(m, listed) ==> after.failures == upserted(m.failures, listed)
        }),
{
    let m = test_scan(log.take(k));
    let after = test_scan(log.take(k + 1));
    let listed = listed_in(log[k]);
    lemma_listed_step(log, k);
    lemma_failures(log.take(k));
    if joins_report(m, listed) {
        let f = m.current->0;
        let added = added_by_list(m, listed);
        lemma_known_at(m.failures, f);
        lemma_known_at(m.failures, listed);
        lemma_known_at(m.failures, added);
        let i = match known_at(m.failures, f) {
            Some(i) => i as int,
            None => m.failures.len() as int,
        };
        lemma_same_names(m.failures, listed, added);
        let first = after.failures;
        let second = settled(m);
        assert forall|j: int| 0 <= j < i implies !same_test(#[trigger] first[j], f) by {
            assert(first[j] == m.failures[j]);
        }
        assert forall|j: int| 0 <= j < i implies !same_test(#[trigger] second[j], listed) by {
            assert(second[j] == m.failures[j]);
        }
        lemma_first_known(first, f, i);
        lemma_first_known(second, listed, i);
        assert(upserted(first, f)[i] =~= upserted(second, listed)[i]);
        assert(upserted(first, f) =~= upserted(second, listed));
    }
}

/// Where an entry belongs depends on the names alone.
proof fn lemma_same_names(list: Seq<FailureModel>, f: FailureModel, g: FailureModel)
    requires
        f.test_name == g.test_name,
        f.fqn == g.fqn,
    ensures
        known_at(list, f) == known_at(list, g),
    decreases list.len(),
{
    if list.len() > 0 {
        lemma_same_names(list.drop_last(), f, g);
    }
}

/// Whether the report that is read at the `n`-th line ends there: with the log, or
/// with the head of another report.
pub open spec fn ends_at(log: Seq<Seq<char>>, n: int) -> bool {
    n == log.len() || {
        &&& opens_failure(trimmed(log[n]))
        &&& counts_in(trimmed(log[n])) is None
        &&& failure_in(trimmed(log[n])) is None
    }
}

/// The state of an entry that the list has made before the report is settled.
spec fn awaits_report(
    m: TestModel,
    i: int,
    block: FailureModel,
    listed: FailureModel,
) -> bool {
    &&& 0 <= i < m.failures.len()
    &&& forall|j: int| 0 <= j < i ==> (#[trigger] m.failures[j]).test_name != block.test_name
    &&& m.failures[i] == (FailureModel {
        message: if block.message.len() > 0 {
            seq![]
        } else {
            listed.message
        },
        ..listed
    })
    &&& m.current matches Some(f) && f.test_name == block.test_name && f.fqn == block.fqn && (
    block.message.len() > 0 ==> f.message.len() > 0)
}

/// A message of the list is not empty.
proof fn lemma_listed_message(raw: Seq<char>)
    requires
        failure_in(trimmed(raw)) is Some,
    ensures
        listed_in(raw).message.len() > 0,
{
    reveal_strlit("...");
    let line = trimmed(raw);
    let rest = after_head(line, "[ERROR]"@)->0;
    let s = rest.skip(rest.take(word_run(rest) as int).len() as int);
    lemma_message_start(s, white_run(s));
    let n = message_start(s, white_run(s))->0;
    assert(s.skip(n as int)[0] != '\n');
    assert(until(s.skip(n as int), '\n') > 0);
    lemma_until_feed(s.skip(n as int));
}

proof fn lemma_message_start(s: Seq<char>, most: nat)
    ensures
        message_start(s, most) matches Some(n) ==> n < s.len() && s[n as int] != '\n',
    decreases most,
{
    if most > 0 {
        lemma_message_start(s, (most - 1) as nat);
    }
}

/// The line that tells the cause has one.
proof fn lemma_cause(raw: Seq<char>)
    requires
        tells_cause(trimmed(raw)),
    ensures
        cause(trimmed(raw)).len() > 0,
{
    reveal_strlit("...");
    reveal_strlit(": ");
    reveal_strlit("java.");
    reveal_strlit("org.junit.");
    reveal_strlit("java.lang.Assertion");
    let line = trimmed(raw);
    lemma_trim_ends(trim_front(raw));
    assert(line.len() > 0 && !white(line.last()));
    if let Some(i) = find_in(line, ": "@) {
        lemma_found(line, ": "@);
        let at = line.skip(i as int);
        assert(at.subrange(0, 2)[1] == ' ');
        if line.len() == i + 2 {
            assert(line.last() == at[1]);
        }
    }
}

proof fn lemma_found(s: Seq<char>, what: Seq<char>)
    ensures
        find_in(s, what) matches Some(i) ==> i + what.len() <= s.len() && what.is_prefix_of(
            s.skip(i as int),
        ),
    decreases s.len(),
{
    if what.is_prefix_of(s) {
        assert(s.skip(0) =~= s);
    } else if s.len() > 0 {
        lemma_found(s.drop_first(), what);
        if let Some(i) = find_in(s.drop_first(), what) {
            assert(s.drop_first().skip(i as int) =~= s.skip(i as int + 1));
        }
    }
}

/// An entry that awaits its report goes on to do so until another report begins.
proof fn lemma_awaits_on(
    m: TestModel,
    raw: Seq<char>,
    i: int,
    block: FailureModel,
    listed: FailureModel,
)
    requires
        awaits_report(m, i, block, listed),
        !opens_failure(trimmed(raw)),
        listed.test_name == block.test_name,
        listed.fqn.len() == 0,
        listed.message.len() > 0,
        listed.location.len() > 0,
    ensures
        awaits_report(test_step(m, raw), i, block, listed),
        !m.in_report ==> test_step(m, raw).current == m.current && !test_step(m, raw).in_report,
{
    let f = m.current->0;
    let after = test_step(m, raw);
    if tells_cause(trimmed(raw)) {
        lemma_cause(raw);
    }
    if m.in_list && failure_in(trimmed(raw)) is Some {
        lemma_error_line(trimmed(raw));
        lemma_list_head();
        let more = listed_in(raw);
        let added = added_by_list(m, more);
        assert(after.failures == upserted(m.failures, added));
        lemma_known_at(m.failures, added);
        lemma_known_at(m.failures, more);
        lemma_known_at(m.failures, f);
        if more.test_name == block.test_name {
            lemma_first_known(m.failures, more, i);
            lemma_first_known(m.failures, added, i);
            lemma_first_known(m.failures, f, i);
            assert(joins_report(m, more));
            assert(after.failures[i] =~= m.failures[i]);
        } else {
            assert(after.failures[i] == m.failures[i]);
        }
        assert forall|j: int| 0 <= j < i implies (#[trigger] after.failures[j]).test_name
            != block.test_name by {
            assert(m.failures[j].test_name != block.test_name);
        }
    } else {
        assert(after.failures == m.failures);
    }
}

proof fn lemma_awaits_up_to(
    log: Seq<Seq<char>>,
    k: int,
    n: int,
    i: int,
    block: FailureModel,
    listed: FailureModel,
)
    requires
        0 <= k <= n <= log.len(),
        awaits_report(test_scan(log.take(k)), i, block, listed),
        forall|j: int| k <= j < n ==> !opens_failure(trimmed(#[trigger] log[j])),
        listed.test_name == block.test_name,
        listed.fqn.len() == 0,
        listed.message.len() > 0,
        listed.location.len() > 0,
    ensures
        awaits_report(test_scan(log.take(n)), i, block, listed),
        !test_scan(log.take(k)).in_report ==> test_scan(log.take(n)).current == test_scan(
            log.take(k),
        ).current && !test_scan(log.take(n)).in_report,
    decreases n - k,
{
    if k < n {
        lemma_awaits_up_to(log, k, n - 1, i, block, listed);
        assert(log.take(n).drop_last() =~= log.take(n - 1));
        assert(log.take(n).last() == log[n - 1]);
        lemma_awaits_on(test_scan(log.take(n - 1)), log[n - 1], i, block, listed);
    }
}

/// Surefire reports a failure twice, and the two reports make one entry: the
/// message and the stack of the block, which comes first and tells more, and the
/// location of the list. The block is the one that was read last, so that it is
/// settled only behind the list, where the log ends or another report begins; that
/// is at the `n`-th line. Where its report was over before the list, it is the same
/// there as before the list.
pub proof fn law_two_reports_make_one_entry(
    log: Seq<Seq<char>>,
    k: int,
    n: int,
    block: FailureModel,
)
    requires
        0 <= k < n <= log.len(),
        test_scan(log.take(k)).in_list,
        test_scan(log.take(k)).current == Some(block),
        failure_in(trimmed(log[k])) is Some,
        same_test(block, listed_in(log[k])),
        forall|i: int|
            0 <= i < test_scan(log.take(k)).failures.len() ==> (#[trigger] test_scan(
                log.take(k),
            ).failures[i]).test_name != block.test_name,
        forall|j: int| k < j < n ==> !opens_failure(trimmed(#[trigger] log[j])),
        ends_at(log, n),
    ensures
        test_scan(log.take(n)).current is Some,
        ({
            let i = test_scan(log.take(k)).failures.len() as int;
            let entry = settled(test_scan(log))[i];
            let last = test_scan(log.take(n)).current->0;
            let listed = listed_in(log[k]);
            &&& i < settled(test_scan(log)).len()
            &&& !test_scan(log.take(k)).in_report ==> last == block
            &&& last.fqn == block.fqn
            &&& entry.test_name == block.test_name
            &&& block.fqn.len() > 0 ==> entry.fqn == block.fqn
            &&& block.message.len() > 0 ==> entry.message == last.message
            &&& block.message.len() == 0 ==> entry.message == listed.message
            &&& entry.location == listed.location
            &&& last.stack_lines.len() > 0 ==> entry.stack_lines == last.stack_lines
        }),
        distinct(settled(test_scan(log))),
{
    let m = test_scan(log.take(k));
    let i = m.failures.len() as int;
    let listed = listed_in(log[k]);
    let added = added_by_list(m, listed);
    lemma_listed_step(log, k);
    lemma_listed_message(log[k]);
    lemma_known_at(m.failures, block);
    lemma_known_at(m.failures, listed);
    lemma_known_at(m.failures, added);
    assert(joins_report(m, listed));
    let next = test_scan(log.take(k + 1));
    assert(next.failures == m.failures.push(added));
    assert forall|j: int| 0 <= j < i implies (#[trigger] next.failures[j]).test_name
        != block.test_name by {
        assert(next.failures[j] == m.failures[j]);
    }
    reveal_strlit(":");
    assert(awaits_report(next, i, block, listed));
    lemma_awaits_up_to(log, k + 1, n, i, block, listed);
    let end = test_scan(log.take(n));
    let last = end.current->0;
    lemma_first_known(end.failures, last, i);
    let entry = settled(end)[i];
    assert(entry == merged(end.failures[i], last));
    law_each_failure_once(log);
    if n == log.len() {
        assert(log.take(n) =~= log);
    } else {
        lemma_error_line(trimmed(log[n]));
        lemma_list_head();
        assert(log.take(n + 1).drop_last() =~= log.take(n));
        assert(log.take(n + 1).last() == log[n]);
        assert(test_scan(log.take(n + 1)).failures == settled(end));
        law_settled_entries_stay(log, n + 1, i);
    }
}

/// The lines of a stack trace have no role outside the report on a failure.
pub(crate) proof fn lemma_frame_line(raw: Seq<char>)
    requires
        is_stack_frame(raw),
    ensures
        trimmed(raw).len() > 1,
        trimmed(raw)[0] == 'a',
{
    reveal_strlit("at");
    let n = white_run(raw) as int;
    lemma_trim_front_is_skip(raw);
    let rest = raw.skip(n);
    assert("at"@.is_prefix_of(rest));
    lemma_trim_back_keeps_head(rest, "at"@);
    let line = trimmed(raw);
    assert("at"@[0] == line.subrange(0, 2)[0]);
}

/// Within the report on a failure, the lines of the stack trace are kept, without
/// their indentation, except those within JUnit or the runtime of Java and those
/// behind the first [`MAX_STACK_LINES`]. Nothing else changes.
pub proof fn law_own_frames_are_kept(m: TestModel, f: FailureModel, raw: Seq<char>)
    requires
        m.in_report,
        m.current == Some(f),
        is_stack_frame(raw),
        counts_in(trimmed(raw)) is None,
    ensures
        test_step(m, raw) == if f.stack_lines.len() < MAX_STACK_LINES && !within_framework(
            trimmed(raw),
        ) {
            TestModel {
                current: Some(
                    FailureModel {
                        stack_lines: f.stack_lines.push(
                            truncated(trimmed(raw), MAX_MESSAGE_WIDTH as nat),
                        ),
                        ..f
                    },
                ),
                ..m
            }
        } else {
            m
        },
{
    lemma_frame_line(raw);
    let line = trimmed(raw);
    reveal_strlit("[INFO]");
    reveal_strlit("[ERROR]");
    reveal_strlit("[INFO] BUILD SUCCESS");
    reveal_strlit("[INFO] BUILD FAILURE");
    reveal_strlit("[INFO] Total time:");
    reveal_strlit("[ERROR] Failures:");
    reveal_strlit("[ERROR] Tests run:");
    reveal_strlit("java.");
    reveal_strlit("org.junit.");
    reveal_strlit("java.lang.Assertion");
    assert forall|head: Seq<char>| head.len() > 0 && head[0] != 'a' implies !(
    #[trigger] head.is_prefix_of(line)) by {
        if head.is_prefix_of(line) {
            assert(head[0] == line.subrange(0, head.len() as int)[0]);
        }
    }
}

/// Whether `text` is what is kept of a line of the stack trace in the log that is
/// not within JUnit or the runtime of Java.
pub open spec fn is_own_frame(text: Seq<char>, log: Seq<Seq<char>>) -> bool {
    exists|k: int|
        0 <= k < log.len() && is_stack_frame(#[trigger] log[k]) && !within_framework(
            trimmed(log[k]),
        ) && text == truncated(trimmed(log[k]), MAX_MESSAGE_WIDTH as nat)
}

/// Whether all lines of a stack are such lines.
pub open spec fn has_own_frames(f: FailureModel, log: Seq<Seq<char>>) -> bool {
    forall|j: int| 0 <= j < f.stack_lines.len() ==> is_own_frame(#[trigger] f.stack_lines[j], log)
}

proof fn lemma_upsert_own_frames(list: Seq<FailureModel>, f: FailureModel, log: Seq<Seq<char>>)
    requires
        forall|i: int| 0 <= i < list.len() ==> has_own_frames(#[trigger] list[i], log),
        has_own_frames(f, log),
    ensures
        forall|i: int|
            0 <= i < upserted(list, f).len() ==> has_own_frames(
                #[trigger] upserted(list, f)[i],
                log,
            ),
{
    lemma_known_at(list, f);
    let after = upserted(list, f);
    assert forall|i: int| 0 <= i < after.len() implies has_own_frames(#[trigger] after[i], log) by {
        if i < list.len() {
            assert(has_own_frames(list[i], log));
        }
    }
}

proof fn lemma_own_frames(log: Seq<Seq<char>>)
    ensures
        forall|i: int|
            0 <= i < test_scan(log).failures.len() ==> has_own_frames(
                #[trigger] test_scan(log).failures[i],
                log,
            ),
        test_scan(log).current matches Some(f) ==> has_own_frames(f, log),
    decreases log.len(),
{
    if log.len() > 0 {
        let rest = log.drop_last();
        let m = test_scan(rest);
        let raw = log.last();
        lemma_own_frames(rest);
        assert forall|f: FailureModel| has_own_frames(f, rest) implies #[trigger] has_own_frames(
            f,
            log,
        ) by {
            assert forall|j: int| 0 <= j < f.stack_lines.len() implies is_own_frame(
                #[trigger] f.stack_lines[j],
                log,
            ) by {
                assert(is_own_frame(f.stack_lines[j], rest));
                let k = choose|k: int|
                    0 <= k < rest.len() && is_stack_frame(#[trigger] rest[k]) && !within_framework(
                        trimmed(rest[k]),
                    ) && f.stack_lines[j] == truncated(
                        trimmed(rest[k]),
                        MAX_MESSAGE_WIDTH as nat,
                    );
                assert(log[k] == rest[k]);
            }
        }
        assert forall|i: int| 0 <= i < m.failures.len() implies has_own_frames(
            #[trigger] m.failures[i],
            log,
        ) by {
            assert(has_own_frames(m.failures[i], rest));
        }
        if let Some(f) = m.current {
            assert(has_own_frames(f, rest));
            assert(has_own_frames(f, log));
            lemma_upsert_own_frames(m.failures, f, log);
            if is_stack_frame(raw) && !within_framework(trimmed(raw)) {
                let frame = truncated(trimmed(raw), MAX_MESSAGE_WIDTH as nat);
                assert(log[log.len() - 1] == raw);
                assert(is_own_frame(frame, log));
                let g = FailureModel { stack_lines: f.stack_lines.push(frame), ..f };
                assert(has_own_frames(g, log));
            }
            let g = FailureModel { message: cause(trimmed(raw)), ..f };
            assert(has_own_frames(g, log));
        }
        if failure_in(trimmed(raw)) is Some {
            lemma_upsert_own_frames(m.failures, added_by_list(m, listed_in(raw)), log);
        }
    }
}

/// Every line of a stack that is reported is one of a stack trace in the log, and
/// none is within JUnit or the runtime of Java.
pub proof fn law_stacks_hold_own_frames(log: Seq<Seq<char>>, i: int)
    requires
        0 <= i < settled(test_scan(log)).len(),
    ensures
        has_own_frames(settled(test_scan(log))[i], log),
{
    lemma_own_frames(log);
    if let Some(f) = test_scan(log).current {
        lemma_upsert_own_frames(test_scan(log).failures, f, log);
    }
}

/// The verdict that is shown is the last one in the log.
pub proof fn law_last_test_verdict_counts(log: Seq<Seq<char>>, i: int)
    requires
        0 <= i < log.len(),
        verdict_in(trimmed(log[i])) is Some,
        forall|k: int| i < k < log.len() ==> verdict_in(trimmed(#[trigger] log[k])) is None,
    ensures
        test_scan(log).verdict == verdict_in(trimmed(log[i]))->0,
    decreases log.len(),
{
    if i < log.len() - 1 {
        assert(log.last() == log[log.len() - 1]);
        assert forall|k: int| i < k < log.drop_last().len() implies verdict_in(
            trimmed(#[trigger] log.drop_last()[k]),
        ) is None by {
            assert(log.drop_last()[k] == log[k]);
        }
        assert(log.drop_last()[i] == log[i]);
        law_last_test_verdict_counts(log.drop_last(), i);
    }
}

/// The total time that is shown is the last one in the log.
pub proof fn law_last_test_time_counts(log: Seq<Seq<char>>, i: int)
    requires
        0 <= i < log.len(),
        time_in(trimmed(log[i])) is Some,
        forall|k: int| i < k < log.len() ==> time_in(trimmed(#[trigger] log[k])) is None,
    ensures
        test_scan(log).time == time_in(trimmed(log[i]))->0,
    decreases log.len(),
{
    if i == log.len() - 1 {
        lemma_time_is_no_verdict(trimmed(log[i]));
    } else {
        assert(log.last() == log[log.len() - 1]);
        assert forall|k: int| i < k < log.drop_last().len() implies time_in(
            trimmed(#[trigger] log.drop_last()[k]),
        ) is None by {
            assert(log.drop_last()[k] == log[k]);
        }
        assert(log.drop_last()[i] == log[i]);
        law_last_test_time_counts(log.drop_last(), i);
    }
}

/// The line that opens the list of failures is neither a failure nor the head of
/// a report.
pub(crate) proof fn lemma_list_head()
    ensures
        failure_in("[ERROR] Failures:"@) is None,
        !opens_failure("[ERROR] Failures:"@),
{
    reveal_strlit("[ERROR]");
    reveal_strlit("[ERROR] Failures:");
    let line = "[ERROR] Failures:"@;
    let rest = line.skip(7);
    assert(white(rest[0]) && !white(rest[1]));
    assert(rest.drop_first().len() > 0 && !white(rest.drop_first()[0]));
    reveal_with_fuel(white_run, 2);
    assert(white_run(rest) == 1);
    let word = rest.skip(1);
    assert(forall|k: int| 0 <= k < word.len() ==> !white(#[trigger] word[k]));
    lemma_all_word(word);
    assert("[ERROR]"@ =~= line.subrange(0, 7));
    assert(word.skip(word.len() as int) =~= seq![]);
    assert(word.take(word.len() as int) =~= word);
}

proof fn lemma_all_word(s: Seq<char>)
    requires
        forall|k: int| 0 <= k < s.len() ==> !white(#[trigger] s[k]),
    ensures
        word_run(s) == s.len(),
    decreases s.len(),
{
    if s.len() > 0 {
        assert forall|k: int| 0 <= k < s.drop_first().len() implies !white(
            #[trigger] s.drop_first()[k],
        ) by {
            assert(s.drop_first()[k] == s[k + 1]);
        }
        lemma_all_word(s.drop_first());
    }
}

} // verus!
