//! What holds of every report on a build.

use vstd::prelude::*;

use crate::build_filter::{
    build_lines, build_scan, build_step, build_text, closes_summary, dropped_note,
    ends_in_error, footer,
    is_continuation, is_error, is_warning, BuildModel, MAX_BODY_LINES, MAX_LINE_WIDTH,
};
use crate::grammar::{
    is_compiling, is_module_line, is_noise, message_start, opens_summary, time_in, verdict_in,
    white_run,
};
use crate::grammar_laws::lemma_decimal;
use crate::log::{log_lines, time_note};
use crate::text::{blank, joined, lines_of, truncated, white};
use crate::text_laws::{
    is_full_line, law_joined_lines_are_read_back, law_log_lines_are_single,
    law_log_lines_are_trimmed, lemma_until_feed, without_feed,
};

verus! {

/// The verdict survives every cut: it is the last line of the report.
pub proof fn law_verdict_survives(m: BuildModel)
    requires
        m.verdict.len() > 0,
    ensures
        build_lines(m).last() == footer(m.verdict, m.time),
        footer(m.verdict, m.time).is_suffix_of(build_text(m)),
{
    let all = build_lines(m);
    let last = footer(m.verdict, m.time);
    assert(all.last() == last);
    let text = joined(all, "\n"@);
    assert(text.subrange(text.len() - last.len(), text.len() as int) =~= last);
}

/// A report has at most [`MAX_BODY_LINES`] lines of the build, a note on the
/// others, and the verdict. The lines that are shown are the first ones.
pub proof fn law_report_is_bounded(m: BuildModel)
    ensures
        build_lines(m).len() <= MAX_BODY_LINES + 2,
        forall|i: int|
            0 <= i < m.body.len() && i < MAX_BODY_LINES ==> #[trigger] build_lines(m)[i]
                == m.body[i],
{
}

/// Nothing is shown but `mvn: ok` where no line was kept and there is no verdict,
/// and then only.
pub proof fn law_ok_means_nothing_kept(m: BuildModel)
    ensures
        build_lines(m).len() == 0 <==> m.body.len() == 0 && m.verdict.len() == 0,
        m.body.len() == 0 && m.verdict.len() == 0 ==> build_text(m) == "mvn: ok"@,
{
}

pub(crate) proof fn lemma_first_char(s: Seq<char>, head: Seq<char>, i: int)
    requires
        head.is_prefix_of(s),
        0 <= i < head.len(),
    ensures
        s[i] == head[i],
{
    assert(head[i] == s.subrange(0, head.len() as int)[i]);
}

/// An error or a warning is no line of any other form.
proof fn lemma_error_or_warning(line: Seq<char>)
    requires
        is_error(line) || is_warning(line),
    ensures
        !opens_summary(line),
        verdict_in(line) is None,
        time_in(line) is None,
        !is_module_line(line),
        !closes_summary(line),
        !is_noise(line),
{
    reveal_strlit("[ERROR]");
    reveal_strlit("[WARNING]");
    reveal_strlit("[INFO]");
    reveal_strlit("[INFO] ");
    reveal_strlit("[INFO] ---");
    reveal_strlit("[INFO] Reactor Summary");
    reveal_strlit("[INFO] BUILD SUCCESS");
    reveal_strlit("[INFO] BUILD FAILURE");
    reveal_strlit("[INFO] Total time:");
    reveal_strlit("[INFO] Scanning for projects");
    reveal_strlit("[INFO] =====");
    reveal_strlit("[INFO] Downloading");
    reveal_strlit("[INFO] Downloaded");
    reveal_strlit("Downloading:");
    reveal_strlit("Downloaded:");
    reveal_strlit("Progress");
    reveal_strlit("[INFO] --- maven-");
    reveal_strlit("[INFO] Using encoding");
    reveal_strlit("[INFO] skip non existing");
    reveal_strlit("[INFO] Nothing to compile");
    reveal_strlit("[INFO] Copying ");
    reveal_strlit("[INFO] Changes detected");
    reveal_strlit("[INFO] Finished at:");
    reveal_strlit("[INFO] Using auto detected provider");
    if is_error(line) {
        lemma_first_char(line, "[ERROR]"@, 0);
        lemma_first_char(line, "[ERROR]"@, 1);
    } else {
        lemma_first_char(line, "[WARNING]"@, 0);
        lemma_first_char(line, "[WARNING]"@, 1);
    }
    assert(line[0] == '[' && line[1] != 'I');
    assert forall|head: Seq<char>|
        head.len() > 1 && (head[0] != '[' || head[1] == 'I') implies !head.is_prefix_of(line) by {
        if head.is_prefix_of(line) {
            lemma_first_char(line, head, 0);
            lemma_first_char(line, head, 1);
        }
    }
    assert(!blank(line)) by {
        assert(!white(line[0]));
    }
}

/// Every error and every warning is kept, cut to [`MAX_LINE_WIDTH`], behind all
/// lines that were kept before.
pub proof fn law_errors_and_warnings_are_kept(m: BuildModel, line: Seq<char>)
    requires
        is_error(line) || is_warning(line),
    ensures
        build_step(m, line) == (BuildModel {
            body: m.body.push(truncated(line, MAX_LINE_WIDTH as nat)),
            ..m
        }),
{
    lemma_error_or_warning(line);
}

/// What was kept stays, in its order: further lines only add to it.
pub proof fn law_kept_lines_stay(log: Seq<Seq<char>>, n: int)
    requires
        0 <= n <= log.len(),
    ensures
        build_scan(log.take(n)).body.is_prefix_of(build_scan(log).body),
    decreases log.len(),
{
    if n == log.len() {
        assert(log.take(n) =~= log);
        let body = build_scan(log).body;
        assert(body =~= body.subrange(0, body.len() as int));
    } else {
        law_kept_lines_stay(log.drop_last(), n);
        assert(log.drop_last().take(n) =~= log.take(n));
        let first = build_scan(log.take(n)).body;
        let before = build_scan(log.drop_last()).body;
        let all = build_scan(log).body;
        assert(before =~= all.subrange(0, before.len() as int));
        assert(first =~= all.subrange(0, first.len() as int)) by {
            assert(first == before.subrange(0, first.len() as int));
        }
    }
}

/// Every error and every warning of a log is among the lines that were kept.
pub proof fn law_no_error_is_lost(log: Seq<Seq<char>>, i: int)
    requires
        0 <= i < log.len(),
        is_error(log[i]) || is_warning(log[i]),
    ensures
        build_scan(log).body.contains(truncated(log[i], MAX_LINE_WIDTH as nat)),
{
    let upto = log.take(i + 1);
    assert(upto.drop_last() =~= log.take(i));
    law_errors_and_warnings_are_kept(build_scan(log.take(i)), log[i]);
    law_kept_lines_stay(log, i + 1);
    let first = build_scan(upto).body;
    let all = build_scan(log).body;
    assert(first.last() == truncated(log[i], MAX_LINE_WIDTH as nat));
    assert(first == all.subrange(0, first.len() as int));
    assert(all[first.len() - 1] == first[first.len() - 1]);
}

/// The total time is neither the verdict nor the head of the summary.
pub(crate) proof fn lemma_time_is_no_verdict(line: Seq<char>)
    requires
        time_in(line) is Some,
    ensures
        verdict_in(line) is None,
        !opens_summary(line),
{
    reveal_strlit("[INFO] Reactor Summary");
    reveal_strlit("[INFO] BUILD SUCCESS");
    reveal_strlit("[INFO] BUILD FAILURE");
    reveal_strlit("[INFO] Total time:");
    lemma_first_char(line, "[INFO] Total time:"@, 7);
    assert forall|head: Seq<char>| head.len() > 7 && head[7] != 'T' implies !head.is_prefix_of(
        line,
    ) by {
        if head.is_prefix_of(line) {
            lemma_first_char(line, head, 7);
        }
    }
}

/// Noise gives neither the verdict nor the total time, nor does it open the
/// summary.
proof fn lemma_noise(line: Seq<char>)
    requires
        is_noise(line),
    ensures
        verdict_in(line) is None,
        time_in(line) is None,
        !opens_summary(line),
{
    reveal_strlit("[INFO]");
    reveal_strlit("[INFO] ");
    reveal_strlit("from");
    reveal_strlit("[INFO] Reactor Summary");
    reveal_strlit("[INFO] BUILD SUCCESS");
    reveal_strlit("[INFO] BUILD FAILURE");
    reveal_strlit("[INFO] Total time:");
    reveal_strlit("[INFO] Scanning for projects");
    reveal_strlit("[INFO] =====");
    reveal_strlit("[INFO] Downloading");
    reveal_strlit("[INFO] Downloaded");
    reveal_strlit("Downloading:");
    reveal_strlit("Downloaded:");
    reveal_strlit("Progress");
    reveal_strlit("[INFO] --- maven-");
    reveal_strlit("[INFO] Using encoding");
    reveal_strlit("[INFO] skip non existing");
    reveal_strlit("[INFO] Nothing to compile");
    reveal_strlit("[INFO] Copying ");
    reveal_strlit("[INFO] Changes detected");
    reveal_strlit("[INFO] Finished at:");
    reveal_strlit("[INFO] Using auto detected provider");
    if verdict_in(line) is Some || time_in(line) is Some || opens_summary(line) {
        let start = if opens_summary(line) {
            "[INFO] Reactor Summary"@
        } else if "[INFO] BUILD SUCCESS"@.is_prefix_of(line) {
            "[INFO] BUILD SUCCESS"@
        } else if "[INFO] BUILD FAILURE"@.is_prefix_of(line) {
            "[INFO] BUILD FAILURE"@
        } else {
            "[INFO] Total time:"@
        };
        lemma_first_char(line, start, 0);
        lemma_first_char(line, start, 6);
        lemma_first_char(line, start, 7);
        let c = line[7];
        assert(line[0] == '[' && line[6] == ' ' && (c == 'R' || c == 'B' || c == 'T'));
        assert forall|head: Seq<char>|
            head.len() > 7 && (head[0] != '[' || head[7] != c) implies !(
        #[trigger] head.is_prefix_of(line)) by {
            if head.is_prefix_of(line) {
                lemma_first_char(line, head, 0);
                lemma_first_char(line, head, 7);
            }
        }
        assert(!blank(line)) by {
            assert(!white(line[0]));
        }
        let rest = line.skip(6);
        assert(!blank(rest)) by {
            assert(!white(rest[1]));
        }
        assert(line.skip(7)[0] == c);
        assert(white(rest[0]) && !white(rest.drop_first()[0]));
        reveal_with_fuel(white_run, 2);
        assert(white_run(rest) == 1);
        assert(rest.skip(1) =~= line.skip(7));
        if "from"@.is_prefix_of(line.skip(7)) {
            lemma_first_char(line.skip(7), "from"@, 0);
        }
        assert(false);
    }
}

/// Noise is stripped: it changes nothing but that it may end the summary, unless
/// it is a line on a module in the summary.
pub proof fn law_noise_is_stripped(m: BuildModel, line: Seq<char>)
    requires
        is_noise(line),
        !(m.in_summary && is_module_line(line)),
    ensures
        build_step(m, line) == (BuildModel {
            in_summary: m.in_summary && !closes_summary(line),
            ..m
        }),
{
    lemma_noise(line);
}

/// Whether `entry` is what is kept of `line`, by the form of the line.
pub open spec fn stems_from(entry: Seq<char>, line: Seq<char>) -> bool {
    ||| (is_error(line) || is_warning(line)) && entry == truncated(line, MAX_LINE_WIDTH as nat)
    ||| (is_module_line(line) || is_compiling(line)) && entry == line
    ||| is_continuation(line) && entry == "  "@ + line
}

/// Whether `source` says, for each line of `body`, from which line of the log it
/// stems, each from another one and in the order of the log.
pub open spec fn is_selection(
    source: Seq<int>,
    body: Seq<Seq<char>>,
    log: Seq<Seq<char>>,
) -> bool {
    &&& source.len() == body.len()
    &&& forall|k: int|
        0 <= k < source.len() ==> 0 <= #[trigger] source[k] < log.len() && stems_from(
            body[k],
            log[source[k]],
        )
    &&& forall|j: int, k: int|
        0 <= j < k < source.len() ==> #[trigger] source[j] < #[trigger] source[k]
}

/// Only lines of the known forms are kept, each at most once and in their order:
/// each line of the body stems from a line of the log, behind the one that the
/// line before stems from.
pub proof fn law_only_known_lines_are_kept(log: Seq<Seq<char>>)
    ensures
        exists|source: Seq<int>| is_selection(source, build_scan(log).body, log),
{
    let source = lemma_selection(log);
}

proof fn lemma_selection(log: Seq<Seq<char>>) -> (source: Seq<int>)
    ensures
        is_selection(source, build_scan(log).body, log),
    decreases log.len(),
{
    if log.len() == 0 {
        seq![]
    } else {
        let rest = log.drop_last();
        let before = build_scan(rest).body;
        let body = build_scan(log).body;
        let earlier = lemma_selection(rest);
        assert forall|k: int| 0 <= k < earlier.len() implies #[trigger] log[earlier[k]]
            == rest[earlier[k]] by {}
        if body == before {
            earlier
        } else {
            assert(body == before.push(body.last()));
            assert(stems_from(body.last(), log.last()));
            earlier.push(log.len() - 1)
        }
    }
}

/// A line in which the compiler goes on about an error is kept only directly
/// below that error.
pub proof fn law_continuation_needs_an_error(m: BuildModel, line: Seq<char>)
    requires
        !is_error(line),
        !is_warning(line),
        !is_compiling(line),
        !is_module_line(line),
        !ends_in_error(m.body),
    ensures
        build_step(m, line).body == m.body,
{
}

/// The verdict that is shown is the last one in the log.
pub proof fn law_last_verdict_counts(log: Seq<Seq<char>>, i: int)
    requires
        0 <= i < log.len(),
        verdict_in(log[i]) is Some,
        forall|k: int| i < k < log.len() ==> verdict_in(#[trigger] log[k]) is None,
    ensures
        build_scan(log).verdict == verdict_in(log[i])->0,
    decreases log.len(),
{
    if i == log.len() - 1 {
        reveal_strlit("[INFO] Reactor Summary");
        reveal_strlit("[INFO] BUILD SUCCESS");
        reveal_strlit("[INFO] BUILD FAILURE");
        if opens_summary(log[i]) {
            lemma_first_char(log[i], "[INFO] Reactor Summary"@, 7);
            if "[INFO] BUILD SUCCESS"@.is_prefix_of(log[i]) {
                lemma_first_char(log[i], "[INFO] BUILD SUCCESS"@, 7);
            } else {
                lemma_first_char(log[i], "[INFO] BUILD FAILURE"@, 7);
            }
        }
    } else {
        assert(log.last() == log[log.len() - 1]);
        assert forall|k: int| i < k < log.drop_last().len() implies verdict_in(
            #[trigger] log.drop_last()[k],
        ) is None by {
            assert(log.drop_last()[k] == log[k]);
        }
        assert(log.drop_last()[i] == log[i]);
        law_last_verdict_counts(log.drop_last(), i);
    }
}

/// The total time that is shown is the last one in the log.
pub proof fn law_last_time_counts(log: Seq<Seq<char>>, i: int)
    requires
        0 <= i < log.len(),
        time_in(log[i]) is Some,
        forall|k: int| i < k < log.len() ==> time_in(#[trigger] log[k]) is None,
    ensures
        build_scan(log).time == time_in(log[i])->0,
    decreases log.len(),
{
    if i == log.len() - 1 {
        lemma_time_is_no_verdict(log[i]);
    } else {
        assert(log.last() == log[log.len() - 1]);
        assert forall|k: int| i < k < log.drop_last().len() implies time_in(
            #[trigger] log.drop_last()[k],
        ) is None by {
            assert(log.drop_last()[k] == log[k]);
        }
        assert(log.drop_last()[i] == log[i]);
        law_last_time_counts(log.drop_last(), i);
    }
}

/// The verdict and the time of a build are without line feeds.
proof fn lemma_outcome(log: Seq<Seq<char>>)
    ensures
        ({
            let m = build_scan(log);
            &&& m.verdict.len() == 0 || m.verdict == "SUCCESS"@ || m.verdict == "FAILURE"@
            &&& without_feed(m.time)
        }),
    decreases log.len(),
{
    if log.len() > 0 {
        lemma_outcome(log.drop_last());
        let line = log.last();
        if let Some(time) = time_in(line) {
            reveal_strlit("[INFO] Total time:");
            let rest = line.skip("[INFO] Total time:"@.len() as int);
            let n = message_start(rest, white_run(rest))->0;
            lemma_until_feed(rest.skip(n as int));
        }
    }
}

/// What is kept of a trimmed line without line feeds is a full line.
proof fn lemma_kept_line(entry: Seq<char>, line: Seq<char>)
    requires
        stems_from(entry, line),
        without_feed(line),
        line.len() > 0 ==> !white(line.last()),
    ensures
        is_full_line(entry),
{
    reveal_strlit("[ERROR]");
    reveal_strlit("[WARNING]");
    reveal_strlit("[INFO]");
    reveal_strlit("[INFO] Compiling ");
    reveal_strlit("symbol:");
    reveal_strlit("location:");
    reveal_strlit("required:");
    reveal_strlit("found:");
    reveal_strlit("reason:");
    reveal_strlit("  ");
    reveal_strlit("...");
    assert(line.len() > 0);
    assert(line.last() != '\r');
}

/// Every line that is shown is a full line.
proof fn lemma_shown_lines(output: Seq<char>)
    ensures
        ({
            let all = build_lines(build_scan(log_lines(output)));
            forall|i: int| 0 <= i < all.len() ==> is_full_line(#[trigger] all[i])
        }),
{
    let log = log_lines(output);
    let m = build_scan(log);
    let all = build_lines(m);
    let source = lemma_selection(log);
    assert forall|k: int| 0 <= k < m.body.len() implies is_full_line(#[trigger] m.body[k]) by {
        let i = source[k];
        law_log_lines_are_single(output, i);
        if log[i].len() > 0 {
            law_log_lines_are_trimmed(output, i);
        }
        lemma_kept_line(m.body[k], log[i]);
    }
    lemma_outcome(log);
    reveal_strlit("... +");
    reveal_strlit(" more lines");
    reveal_strlit("BUILD ");
    reveal_strlit("SUCCESS");
    reveal_strlit("FAILURE");
    reveal_strlit(" (");
    reveal_strlit(")");
    if m.body.len() > MAX_BODY_LINES {
        let dropped = (m.body.len() - MAX_BODY_LINES) as nat;
        lemma_decimal(dropped);
        let note = dropped_note(dropped);
        assert(note.last() == 's');
        assert(is_full_line(note));
    }
    if m.verdict.len() > 0 {
        let last = footer(m.verdict, m.time);
        assert(time_note(m.time).len() > 0 ==> time_note(m.time).last() == ')');
        assert(is_full_line(last));
    }
}

/// A report is its lines: each of them is one line of the text, so the text has at
/// most [`MAX_BODY_LINES`] lines of the build, a note on the others and the verdict,
/// and the verdict is its last line.
pub proof fn law_report_is_its_lines(output: Seq<char>)
    ensures
        ({
            let m = build_scan(log_lines(output));
            let shown = lines_of(build_text(m));
            &&& build_lines(m).len() > 0 ==> shown == build_lines(m)
            &&& build_lines(m).len() == 0 ==> shown == seq!["mvn: ok"@]
            &&& shown.len() <= MAX_BODY_LINES + 2
            &&& m.verdict.len() > 0 ==> shown.last() == footer(m.verdict, m.time)
        }),
{
    let m = build_scan(log_lines(output));
    if build_lines(m).len() > 0 {
        lemma_shown_lines(output);
        law_joined_lines_are_read_back(build_lines(m));
    } else {
        reveal_strlit("mvn: ok");
        let list = seq!["mvn: ok"@];
        assert(is_full_line(list[0]));
        law_joined_lines_are_read_back(list);
        assert(joined(list, "\n"@) == "mvn: ok"@);
    }
}

} // verus!
