//! Which lines of a build are kept, and how they are shown.

use vstd::prelude::*;

use crate::build_filter::{
    build_scan, build_step, build_text, footer, BuildModel,
};
use crate::build_laws::{
    law_errors_and_warnings_are_kept, law_kept_lines_stay, law_report_is_its_lines,
    lemma_first_char, lemma_time_is_no_verdict,
};
use crate::form_laws::{
    are_decimal_digits, compiling_of, is_gap, law_compiling_lines, law_time_lines,
    law_verdict_lines,
};
use crate::grammar::{
    is_compiling, is_module_line, is_noise, is_ruler, opens_summary, time_in, verdict_in,
    white_run,
};
use crate::log::log_lines;
use crate::string_laws::{law_long_text_is_cut, law_time_stands_in_brackets};
use crate::text::{blank, decimal, lines_of, white};
use crate::text_laws::without_feed;

verus! {

/// `s` cut to `max` characters where it is longer, the last three of them dots.
pub open spec fn cut(s: Seq<char>, max: int) -> Seq<char> {
    if s.len() <= max {
        s
    } else {
        s.subrange(0, max - 3) + seq!['.', '.', '.']
    }
}

/// Every line that starts with the level of an error or of a warning is kept, cut
/// to 150 characters, and nothing else changes.
pub proof fn law_errors_and_warnings_are_shown(m: BuildModel, line: Seq<char>)
    requires
        "[ERROR]"@.is_prefix_of(line) || "[WARNING]"@.is_prefix_of(line),
    ensures
        build_step(m, line) == (BuildModel { body: m.body.push(cut(line, 150)), ..m }),
{
    law_errors_and_warnings_are_kept(m, line);
    if line.len() > 150 {
        law_long_text_is_cut(line, 150);
    }
}

/// While the summary is open every line on a module is kept as it is, whatever was
/// kept before.
pub proof fn law_module_lines_are_kept(m: BuildModel, line: Seq<char>)
    requires
        m.in_summary,
        is_module_line(line),
        !"[INFO] Reactor Summary"@.is_prefix_of(line),
        verdict_in(line) is None,
        time_in(line) is None,
    ensures
        build_step(m, line) == (BuildModel { body: m.body.push(line), ..m }),
{
}

/// Whether a line ends the summary of the modules.
pub open spec fn ends_summary(line: Seq<char>) -> bool {
    line == "[INFO]"@ || "[INFO] ---"@.is_prefix_of(line)
}

/// The head of the summary opens it, an empty line or a ruler ends it, and neither
/// does anything else. No other line opens or ends it.
pub proof fn law_summary_opens_and_ends(m: BuildModel, line: Seq<char>)
    ensures
        "[INFO] Reactor Summary"@.is_prefix_of(line) ==> build_step(m, line) == (BuildModel {
            in_summary: true,
            ..m
        }),
        m.in_summary && ends_summary(line) && !is_module_line(line) ==> build_step(m, line) == (
        BuildModel { in_summary: false, ..m }),
        !"[INFO] Reactor Summary"@.is_prefix_of(line) && !ends_summary(line) ==> build_step(
            m,
            line,
        ).in_summary == m.in_summary,
        !"[INFO] Reactor Summary"@.is_prefix_of(line) && !m.in_summary ==> !build_step(
            m,
            line,
        ).in_summary,
{
    reveal_strlit("[INFO]");
    reveal_strlit("[INFO] ---");
    reveal_strlit("[INFO] Reactor Summary");
    reveal_strlit("[INFO] BUILD SUCCESS");
    reveal_strlit("[INFO] BUILD FAILURE");
    reveal_strlit("[INFO] Total time:");
    if ends_summary(line) {
        if "[INFO] ---"@.is_prefix_of(line) {
            lemma_first_char(line, "[INFO] ---"@, 7);
        }
        assert forall|head: Seq<char>| head.len() > 9 && head[7] != '-' implies !(
        #[trigger] head.is_prefix_of(line)) by {
            if head.is_prefix_of(line) {
                lemma_first_char(line, head, 7);
            }
        }
    }
}

/// Every module that the summary lists is among the lines that are kept: where the
/// summary was opened and nothing has ended it since.
pub proof fn law_every_module_is_kept(log: Seq<Seq<char>>, h: int, k: int)
    requires
        0 <= h < k < log.len(),
        "[INFO] Reactor Summary"@.is_prefix_of(log[h]),
        forall|j: int| h < j < k ==> !ends_summary(#[trigger] log[j]),
        is_module_line(log[k]),
        !"[INFO] Reactor Summary"@.is_prefix_of(log[k]),
        verdict_in(log[k]) is None,
        time_in(log[k]) is None,
    ensures
        build_scan(log).body.contains(log[k]),
{
    lemma_summary_is_open(log, h, k);
    let m = build_scan(log.take(k));
    assert(log.take(k + 1).drop_last() =~= log.take(k));
    assert(log.take(k + 1).last() == log[k]);
    law_module_lines_are_kept(m, log[k]);
    law_kept_lines_stay(log, k + 1);
    let first = build_scan(log.take(k + 1)).body;
    let all = build_scan(log).body;
    assert(first.last() == log[k]);
    assert(first == all.subrange(0, first.len() as int));
    assert(all[first.len() - 1] == first[first.len() - 1]);
}

proof fn lemma_summary_is_open(log: Seq<Seq<char>>, h: int, k: int)
    requires
        0 <= h < k <= log.len(),
        "[INFO] Reactor Summary"@.is_prefix_of(log[h]),
        forall|j: int| h < j < k ==> !ends_summary(#[trigger] log[j]),
    ensures
        build_scan(log.take(k)).in_summary,
    decreases k - h,
{
    let m = build_scan(log.take(k - 1));
    assert(log.take(k).drop_last() =~= log.take(k - 1));
    assert(log.take(k).last() == log[k - 1]);
    law_summary_opens_and_ends(m, log[k - 1]);
    if k - 1 > h {
        lemma_summary_is_open(log, h, k - 1);
    }
}

/// The verdict and the total time are taken from their lines, and nothing else
/// changes.
pub proof fn law_outcome_is_taken(
    m: BuildModel,
    rest: Seq<char>,
    gap: Seq<char>,
    time: Seq<char>,
)
    requires
        is_gap(gap),
        time.len() > 0,
        !white(time[0]),
        without_feed(time),
    ensures
        build_step(m, "[INFO] BUILD SUCCESS"@ + rest) == (BuildModel {
            verdict: "SUCCESS"@,
            ..m
        }),
        build_step(m, "[INFO] BUILD FAILURE"@ + rest) == (BuildModel {
            verdict: "FAILURE"@,
            ..m
        }),
        build_step(m, "[INFO] Total time:"@ + gap + time) == (BuildModel { time, ..m }),
{
    law_verdict_lines(seq![], rest);
    law_time_lines(gap, time, seq![]);
    lemma_time_is_no_verdict("[INFO] Total time:"@ + gap + time);
    reveal_strlit("[INFO] Reactor Summary");
    reveal_strlit("[INFO] BUILD SUCCESS");
    reveal_strlit("[INFO] BUILD FAILURE");
    let a = "[INFO] BUILD SUCCESS"@ + rest;
    let b = "[INFO] BUILD FAILURE"@ + rest;
    assert(a[7] == 'B' && b[7] == 'B');
    if opens_summary(a) {
        lemma_first_char(a, "[INFO] Reactor Summary"@, 7);
    }
    if opens_summary(b) {
        lemma_first_char(b, "[INFO] Reactor Summary"@, 7);
    }
}

/// A line on how many files are compiled is kept as it is.
pub proof fn law_compiling_is_kept(m: BuildModel, number: Seq<char>, rest: Seq<char>)
    requires
        are_decimal_digits(number),
    ensures
        build_step(m, compiling_of(number, rest)) == (BuildModel {
            body: m.body.push(compiling_of(number, rest)),
            ..m
        }),
{
    let line = compiling_of(number, rest);
    law_compiling_lines(line);
    assert(is_compiling(line));
    reveal_strlit("[INFO] ");
    reveal_strlit("[INFO] Compiling ");
    assert(line.subrange(0, 7) =~= "[INFO] "@);
    lemma_compiling_line(line);
}

/// A line on what is compiled is no noise and has no other role, by its first three
/// characters behind the level.
proof fn lemma_compiling_line(line: Seq<char>)
    requires
        line.len() > 9,
        "[INFO] "@.is_prefix_of(line),
        line[7] == 'C',
        line[8] == 'o',
        line[9] == 'm',
    ensures
        !is_noise(line),
        !opens_summary(line),
        verdict_in(line) is None,
        time_in(line) is None,
        !ends_summary(line),
        !"[ERROR]"@.is_prefix_of(line),
        !"[WARNING]"@.is_prefix_of(line),
{
    reveal_strlit("[INFO]");
    reveal_strlit("[INFO] ");
    reveal_strlit("from");
    reveal_strlit("[INFO] ---");
    reveal_strlit("[INFO] Reactor Summary");
    reveal_strlit("[INFO] BUILD SUCCESS");
    reveal_strlit("[INFO] BUILD FAILURE");
    reveal_strlit("[INFO] Total time:");
    reveal_strlit("[INFO] Scanning for projects");
    reveal_strlit("[INFO] =====");
    reveal_strlit("[INFO] Downloading");
    reveal_strlit("[INFO] Downloaded");
    reveal_strlit("Downloading:");
    reveal_strlit("Downloaded:");
    reveal_strlit("Progress");
    reveal_strlit("[INFO] --- maven-");
    reveal_strlit("[INFO] Using encoding");
    reveal_strlit("[INFO] skip non existing");
    reveal_strlit("[INFO] Nothing to compile");
    reveal_strlit("[INFO] Copying ");
    reveal_strlit("[INFO] Changes detected");
    reveal_strlit("[INFO] Finished at:");
    reveal_strlit("[INFO] Using auto detected provider");
    reveal_strlit("[ERROR]");
    reveal_strlit("[WARNING]");
    lemma_first_char(line, "[INFO] "@, 0);
    lemma_first_char(line, "[INFO] "@, 1);
    lemma_first_char(line, "[INFO] "@, 6);
    assert forall|head: Seq<char>|
        head.len() > 6 && (head[0] != '[' || head[1] != 'I') implies !(
    #[trigger] head.is_prefix_of(line)) by {
        if head.is_prefix_of(line) {
            lemma_first_char(line, head, 0);
            lemma_first_char(line, head, 1);
        }
    }
    assert forall|head: Seq<char>|
        head.len() > 9 && (head[7] != 'C' || head[8] != 'o' || head[9] != 'm') implies !(
    #[trigger] head.is_prefix_of(line)) by {
        if head.is_prefix_of(line) {
            lemma_first_char(line, head, 7);
            lemma_first_char(line, head, 8);
            lemma_first_char(line, head, 9);
        }
    }
    assert(!blank(line)) by {
        assert(!white(line[0]));
    }
    let rest = line.skip(6);
    assert(!blank(rest)) by {
        assert(!white(rest[1]));
    }
    assert(white(rest[0]) && !white(rest.drop_first()[0]));
    reveal_with_fuel(white_run, 2);
    assert(white_run(rest) == 1);
    assert(rest.skip(1) =~= line.skip(7));
    if "from"@.is_prefix_of(line.skip(7)) {
        lemma_first_char(line.skip(7), "from"@, 0);
    }
    assert(line.skip(7)[0] == 'C');
    assert(!is_ruler(line));
}

/// Whether a line goes on about the error above it, by its first word.
pub open spec fn goes_on(line: Seq<char>) -> bool {
    ||| "symbol:"@.is_prefix_of(line)
    ||| "location:"@.is_prefix_of(line)
    ||| "required:"@.is_prefix_of(line)
    ||| "found:"@.is_prefix_of(line)
    ||| "reason:"@.is_prefix_of(line)
}

/// A line in which the compiler goes on is kept, indented by two spaces, where the
/// last line that was kept is an error, and else it is dropped.
pub proof fn law_continuations_follow_an_error(m: BuildModel, line: Seq<char>)
    requires
        goes_on(line),
    ensures
        build_step(m, line) == if m.body.len() > 0 && "[ERROR]"@.is_prefix_of(m.body.last()) {
            BuildModel { body: m.body.push(seq![' ', ' '] + line), ..m }
        } else {
            m
        },
{
    reveal_strlit("  ");
    assert("  "@ =~= seq![' ', ' ']);
    reveal_strlit("symbol:");
    reveal_strlit("location:");
    reveal_strlit("required:");
    reveal_strlit("found:");
    reveal_strlit("reason:");
    reveal_strlit("[INFO]");
    reveal_strlit("[INFO] ");
    reveal_strlit("[INFO] ---");
    reveal_strlit("[INFO] Reactor Summary");
    reveal_strlit("[INFO] BUILD SUCCESS");
    reveal_strlit("[INFO] BUILD FAILURE");
    reveal_strlit("[INFO] Total time:");
    reveal_strlit("[INFO] Scanning for projects");
    reveal_strlit("[INFO] =====");
    reveal_strlit("[INFO] Downloading");
    reveal_strlit("[INFO] Downloaded");
    reveal_strlit("Downloading:");
    reveal_strlit("Downloaded:");
    reveal_strlit("Progress");
    reveal_strlit("[INFO] --- maven-");
    reveal_strlit("[INFO] Using encoding");
    reveal_strlit("[INFO] skip non existing");
    reveal_strlit("[INFO] Nothing to compile");
    reveal_strlit("[INFO] Copying ");
    reveal_strlit("[INFO] Changes detected");
    reveal_strlit("[INFO] Finished at:");
    reveal_strlit("[INFO] Using auto detected provider");
    reveal_strlit("[INFO] Compiling ");
    reveal_strlit("[ERROR]");
    reveal_strlit("[WARNING]");
    let head = if "symbol:"@.is_prefix_of(line) {
        "symbol:"@
    } else if "location:"@.is_prefix_of(line) {
        "location:"@
    } else if "required:"@.is_prefix_of(line) {
        "required:"@
    } else if "found:"@.is_prefix_of(line) {
        "found:"@
    } else {
        "reason:"@
    };
    lemma_first_char(line, head, 0);
    let c = line[0];
    assert(c == 's' || c == 'l' || c == 'r' || c == 'f');
    assert forall|h: Seq<char>| h.len() > 0 && (h[0] == '[' || h[0] == 'D' || h[0] == 'P') implies !(
    #[trigger] h.is_prefix_of(line)) by {
        if h.is_prefix_of(line) {
            lemma_first_char(line, h, 0);
        }
    }
    assert(!blank(line)) by {
        assert(!white(line[0]));
    }
}

/// Nothing else is kept: a line that is neither an error nor a warning, nor on what
/// is compiled, nor on a module while the summary is open, nor goes on about an
/// error.
pub proof fn law_all_other_lines_are_dropped(m: BuildModel, line: Seq<char>)
    requires
        !"[ERROR]"@.is_prefix_of(line),
        !"[WARNING]"@.is_prefix_of(line),
        !is_compiling(line),
        !(m.in_summary && is_module_line(line)),
        !goes_on(line),
    ensures
        build_step(m, line).body == m.body,
        verdict_in(line) is None ==> build_step(m, line).verdict == m.verdict,
        time_in(line) is None ==> build_step(m, line).time == m.time,
{
}

/// The report on a build, line by line: the first 50 lines that were kept, how many
/// more there were, and the verdict with the time. Where there is neither a line nor
/// a verdict, the report says so.
pub proof fn law_report_on_a_build(output: Seq<char>)
    ensures
        ({
            let m = build_scan(log_lines(output));
            let shown = lines_of(build_text(m));
            let n = m.body.len() as int;
            let first = if n < 50 {
                n
            } else {
                50
            };
            let more: int = if n > 50 {
                1
            } else {
                0
            };
            let verdict: int = if m.verdict.len() > 0 {
                1
            } else {
                0
            };
            &&& n == 0 && m.verdict.len() == 0 ==> build_text(m) == "mvn: ok"@
            &&& n > 0 || m.verdict.len() > 0 ==> shown.len() == first + more + verdict
            &&& forall|i: int| 0 <= i < first ==> #[trigger] shown[i] == m.body[i]
            &&& n > 50 ==> shown[50] == "... +"@ + decimal((n - 50) as nat) + " more lines"@
            &&& m.verdict.len() > 0 && m.time.len() > 0 ==> shown.last() == "BUILD "@ + m.verdict
                + (seq![' ', '('] + m.time + seq![')'])
            &&& m.verdict.len() > 0 && m.time.len() == 0 ==> shown.last() == "BUILD "@ + m.verdict
        }),
{
    let m = build_scan(log_lines(output));
    law_report_is_its_lines(output);
    law_time_stands_in_brackets(m.time);
    if m.verdict.len() > 0 && m.time.len() == 0 {
        assert("BUILD "@ + m.verdict + seq![] =~= "BUILD "@ + m.verdict);
        assert(footer(m.verdict, m.time) =~= "BUILD "@ + m.verdict);
    }
}

/// A build is read from its first line to its last, each line once. Before the first
/// nothing is known.
pub proof fn law_builds_are_read_in_order(log: Seq<Seq<char>>, line: Seq<char>)
    ensures
        build_scan(log.push(line)) == build_step(build_scan(log), line),
        ({
            let m = build_scan(seq![]);
            !m.in_summary && m.body.len() == 0 && m.verdict.len() == 0 && m.time.len() == 0
        }),
{
    assert(log.push(line).drop_last() =~= log);
}

} // verus!
