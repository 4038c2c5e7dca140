//! The output of a build: compile, package, install.

use vstd::prelude::*;

use crate::grammar::{
    is_compiling, is_module_line, is_noise, opens_summary, time_in, verdict_in,
};
use crate::log::{log_lines, read_log, show_time, time_note};
use crate::pattern::{
    Pattern, BUILD_STATUS, COMPILING, NOISE, REACTOR_LINE, REACTOR_SUMMARY, TOTAL_TIME,
};
use crate::strings::{decimal_string, join, same, starts_with, truncate};
use crate::text::{contents, decimal, joined, truncated};

verus! {

/// How many lines of a build's output are kept, not counting the verdict.
pub const MAX_BODY_LINES: usize = 50;

/// How many characters of an error or a warning are kept.
pub const MAX_LINE_WIDTH: usize = 150;

/// What has been gathered from the lines of a build so far.
#[verifier::ext_equal]
pub struct BuildModel {
    /// Whether the lines on the modules are being listed.
    pub in_summary: bool,
    /// The lines that were kept.
    pub body: Seq<Seq<char>>,
    /// The last verdict, empty where there was none.
    pub verdict: Seq<char>,
    /// The last total time, empty where there was none.
    pub time: Seq<char>,
}

/// A line that ends the list of modules.
pub open spec fn closes_summary(line: Seq<char>) -> bool {
    line == "[INFO]"@ || "[INFO] ---"@.is_prefix_of(line)
}

/// An error.
pub open spec fn is_error(line: Seq<char>) -> bool {
    "[ERROR]"@.is_prefix_of(line)
}

/// A warning.
pub open spec fn is_warning(line: Seq<char>) -> bool {
    "[WARNING]"@.is_prefix_of(line)
}

/// A line in which the compiler goes on about the error above.
pub open spec fn is_continuation(line: Seq<char>) -> bool {
    ||| "symbol:"@.is_prefix_of(line)
    ||| "location:"@.is_prefix_of(line)
    ||| "required:"@.is_prefix_of(line)
    ||| "found:"@.is_prefix_of(line)
    ||| "reason:"@.is_prefix_of(line)
}

/// Whether the last line that was kept is an error.
pub open spec fn ends_in_error(body: Seq<Seq<char>>) -> bool {
    body.len() > 0 && is_error(body.last())
}

/// What is kept of a line that belongs neither to the verdict nor to the list of
/// modules.
pub open spec fn kept(line: Seq<char>, body: Seq<Seq<char>>) -> Option<Seq<char>> {
    if is_noise(line) {
        None
    } else if is_error(line) || is_warning(line) {
        Some(truncated(line, MAX_LINE_WIDTH as nat))
    } else if is_compiling(line) {
        Some(line)
    } else if ends_in_error(body) && is_continuation(line) {
        Some("  "@ + line)
    } else {
        None
    }
}

/// What has been gathered once one more line is read.
pub open spec fn build_step(m: BuildModel, line: Seq<char>) -> BuildModel {
    if opens_summary(line) {
        BuildModel { in_summary: true, ..m }
    } else if verdict_in(line) is Some {
        BuildModel { verdict: verdict_in(line)->0, ..m }
    } else if time_in(line) is Some {
        BuildModel { time: time_in(line)->0, ..m }
    } else if m.in_summary && is_module_line(line) {
        BuildModel { body: m.body.push(line), ..m }
    } else if m.in_summary && closes_summary(line) {
        BuildModel { in_summary: false, ..m }
    } else {
        match kept(line, m.body) {
            Some(text) => BuildModel { body: m.body.push(text), ..m },
            None => m,
        }
    }
}

/// What the lines of a log give.
pub open spec fn build_scan(log: Seq<Seq<char>>) -> BuildModel
    decreases log.len(),
{
    if log.len() == 0 {
        BuildModel { in_summary: false, body: seq![], verdict: seq![], time: seq![] }
    } else {
        build_step(build_scan(log.drop_last()), log.last())
    }
}

/// The note on the lines that were dropped.
pub open spec fn dropped_note(dropped: nat) -> Seq<char> {
    "... +"@ + decimal(dropped) + " more lines"@
}

/// The lines that are shown of those that were kept.
pub open spec fn capped(body: Seq<Seq<char>>) -> Seq<Seq<char>> {
    if body.len() > MAX_BODY_LINES {
        body.take(MAX_BODY_LINES as int).push(dropped_note((body.len() - MAX_BODY_LINES) as nat))
    } else {
        body
    }
}

/// The last line, on the outcome of the build.
pub open spec fn footer(verdict: Seq<char>, time: Seq<char>) -> Seq<char> {
    "BUILD "@ + verdict + time_note(time)
}

/// All lines that are shown.
pub open spec fn build_lines(m: BuildModel) -> Seq<Seq<char>> {
    if m.verdict.len() > 0 {
        capped(m.body).push(footer(m.verdict, m.time))
    } else {
        capped(m.body)
    }
}

/// The text that is shown.
pub open spec fn build_text(m: BuildModel) -> Seq<char> {
    if build_lines(m).len() == 0 {
        "mvn: ok"@
    } else {
        joined(build_lines(m), "\n"@)
    }
}

/// The patterns that tell the lines of a build apart.
pub struct BuildRules {
    summary: Pattern,
    verdict: Pattern,
    time: Pattern,
    module: Pattern,
    noise: Pattern,
    compiling: Pattern,
}

impl BuildRules {
    /// Whether each pattern is the one that its name says.
    pub closed spec fn wf(&self) -> bool {
        &&& self.summary@ == REACTOR_SUMMARY@
        &&& self.verdict@ == BUILD_STATUS@
        &&& self.time@ == TOTAL_TIME@
        &&& self.module@ == REACTOR_LINE@
        &&& self.noise@ == NOISE@
        &&& self.compiling@ == COMPILING@
    }

    /// Compiles the patterns.
    pub fn new() -> (rules: BuildRules)
        ensures
            rules.wf(),
    {
        BuildRules {
            summary: Pattern::new(REACTOR_SUMMARY),
            verdict: Pattern::new(BUILD_STATUS),
            time: Pattern::new(TOTAL_TIME),
            module: Pattern::new(REACTOR_LINE),
            noise: Pattern::new(NOISE),
            compiling: Pattern::new(COMPILING),
        }
    }
}

/// Whether a line tells nothing.
pub fn is_noise_line(line: &str) -> (r: bool)
    ensures
        r == is_noise(line@),
{
    Pattern::new(NOISE).is_match(line)
}

/// What has been gathered from the lines of a build so far.
pub struct BuildScan {
    in_summary: bool,
    body: Vec<String>,
    verdict: String,
    time: String,
}

impl View for BuildScan {
    type V = BuildModel;

    closed spec fn view(&self) -> BuildModel {
        BuildModel {
            in_summary: self.in_summary,
            body: contents(self.body@),
            verdict: self.verdict@,
            time: self.time@,
        }
    }
}

impl BuildScan {
    /// Nothing gathered yet.
    pub fn new() -> (scan: BuildScan)
        ensures
            scan@ == build_scan(seq![]),
    {
        let scan = BuildScan {
            in_summary: false,
            body: Vec::new(),
            verdict: String::new(),
            time: String::new(),
        };
        assert(scan@ =~= build_scan(seq![]));
        scan
    }

    /// Adds a line to those that were kept.
    fn keep(&mut self, line: String)
        ensures
            final(self)@ == (BuildModel { body: old(self)@.body.push(line@), ..old(self)@ }),
    {
        self.body.push(line);
        assert(self@ =~= (BuildModel { body: old(self)@.body.push(line@), ..old(self)@ }));
    }

    /// Whether the last line that was kept is an error.
    fn ends_in_error(&self) -> (r: bool)
        ensures
            r == ends_in_error(self@.body),
    {
        let n: usize = self.body.len();
        n > 0 && starts_with(self.body[n - 1].as_str(), "[ERROR]")
    }

    /// Reads one more line. Those of a log come without white space at either end.
    pub fn step(&mut self, rules: &BuildRules, line: &str)
        requires
            rules.wf(),
        ensures
            final(self)@ == build_step(old(self)@, line@),
    {
        if rules.summary.is_match(line) {
            self.in_summary = true;
            return;
        }
        if let Some(verdict) = rules.verdict.capture_one(line) {
            self.verdict = verdict;
            return;
        }
        if let Some(time) = rules.time.capture_one(line) {
            self.time = time;
            return;
        }
        if self.in_summary {
            if rules.module.is_match(line) {
                self.keep(line.to_owned());
                return;
            }
            if same(line, "[INFO]") || starts_with(line, "[INFO] ---") {
                self.in_summary = false;
                return;
            }
        }
        if rules.noise.is_match(line) {
            return;
        }
        if starts_with(line, "[ERROR]") || starts_with(line, "[WARNING]") {
            self.keep(truncate(line, MAX_LINE_WIDTH));
            return;
        }
        if rules.compiling.is_match(line) {
            self.keep(line.to_owned());
            return;
        }
        if self.ends_in_error() && (starts_with(line, "symbol:") || starts_with(line, "location:")
            || starts_with(line, "required:") || starts_with(line, "found:") || starts_with(
            line,
            "reason:",
        )) {
            let mut text = "  ".to_owned();
            text.append(line);
            self.keep(text);
        }
    }

    /// The text that is shown.
    pub fn finish(self) -> (r: String)
        ensures
            r@ == build_text(self@),
    {
        let ghost m = self@;
        let mut shown: Vec<String> = self.body;
        let total: usize = shown.len();
        // The cap comes before the footer, so that the verdict always survives.
        if total > MAX_BODY_LINES {
            shown.truncate(MAX_BODY_LINES);
            let mut note = "... +".to_owned();
            note.append(decimal_string(total - MAX_BODY_LINES).as_str());
            note.append(" more lines");
            shown.push(note);
        }
        assert(contents(shown@) =~= capped(m.body));
        if !self.verdict.as_str().is_empty() {
            let mut last = "BUILD ".to_owned();
            last.append(self.verdict.as_str());
            last.append(show_time(self.time.as_str()).as_str());
            shown.push(last);
            assert(contents(shown@) =~= capped(m.body).push(footer(m.verdict, m.time)));
        }
        if shown.is_empty() {
            return "mvn: ok".to_owned();
        }
        join(&shown, "\n")
    }
}

/// Condenses the output of a build: strips the noise, keeps errors and warnings,
/// the outcome of each module, and the verdict.
pub fn filter_mvn_build(output: &str) -> (r: String)
    ensures
        r@ == build_text(build_scan(log_lines(output@))),
{
    let log = read_log(output);
    let rules = BuildRules::new();
    let mut scan = BuildScan::new();
    let ghost all = contents(log@);
    let mut i: usize = 0;
    assert(all.take(0) =~= seq![]);
    while i < log.len()
        invariant
            rules.wf(),
            i <= log@.len(),
            all == contents(log@),
            scan@ == build_scan(all.take(i as int)),
        decreases log@.len() - i,
    {
        scan.step(&rules, log[i].as_str());
        assert(all.take(i as int + 1).drop_last() =~= all.take(i as int));
        i += 1;
    }
    assert(all.take(i as int) =~= all);
    scan.finish()
}

} // verus!
