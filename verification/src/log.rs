//! What the outputs of a build and of a test run have in common.

use vstd::prelude::*;

use crate::ansi::{plain, strip_ansi};
use crate::strings::{lines, trim};
use crate::text::{contents, lines_of, trimmed};

verus! {

/// The lines of a log, without colour codes.
pub open spec fn indented_lines(output: Seq<char>) -> Seq<Seq<char>> {
    lines_of(plain(output))
}

/// The lines of a log, without colour codes and without white space at either
/// end.
pub open spec fn log_lines(output: Seq<char>) -> Seq<Seq<char>> {
    indented_lines(output).map_values(|line: Seq<char>| trimmed(line))
}

/// The total time in brackets, where there is one.
pub open spec fn time_note(time: Seq<char>) -> Seq<char> {
    if time.len() == 0 {
        seq![]
    } else {
        " ("@ + time + ")"@
    }
}

/// The lines of a log, without colour codes.
pub(crate) fn read_indented(output: &str) -> (log: Vec<String>)
    ensures
        contents(log@) == indented_lines(output@),
{
    // Most patterns are anchored at the start of their line, so a colour code in
    // front would defeat them.
    lines(strip_ansi(output).as_str())
}

/// The lines of a log, without colour codes and without white space at either
/// end.
pub(crate) fn read_log(output: &str) -> (log: Vec<String>)
    ensures
        contents(log@) == log_lines(output@),
{
    let raw = read_indented(output);
    let mut log: Vec<String> = Vec::new();
    let ghost trim_all = |line: Seq<char>| trimmed(line);
    let mut i: usize = 0;
    while i < raw.len()
        invariant
            i <= raw@.len(),
            log@.len() == i,
            forall|k: int| 0 <= k < i ==> (#[trigger] log@[k])@ == trimmed(raw@[k]@),
        decreases raw@.len() - i,
    {
        log.push(trim(raw[i].as_str()));
        i += 1;
    }
    assert(contents(log@) =~= contents(raw@).map_values(trim_all));
    log
}

/// The total time in brackets, where there is one.
pub(crate) fn show_time(time: &str) -> (r: String)
    ensures
        r@ == time_note(time@),
{
    let mut r = String::new();
    if !time.is_empty() {
        r.append(" (");
        r.append(time);
        r.append(")");
    }
    r
}

} // verus!
