//! The tests that failed, and how two reports on one failure become one.

use vstd::prelude::*;

use crate::strings::{chars_of, same, string_of};
use crate::text::{contents, last_of};

verus! {

/// What is known of a test that failed.
#[derive(Debug)]
pub struct MavenTestFailure {
    /// The class and the method.
    pub test_name: String,
    /// The name with the package, where the log gave it. The report on a single
    /// test does, the list of failures does not, so this alone can tell apart two
    /// tests of one name in different packages, and only where both sides have it.
    pub fqn: String,
    /// What went wrong.
    pub message: String,
    /// The method and the line.
    pub location: String,
    /// The lines of the stack trace that are shown.
    pub stack_lines: Vec<String>,
}

/// The contents of a [`MavenTestFailure`].
#[verifier::ext_equal]
pub struct FailureModel {
    pub test_name: Seq<char>,
    pub fqn: Seq<char>,
    pub message: Seq<char>,
    pub location: Seq<char>,
    pub stack_lines: Seq<Seq<char>>,
}

impl View for MavenTestFailure {
    type V = FailureModel;

    open spec fn view(&self) -> FailureModel {
        FailureModel {
            test_name: self.test_name@,
            fqn: self.fqn@,
            message: self.message@,
            location: self.location@,
            stack_lines: contents(self.stack_lines@),
        }
    }
}

/// The contents of a list of failures.
pub open spec fn failure_models(list: Seq<MavenTestFailure>) -> Seq<FailureModel> {
    list.map_values(|f: MavenTestFailure| f@)
}

/// Whether two reports are on one test: the names are the same, and so are the
/// full names where both are known.
pub open spec fn same_test(a: FailureModel, b: FailureModel) -> bool {
    &&& a.test_name == b.test_name
    &&& a.fqn.len() == 0 || b.fqn.len() == 0 || a.fqn == b.fqn
}

/// `a` where it holds something, else `b`.
pub open spec fn filled<T>(a: Seq<T>, b: Seq<T>) -> Seq<T> {
    if a.len() == 0 {
        b
    } else {
        a
    }
}

/// A report with its gaps filled from another one on the same test.
pub open spec fn merged(known: FailureModel, incoming: FailureModel) -> FailureModel {
    FailureModel {
        test_name: known.test_name,
        fqn: filled(known.fqn, incoming.fqn),
        message: filled(known.message, incoming.message),
        location: filled(known.location, incoming.location),
        stack_lines: filled(known.stack_lines, incoming.stack_lines),
    }
}

/// The position of the first report on the test of `f`.
pub open spec fn known_at(list: Seq<FailureModel>, f: FailureModel) -> Option<nat>
    decreases list.len(),
{
    if list.len() == 0 {
        None
    } else if known_at(list.drop_last(), f) is Some {
        known_at(list.drop_last(), f)
    } else if same_test(list.last(), f) {
        Some((list.len() - 1) as nat)
    } else {
        None
    }
}

/// A list of failures with one more report: it is merged into the first on the
/// same test, or added at the end.
pub open spec fn upserted(list: Seq<FailureModel>, f: FailureModel) -> Seq<FailureModel> {
    match known_at(list, f) {
        Some(i) => list.update(i as int, merged(list[i as int], f)),
        None => list.push(f),
    }
}

/// Whether two reports are on one test.
pub(crate) fn is_same_test(a: &MavenTestFailure, b: &MavenTestFailure) -> (r: bool)
    ensures
        r == same_test(a@, b@),
{
    same(a.test_name.as_str(), b.test_name.as_str()) && (a.fqn.as_str().is_empty()
        || b.fqn.as_str().is_empty() || same(a.fqn.as_str(), b.fqn.as_str()))
}

/// The position of the first report on the test of `f`.
pub(crate) fn find_known(
    failures: &Vec<MavenTestFailure>,
    f: &MavenTestFailure,
) -> (r: Option<usize>)
    ensures
        match r {
            Some(i) => i < failures@.len() && known_at(failure_models(failures@), f@) == Some(
                i as nat,
            ),
            None => known_at(failure_models(failures@), f@) is None,
        },
{
    let ghost list = failure_models(failures@);
    let mut i: usize = 0;
    while i < failures.len()
        invariant
            i <= failures@.len(),
            list == failure_models(failures@),
            known_at(list.take(i as int), f@) is None,
        decreases failures@.len() - i,
    {
        assert(list.take(i as int + 1).drop_last() =~= list.take(i as int));
        if is_same_test(&failures[i], f) {
            proof {
                lemma_known_stays(list, f@, i as int + 1);
            }
            return Some(i);
        }
        i += 1;
    }
    assert(list.take(i as int) =~= list);
    None
}

/// Entries behind the first report on a test do not matter.
proof fn lemma_known_stays(list: Seq<FailureModel>, f: FailureModel, n: int)
    requires
        0 <= n <= list.len(),
        known_at(list.take(n), f) is Some,
    ensures
        known_at(list, f) == known_at(list.take(n), f),
    decreases list.len(),
{
    if n < list.len() {
        assert(list.drop_last().take(n) =~= list.take(n));
        lemma_known_stays(list.drop_last(), f, n);
    } else {
        assert(list.take(n) =~= list);
    }
}

/// Merges a report into the list, or adds it where its test is new.
///
/// Surefire reports a failure twice, in a block of its own with the message and
/// the stack, and in the list of failures with the message and the line, so
/// neither report is complete and to keep both would show the test twice.
pub fn upsert_failure(failures: &mut Vec<MavenTestFailure>, incoming: MavenTestFailure)
    ensures
        failure_models(final(failures)@) == upserted(failure_models(old(failures)@), incoming@),
{
    let ghost before = failure_models(failures@);
    match find_known(failures, &incoming) {
        Some(i) => {
            let known = &mut failures[i];
            if known.fqn.as_str().is_empty() {
                known.fqn = incoming.fqn;
            }
            if known.message.as_str().is_empty() {
                known.message = incoming.message;
            }
            if known.location.as_str().is_empty() {
                known.location = incoming.location;
            }
            if known.stack_lines.is_empty() {
                known.stack_lines = incoming.stack_lines;
            }
            assert(failure_models(failures@) =~= before.update(
                i as int,
                merged(before[i as int], incoming@),
            ));
        },
        None => {
            failures.push(incoming);
            assert(failure_models(failures@) =~= before.push(incoming@));
        },
    }
}

/// The end of a dotted name from the last dot but one on: the class and the
/// method of a test. All of the name where it has fewer than two dots.
pub open spec fn compact(name: Seq<char>) -> Seq<char> {
    match last_of(name, '.') {
        Some(last) => match last_of(name.take(last as int), '.') {
            Some(i) => name.skip(i as int + 1),
            None => name,
        },
        None => name,
    }
}

/// The position of the last dot before `end`.
fn last_dot(chars: &Vec<char>, end: usize) -> (r: Option<usize>)
    requires
        end <= chars@.len(),
    ensures
        match r {
            Some(i) => i < end && last_of(chars@.take(end as int), '.') == Some(i as nat),
            None => last_of(chars@.take(end as int), '.') is None,
        },
{
    let mut i: usize = end;
    while i > 0
        invariant
            i <= end <= chars@.len(),
            last_of(chars@.take(end as int), '.') == last_of(chars@.take(i as int), '.'),
        decreases i,
    {
        assert(chars@.take(i as int).drop_last() =~= chars@.take(i as int - 1));
        i -= 1;
        if chars[i] == '.' {
            return Some(i);
        }
    }
    None
}

/// Drops the package from the name of a test.
pub fn compact_test_name(name: &str) -> (r: String)
    ensures
        r@ == compact(name@),
{
    let chars = chars_of(name);
    let n: usize = chars.len();
    assert(name@.take(n as int) =~= name@);
    if let Some(last) = last_dot(&chars, n) {
        if let Some(i) = last_dot(&chars, last) {
            let r = string_of(&chars, i + 1, n);
            assert(r@ =~= name@.skip(i as int + 1));
            return r;
        }
    }
    name.to_owned()
}

} // verus!
