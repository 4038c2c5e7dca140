//! What is said of a build that printed nothing worth keeping.

use vstd::prelude::*;

use crate::strings::{same, signed_decimal_string};
use crate::text::signed_decimal;

verus! {

/// What a build filter says where every line was noise.
pub open spec fn ok_text(label: Seq<char>) -> Seq<char> {
    label + ": ok"@
}

/// What is said in its place of a command that failed.
pub open spec fn silent_failure_text(label: Seq<char>, exit_code: int) -> Seq<char> {
    label + " failed (exit "@ + signed_decimal(exit_code) + ", no diagnostic output)"@
}

/// The text of a build filter in the light of the exit code.
pub open spec fn reworded(filtered: Seq<char>, label: Seq<char>, exit_code: int) -> Seq<char> {
    if exit_code != 0 && filtered == ok_text(label) {
        silent_failure_text(label, exit_code)
    } else {
        filtered
    }
}

/// Rewords the line of a build filter that has nothing to report, where the
/// command failed.
///
/// A build filter says `ok` where every line turned out to be noise. That is
/// right where the exit code is zero, and wrong where it is not. The filters
/// never see the exit code, so this comes after them.
pub fn reword_if_failed(filtered: String, label: &str, exit_code: i32) -> (r: String)
    ensures
        r@ == reworded(filtered@, label@, exit_code as int),
{
    let mut ok = label.to_owned();
    ok.append(": ok");
    if exit_code != 0 && same(filtered.as_str(), ok.as_str()) {
        let mut r = label.to_owned();
        r.append(" failed (exit ");
        r.append(signed_decimal_string(exit_code).as_str());
        r.append(", no diagnostic output)");
        r
    } else {
        filtered
    }
}

} // verus!
