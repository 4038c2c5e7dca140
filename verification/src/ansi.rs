//! Terminal colour codes.

use vstd::prelude::*;

use crate::strings::chars_of;

verus! {

/// Whether `c` may stand among the parameters of a colour code.
pub open spec fn code_parameter(c: char) -> bool {
    '0' <= c <= '9' || c == ';'
}

/// Whether `c` ends a colour code.
pub open spec fn code_end(c: char) -> bool {
    'a' <= c <= 'z' || 'A' <= c <= 'Z'
}

/// How many parameter characters `s` starts with.
pub open spec fn parameter_run(s: Seq<char>) -> nat
    decreases s.len(),
{
    if s.len() > 0 && code_parameter(s[0]) {
        1 + parameter_run(s.drop_first())
    } else {
        0
    }
}

/// The length of the colour code that `s` starts with: an escape character, a
/// bracket, parameters, and a letter. Zero where `s` starts with none.
pub open spec fn code_len(s: Seq<char>) -> nat {
    let n = 2 + parameter_run(s.skip(2));
    if s.len() > n && s[0] == '\u{1b}' && s[1] == '[' && code_end(s[n as int]) {
        n + 1
    } else {
        0
    }
}

/// A text without its colour codes.
pub open spec fn plain(s: Seq<char>) -> Seq<char>
    decreases s.len(),
{
    let n = code_len(s);
    if s.len() == 0 {
        s
    } else if n > 0 {
        plain(s.skip(n as int))
    } else {
        seq![s[0]] + plain(s.drop_first())
    }
}

/// The length of the colour code at the position `at`.
fn code_len_at(chars: &Vec<char>, at: usize) -> (n: usize)
    requires
        at <= chars@.len(),
    ensures
        n == code_len(chars@.skip(at as int)),
        at + n <= chars@.len(),
{
    let len: usize = chars.len();
    if len - at < 3 || chars[at] != '\u{1b}' || chars[at + 1] != '[' {
        return 0;
    }
    let ghost s = chars@.skip(at as int);
    let mut i: usize = at + 2;
    assert(s.skip(2) =~= chars@.skip(at as int + 2));
    while i < len && (('0' <= chars[i] && chars[i] <= '9') || chars[i] == ';')
        invariant
            len == chars@.len(),
            at + 2 <= i <= len,
            s == chars@.skip(at as int),
            parameter_run(s.skip(2)) == i - at - 2 + parameter_run(chars@.skip(i as int)),
        decreases len - i,
    {
        assert(chars@.skip(i as int).drop_first() =~= chars@.skip(i as int + 1));
        i += 1;
    }
    assert(parameter_run(s.skip(2)) == i - at - 2);
    if i < len && (('a' <= chars[i] && chars[i] <= 'z') || ('A' <= chars[i] && chars[i] <= 'Z')) {
        i - at + 1
    } else {
        0
    }
}

/// Strips the colour codes from a text.
pub fn strip_ansi(text: &str) -> (r: String)
    ensures
        r@ == plain(text@),
{
    let chars = chars_of(text);
    let n: usize = chars.len();
    let mut r = String::new();
    let mut i: usize = 0;
    assert(text@.skip(0) =~= text@);
    while i < n
        invariant
            chars@ == text@,
            n == text@.len(),
            i <= n,
            plain(text@) == r@ + plain(text@.skip(i as int)),
        decreases n - i,
    {
        let ghost rest = text@.skip(i as int);
        let ghost done = r@;
        let k: usize = code_len_at(&chars, i);
        if k > 0 {
            assert(rest.skip(k as int) =~= text@.skip(i as int + k));
            i += k;
        } else {
            r.push(chars[i]);
            assert(rest.drop_first() =~= text@.skip(i as int + 1));
            assert(done + (seq![rest[0]] + plain(rest.drop_first())) =~= r@ + plain(
                rest.drop_first(),
            ));
            i += 1;
        }
    }
    assert(text@.skip(n as int) =~= seq![]);
    assert(r@ + plain(text@.skip(n as int)) =~= r@);
    r
}

} // verus!
