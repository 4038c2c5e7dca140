//! The executable operations on strings that the filters are made of.

use vstd::prelude::*;

use crate::text::{
    ascii_digits, before, contents, count_value, decimal, drop_return, find_in, holds, joined,
    lines_of, number, signed_decimal, trim_back, trim_front, trimmed, truncated, until, white,
    without_prefixes,
};

verus! {

/// `String::push`: appends one character to the end of the string.
pub assume_specification[ String::push ](s: &mut String, ch: char)
    ensures
        final(s)@ == old(s)@.push(ch),
;

/// The characters of a string.
pub(crate) fn chars_of(s: &str) -> (chars: Vec<char>)
    ensures
        chars@ == s@,
{
    let mut chars: Vec<char> = Vec::new();
    for c in it: s.chars()
        invariant
            chars@ == it.seq().take(it.index() as int),
            it.seq() == s@,
    {
        chars.push(c);
        assert(chars@ =~= it.seq().take(it.index() as int + 1));
    }
    assert(chars@ =~= s@);
    chars
}

/// The string of the characters from `from` up to, not including, `to`.
pub(crate) fn string_of(chars: &Vec<char>, from: usize, to: usize) -> (s: String)
    requires
        from <= to <= chars@.len(),
    ensures
        s@ == chars@.subrange(from as int, to as int),
{
    let mut s = String::new();
    let mut i: usize = from;
    while i < to
        invariant
            from <= i <= to <= chars@.len(),
            s@ == chars@.subrange(from as int, i as int),
        decreases to - i,
    {
        s.push(chars[i]);
        i += 1;
        assert(s@ =~= chars@.subrange(from as int, i as int));
    }
    s
}

/// Whether two strings hold the same characters.
pub(crate) fn same(a: &str, b: &str) -> (r: bool)
    ensures
        r == (a@ == b@),
{
    a.to_owned() == b.to_owned()
}

/// Whether a character is white space.
pub(crate) fn is_white(c: char) -> (r: bool)
    ensures
        r == white(c),
{
    ('\u{9}' <= c && c <= '\u{d}') || c == ' ' || c == '\u{85}' || c == '\u{a0}' || c
        == '\u{1680}' || ('\u{2000}' <= c && c <= '\u{200a}') || c == '\u{2028}' || c
        == '\u{2029}' || c == '\u{202f}' || c == '\u{205f}' || c == '\u{3000}'
}

/// `s` without white space at either end.
pub(crate) fn trim(s: &str) -> (r: String)
    ensures
        r@ == trimmed(s@),
{
    let chars = chars_of(s);
    let n: usize = chars.len();
    let mut from: usize = 0;
    assert(s@.skip(0) =~= s@);
    while from < n && is_white(chars[from])
        invariant
            chars@ == s@,
            n == s@.len(),
            from <= n,
            trim_front(s@) == trim_front(s@.skip(from as int)),
        decreases n - from,
    {
        assert(s@.skip(from as int).drop_first() =~= s@.skip(from as int + 1));
        from += 1;
    }
    let ghost front = s@.skip(from as int);
    assert(trim_front(s@) == front);
    let mut to: usize = n;
    assert(s@.subrange(from as int, n as int) =~= front);
    while from < to && is_white(chars[to - 1])
        invariant
            chars@ == s@,
            n == s@.len(),
            from <= to <= n,
            trim_back(front) == trim_back(s@.subrange(from as int, to as int)),
        decreases to,
    {
        assert(s@.subrange(from as int, to as int).drop_last() =~= s@.subrange(
            from as int,
            to as int - 1,
        ));
        to -= 1;
    }
    string_of(&chars, from, to)
}

/// Whether `s` starts with `prefix`.
pub(crate) fn starts_with(s: &str, prefix: &str) -> (r: bool)
    ensures
        r == prefix@.is_prefix_of(s@),
{
    let chars = chars_of(s);
    let what = chars_of(prefix);
    occurs_at(&chars, &what, 0)
}

/// Whether `what` stands in `chars` at the position `at`.
fn occurs_at(chars: &Vec<char>, what: &Vec<char>, at: usize) -> (r: bool)
    requires
        at <= chars@.len(),
    ensures
        r == what@.is_prefix_of(chars@.skip(at as int)),
{
    let n: usize = chars.len();
    if what.len() > n - at {
        return false;
    }
    let mut i: usize = 0;
    while i < what.len()
        invariant
            n == chars@.len(),
            i <= what@.len() <= n - at,
            forall|k: int| 0 <= k < i ==> what@[k] == chars@[at + k],
        decreases what@.len() - i,
    {
        if what[i] != chars[at + i] {
            assert(what@[i as int] != chars@.skip(at as int).subrange(0, what@.len() as int)[i as int]);
            return false;
        }
        i += 1;
    }
    assert(what@ =~= chars@.skip(at as int).subrange(0, what@.len() as int));
    true
}

/// Where `what` first occurs in `chars`.
fn position(chars: &Vec<char>, what: &Vec<char>) -> (r: Option<usize>)
    ensures
        match r {
            Some(i) => find_in(chars@, what@) == Some(i as nat) && i + what@.len() <= chars@.len(),
            None => find_in(chars@, what@) is None,
        },
{
    let mut i: usize = 0;
    assert(chars@.skip(0) =~= chars@);
    loop
        invariant
            i <= chars@.len(),
            find_in(chars@, what@) == (match find_in(chars@.skip(i as int), what@) {
                Some(k) => Some((k + i) as nat),
                None => None,
            }),
        decreases chars@.len() - i,
    {
        if occurs_at(chars, what, i) {
            return Some(i);
        }
        if i == chars.len() {
            return None;
        }
        assert(chars@.skip(i as int).drop_first() =~= chars@.skip(i as int + 1));
        i += 1;
    }
}

/// Whether `what` occurs in `s`.
pub(crate) fn contains(s: &str, what: &str) -> (r: bool)
    ensures
        r == holds(s@, what@),
{
    position(&chars_of(s), &chars_of(what)).is_some()
}

/// The part of `s` that follows the first `what`, if it occurs.
pub(crate) fn after_first(s: &str, what: &str) -> (r: Option<String>)
    ensures
        match find_in(s@, what@) {
            Some(i) => r matches Some(t) && t@ == s@.skip((i + what@.len()) as int),
            None => r is None,
        },
{
    let chars = chars_of(s);
    let pattern = chars_of(what);
    let n: usize = chars.len();
    match position(&chars, &pattern) {
        Some(i) => {
            let t = string_of(&chars, i + pattern.len(), n);
            assert(t@ =~= s@.skip((i + what@.len()) as int));
            Some(t)
        },
        None => None,
    }
}

/// The part of `s` before the first `separator`.
pub(crate) fn before_first(s: &str, separator: &str) -> (r: String)
    ensures
        r@ == before(s@, separator@),
{
    let chars = chars_of(s);
    match position(&chars, &chars_of(separator)) {
        Some(i) => {
            let t = string_of(&chars, 0, i);
            assert(t@ =~= s@.take(i as int));
            t
        },
        None => s.to_owned(),
    }
}

/// `s` without the copies of `prefix` that it starts with.
pub(crate) fn strip_prefixes(s: &str, prefix: &str) -> (r: String)
    ensures
        r@ == without_prefixes(s@, prefix@),
{
    let chars = chars_of(s);
    let what = chars_of(prefix);
    let n: usize = chars.len();
    let mut at: usize = 0;
    assert(s@.skip(0) =~= s@);
    if what.len() > 0 {
        while occurs_at(&chars, &what, at)
            invariant
                what@.len() > 0,
                what@ == prefix@,
                chars@ == s@,
                n == s@.len(),
                at <= n,
                without_prefixes(s@, prefix@) == without_prefixes(s@.skip(at as int), prefix@),
            decreases s@.len() - at,
        {
            assert(s@.skip(at as int).skip(prefix@.len() as int) =~= s@.skip(at + prefix@.len()));
            at += what.len();
        }
    }
    let r = string_of(&chars, at, n);
    assert(r@ =~= s@.skip(at as int));
    r
}

/// The lines of a text.
pub(crate) fn lines(s: &str) -> (r: Vec<String>)
    ensures
        contents(r@) == lines_of(s@),
{
    let chars = chars_of(s);
    let n: usize = chars.len();
    let mut r: Vec<String> = Vec::new();
    let mut from: usize = 0;
    assert(s@.skip(0) =~= s@);
    assert(contents(r@) =~= seq![]);
    while from < n
        invariant
            chars@ == s@,
            n == s@.len(),
            from <= n,
            lines_of(s@) =~= contents(r@) + lines_of(s@.skip(from as int)),
        decreases n - from,
    {
        let ghost rest = s@.skip(from as int);
        let ghost done = contents(r@);
        let mut end: usize = from;
        assert(s@.skip(end as int) =~= rest);
        while end < n && chars[end] != '\n'
            invariant
                chars@ == s@,
                n == s@.len(),
                from <= end <= n,
                rest == s@.skip(from as int),
                until(rest, '\n') == end - from + until(s@.skip(end as int), '\n'),
            decreases n - end,
        {
            assert(s@.skip(end as int).drop_first() =~= s@.skip(end as int + 1));
            end += 1;
        }
        assert(until(rest, '\n') == end - from);
        if end == n {
            let line = string_of(&chars, from, n);
            assert(line@ =~= rest);
            r.push(line);
            assert(contents(r@) =~= done.push(rest));
            assert(lines_of(rest) =~= seq![rest]);
            assert(s@.skip(n as int) =~= seq![]);
            from = n;
        } else {
            assert(rest.take(end - from) =~= s@.subrange(from as int, end as int));
            let to: usize = if end > from && chars[end - 1] == '\r' { end - 1 } else { end };
            let line = string_of(&chars, from, to);
            assert(line@ =~= drop_return(rest.take(end - from)));
            r.push(line);
            assert(contents(r@) =~= done.push(line@));
            assert(rest.skip(end - from + 1) =~= s@.skip(end as int + 1));
            from = end + 1;
        }
    }
    assert(s@.skip(n as int) =~= seq![]);
    r
}

/// The strings of a list one after the other, with `separator` between any two.
pub(crate) fn join(list: &Vec<String>, separator: &str) -> (r: String)
    ensures
        r@ == joined(contents(list@), separator@),
{
    let mut r = String::new();
    let ghost parts = contents(list@);
    let mut i: usize = 0;
    assert(parts.take(0) =~= seq![]);
    while i < list.len()
        invariant
            i <= list@.len(),
            parts == contents(list@),
            r@ == joined(parts.take(i as int), separator@),
        decreases list@.len() - i,
    {
        assert(parts.take(i as int + 1).drop_last() =~= parts.take(i as int));
        if i > 0 {
            r.append(separator);
        }
        r.append(list[i].as_str());
        assert(r@ =~= joined(parts.take(i as int + 1), separator@));
        i += 1;
    }
    assert(parts.take(list@.len() as int) =~= parts);
    r
}

/// Cuts a text to at most `max` characters. A text that is cut ends in three
/// dots.
pub fn truncate(s: &str, max: usize) -> (r: String)
    ensures
        r@ == truncated(s@, max as nat),
{
    let chars = chars_of(s);
    if chars.len() <= max {
        s.to_owned()
    } else if max < 3 {
        "...".to_owned()
    } else {
        let mut r = string_of(&chars, 0, max - 3);
        r.append("...");
        assert(r@ =~= s@.take(max - 3) + "..."@);
        r
    }
}

/// A number in decimal notation.
pub(crate) fn decimal_string(n: usize) -> (r: String)
    ensures
        r@ == decimal(n as nat),
    decreases n,
{
    let digit: char = (48 + (n % 10) as u8) as char;
    if n < 10 {
        let mut r = String::new();
        r.push(digit);
        assert(r@ =~= decimal(n as nat));
        r
    } else {
        let mut r = decimal_string(n / 10);
        r.push(digit);
        r
    }
}

/// An integer in decimal notation.
pub(crate) fn signed_decimal_string(n: i32) -> (r: String)
    ensures
        r@ == signed_decimal(n as int),
{
    if n < 0 {
        let mut r = "-".to_owned();
        let size: usize = (-(n as i64)) as usize;
        r.append(decimal_string(size).as_str());
        r
    } else {
        decimal_string(n as usize)
    }
}

proof fn lemma_number_grows(s: Seq<char>, k: int)
    requires
        0 <= k <= s.len(),
        ascii_digits(s),
    ensures
        number(s.take(k)) <= number(s),
    decreases s.len() - k,
{
    if k < s.len() {
        lemma_number_grows(s, k + 1);
        assert(s.take(k + 1).drop_last() =~= s.take(k));
    } else {
        assert(s.take(k) =~= s);
    }
}

/// The number that a count in a log denotes, zero where it denotes none.
pub(crate) fn parse_count(s: &str) -> (r: usize)
    ensures
        r == count_value(s@),
{
    let chars = chars_of(s);
    let n: usize = chars.len();
    let from: usize = if n > 0 && chars[0] == '+' { 1 } else { 0 };
    let ghost digits = s@.skip(from as int);
    assert(digits =~= if s@.len() > 0 && s@[0] == '+' { s@.drop_first() } else { s@ });
    if from == n {
        return 0;
    }
    let mut value: usize = 0;
    let mut i: usize = from;
    while i < n
        invariant
            chars@ == s@,
            n == s@.len(),
            from <= i <= n,
            digits == s@.skip(from as int),
            digits == (if s@.len() > 0 && s@[0] == '+' { s@.drop_first() } else { s@ }),
            ascii_digits(digits.take(i - from)),
            value == number(digits.take(i - from)),
        decreases n - i,
    {
        let c: char = chars[i];
        assert(c == digits[i - from]);
        if c < '0' || c > '9' {
            assert(!ascii_digits(digits));
            return 0;
        }
        let d: usize = (c as u32 - '0' as u32) as usize;
        let ghost next = digits.take(i - from + 1);
        assert(next.drop_last() =~= digits.take(i - from));
        if value > (usize::MAX - d) / 10 {
            proof {
                if ascii_digits(digits) {
                    lemma_number_grows(digits, i - from + 1);
                }
            }
            return 0;
        }
        value = value * 10 + d;
        i += 1;
    }
    assert(digits.take(n - from) =~= digits);
    value
}

} // verus!
