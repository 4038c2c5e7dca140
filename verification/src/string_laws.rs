//! What the words for texts mean, by way of how texts are put together.

use vstd::prelude::*;

use crate::ansi::plain;
use crate::failure::compact;
use crate::log::{indented_lines, log_lines, time_note};
use crate::text::{
    ascii_digits, before, blank, concat, contents, count_value, decimal, digit_value, find_in,
    holds, joined, last_of, lines_of, number, signed_decimal, trim_back, trim_front, trimmed,
    truncated, white, without_prefixes,
};
use crate::text_laws::{
    lemma_last_of, lemma_plain_front, lemma_until_behind, lemma_until_none, without_escape,
    without_feed,
};

verus! {

/// White space is the tabulator, the line feed, the other controls up to the
/// carriage return, the space, and beyond ASCII the characters of Unicode that are
/// listed here by their numbers.
pub proof fn law_white_space(c: char)
    ensures
        ({
            let n = c as int;
            white(c) <==> (9 <= n <= 13 || n == 32 || n == 133 || n == 160 || n == 5760 || 8192
                <= n <= 8202 || n == 8232 || n == 8233 || n == 8239 || n == 8287 || n == 12288)
        }),
{
}

/// A text is blank if no character in it is anything but white space.
pub proof fn law_blank(s: Seq<char>)
    ensures
        blank(s) <==> !(exists|i: int| 0 <= i < s.len() && !white(#[trigger] s[i])),
{
}

/// White space around a text is trimmed, and nothing else is.
pub proof fn law_trimming_strips_the_ends(front: Seq<char>, core: Seq<char>, back: Seq<char>)
    requires
        forall|i: int| 0 <= i < front.len() ==> white(#[trigger] front[i]),
        forall|i: int| 0 <= i < back.len() ==> white(#[trigger] back[i]),
        core.len() > 0 ==> !white(core[0]) && !white(core.last()),
    ensures
        trimmed(front + core + back) == core,
{
    if core.len() == 0 {
        let s = front + core + back;
        assert forall|i: int| 0 <= i < s.len() implies white(#[trigger] s[i]) by {
            if i < front.len() {
                assert(s[i] == front[i]);
            } else {
                assert(s[i] == back[i - front.len()]);
            }
        }
        lemma_trim_front_of_blank(s);
        assert(trimmed(s) =~= core);
    } else {
        assert(front + core + back =~= front + (core + back));
        lemma_trim_front(front, core + back);
        lemma_trim_back(core, back);
    }
}

proof fn lemma_trim_front_of_blank(s: Seq<char>)
    requires
        forall|i: int| 0 <= i < s.len() ==> white(#[trigger] s[i]),
    ensures
        trim_front(s).len() == 0,
    decreases s.len(),
{
    if s.len() > 0 {
        lemma_trim_front_of_blank(s.drop_first());
    }
}

proof fn lemma_trim_front(front: Seq<char>, rest: Seq<char>)
    requires
        forall|i: int| 0 <= i < front.len() ==> white(#[trigger] front[i]),
        rest.len() > 0,
        !white(rest[0]),
    ensures
        trim_front(front + rest) == rest,
    decreases front.len(),
{
    if front.len() == 0 {
        assert(front + rest =~= rest);
    } else {
        assert((front + rest).drop_first() =~= front.drop_first() + rest);
        assert((front + rest)[0] == front[0]);
        lemma_trim_front(front.drop_first(), rest);
    }
}

proof fn lemma_trim_back(rest: Seq<char>, back: Seq<char>)
    requires
        forall|i: int| 0 <= i < back.len() ==> white(#[trigger] back[i]),
        rest.len() > 0,
        !white(rest.last()),
    ensures
        trim_back(rest + back) == rest,
    decreases back.len(),
{
    if back.len() == 0 {
        assert(rest + back =~= rest);
    } else {
        assert((rest + back).drop_last() =~= rest + back.drop_last());
        assert((rest + back).last() == back[back.len() - 1]);
        lemma_trim_back(rest, back.drop_last());
    }
}

/// A text is cut into lines at its line feeds. A carriage return before a line feed
/// goes with it, and the end of the text ends a line that is not empty.
pub proof fn law_lines_end_at_line_feeds(line: Seq<char>, rest: Seq<char>)
    requires
        forall|i: int| 0 <= i < line.len() ==> #[trigger] line[i] != '\n',
    ensures
        line.len() > 0 ==> lines_of(line) == seq![line],
        line.len() == 0 ==> lines_of(line).len() == 0,
        line.len() == 0 || line.last() != '\r' ==> lines_of(line + seq!['\n'] + rest) == seq![line]
            + lines_of(rest),
        lines_of(line + seq!['\r', '\n'] + rest) == seq![line] + lines_of(rest),
{
    assert(without_feed(line));
    lemma_until_none(line);
    assert(line.len() > 0 ==> lines_of(line) =~= seq![line]);
    let s = line + seq!['\n'] + rest;
    let n = line.len() as int;
    assert(s =~= line + (seq!['\n'] + rest));
    lemma_until_behind(line, seq!['\n'] + rest);
    assert(s.take(n) =~= line);
    assert(s.skip(n + 1) =~= rest);
    let t = line + seq!['\r', '\n'] + rest;
    let full = line + seq!['\r'];
    assert(t =~= full + (seq!['\n'] + rest));
    assert(without_feed(full));
    lemma_until_behind(full, seq!['\n'] + rest);
    assert(t.take(n + 1) =~= full);
    assert(full.drop_last() =~= line);
    assert(t.skip(n + 2) =~= rest);
}

/// Whether `what` stands in `s` at the position `k`.
pub open spec fn stands_at(s: Seq<char>, what: Seq<char>, k: int) -> bool {
    &&& 0 <= k
    &&& k + what.len() <= s.len()
    &&& forall|i: int| 0 <= i < what.len() ==> s[k + i] == #[trigger] what[i]
}

/// Where a text is found is its first occurrence, and it is found where it occurs.
pub proof fn law_first_occurrence_is_found(s: Seq<char>, what: Seq<char>, i: int)
    requires
        stands_at(s, what, i),
        forall|k: int| 0 <= k < i ==> !#[trigger] stands_at(s, what, k),
    ensures
        find_in(s, what) == Some(i as nat),
        holds(s, what),
        before(s, what) == s.subrange(0, i),
    decreases s.len(),
{
    if i == 0 {
        assert(s.subrange(0, what.len() as int) =~= what);
    } else {
        let rest = s.drop_first();
        lemma_not_at_start(s, what);
        assert forall|k: int| 0 <= k < i - 1 implies !#[trigger] stands_at(rest, what, k) by {
            lemma_stands_later(s, what, k);
        }
        lemma_stands_later(s, what, i - 1);
        law_first_occurrence_is_found(rest, what, i - 1);
    }
}

proof fn lemma_stands_later(s: Seq<char>, what: Seq<char>, k: int)
    requires
        s.len() > 0,
        0 <= k,
    ensures
        stands_at(s.drop_first(), what, k) <==> stands_at(s, what, k + 1),
{
    let rest = s.drop_first();
    if stands_at(rest, what, k) {
        assert forall|i: int| 0 <= i < what.len() implies s[k + 1 + i] == #[trigger] what[i] by {
            assert(rest[k + i] == what[i]);
        }
    }
    if stands_at(s, what, k + 1) {
        assert forall|i: int| 0 <= i < what.len() implies rest[k + i] == #[trigger] what[i] by {
            assert(s[k + 1 + i] == what[i]);
        }
    }
}

proof fn lemma_not_at_start(s: Seq<char>, what: Seq<char>)
    requires
        !stands_at(s, what, 0),
    ensures
        !what.is_prefix_of(s),
{
    if what.is_prefix_of(s) {
        assert forall|i: int| 0 <= i < what.len() implies s[0 + i] == #[trigger] what[i] by {
            assert(what[i] == s.subrange(0, what.len() as int)[i]);
        }
    }
}

/// A text that does not occur is not found.
pub proof fn law_absent_text_is_not_found(s: Seq<char>, what: Seq<char>)
    requires
        forall|k: int| !#[trigger] stands_at(s, what, k),
    ensures
        find_in(s, what) is None,
        !holds(s, what),
        before(s, what) == s,
    decreases s.len(),
{
    assert(!stands_at(s, what, 0));
    lemma_not_at_start(s, what);
    if s.len() > 0 {
        let rest = s.drop_first();
        assert forall|k: int| !#[trigger] stands_at(rest, what, k) by {
            if k >= 0 {
                lemma_stands_later(s, what, k);
            }
        }
        law_absent_text_is_not_found(rest, what);
    }
}

/// All copies of a prefix are dropped, and nothing else.
pub proof fn law_prefixes_are_dropped(s: Seq<char>, prefix: Seq<char>)
    requires
        prefix.len() > 0,
    ensures
        without_prefixes(prefix + s, prefix) == without_prefixes(s, prefix),
        !prefix.is_prefix_of(s) ==> without_prefixes(s, prefix) == s,
{
    assert((prefix + s).subrange(0, prefix.len() as int) =~= prefix);
    assert((prefix + s).skip(prefix.len() as int) =~= s);
}

/// Texts are joined in their order with the separator between any two.
pub proof fn law_texts_are_joined(list: Seq<Seq<char>>, text: Seq<char>, separator: Seq<char>)
    ensures
        joined(seq![], separator) == Seq::<char>::empty(),
        joined(seq![text], separator) == text,
        list.len() > 0 ==> joined(list.push(text), separator) == joined(list, separator)
            + separator + text,
        concat(seq![]) == Seq::<char>::empty(),
        concat(list.push(text)) == concat(list) + text,
{
    assert(list.push(text).drop_last() =~= list);
}

/// A text that is too long is cut to exactly the length that is asked for, and ends
/// in three dots.
pub proof fn law_long_text_is_cut(s: Seq<char>, max: nat)
    requires
        s.len() > max >= 3,
    ensures
        truncated(s, max) == s.subrange(0, max - 3) + seq!['.', '.', '.'],
        truncated(s, max).len() == max,
{
    reveal_strlit("...");
    assert("..."@ =~= seq!['.', '.', '.']);
    assert(s.take(max - 3) =~= s.subrange(0, max - 3));
}

/// A text that fits is left as it is, whatever its length.
pub proof fn law_short_text_is_not_cut(s: Seq<char>, max: nat)
    ensures
        s.len() <= max ==> truncated(s, max) == s,
        s.len() > max && max < 3 ==> truncated(s, max) == seq!['.', '.', '.'],
{
    reveal_strlit("...");
    assert("..."@ =~= seq!['.', '.', '.']);
}

/// The digit of a value below ten.
pub open spec fn digit_of(d: int) -> char {
    seq!['0', '1', '2', '3', '4', '5', '6', '7', '8', '9'][d]
}

/// Numbers are printed in decimal notation: ten times a number and a digit is the
/// number with the digit behind it.
pub proof fn law_numbers_are_decimal(n: nat, d: nat)
    requires
        d < 10,
    ensures
        decimal(d) == seq![digit_of(d as int)],
        n > 0 ==> decimal(10 * n + d) == decimal(n).push(digit_of(d as int)),
        signed_decimal(n as int) == decimal(n),
        n > 0 ==> signed_decimal(-n) == seq!['-'] + decimal(n),
{
    reveal_strlit("-");
    assert("-"@ =~= seq!['-']);
    assert(digit_of(d as int) as int == '0' as int + d);
    assert((10 * n + d) / 10 == n);
    assert((10 * n + d) % 10 == d);
}

/// The value of a count: each further digit makes ten times the value and the
/// digit, as long as it is in range, and zero where it is not.
pub proof fn law_counts_are_decimal(digits: Seq<char>, d: nat)
    requires
        forall|i: int| 0 <= i < digits.len() ==> '0' <= #[trigger] digits[i] <= '9',
        d < 10,
    ensures
        count_value(seq![]) == 0,
        count_value(seq![digit_of(d as int)]) == d,
        ({
            let more = digits.push(digit_of(d as int));
            &&& digits.len() > 0 && count_value(more) > 0 ==> count_value(more) == 10
                * count_value(digits) + d
            &&& digits.len() > 0 && count_value(digits) > 0 && 10 * count_value(digits) + d
                <= usize::MAX ==> count_value(more) == 10 * count_value(digits) + d
            &&& digits.len() > 0 && 10 * count_value(digits) + d > usize::MAX ==> count_value(more)
                == 0
            &&& count_value(seq!['+'] + digits) == count_value(digits)
            &&& (forall|i: int| 0 <= i < digits.len() ==> #[trigger] digits[i] == '0')
                ==> count_value(more) == d
        }),
{
    let c = digit_of(d as int);
    assert(c as int == '0' as int + d);
    let more = digits.push(c);
    assert(more.drop_last() =~= digits);
    assert(ascii_digits(digits));
    assert(ascii_digits(more));
    assert(digit_value(c) == d);
    let one = seq![c];
    assert(one.drop_last() =~= seq![]);
    assert(number(seq![]) == 0);
    assert(number(one) == d);
    assert(ascii_digits(one));
    assert(number(more) == 10 * number(digits) + d);
    let signed = seq!['+'] + digits;
    assert(signed.drop_first() =~= digits);
    assert(more[0] == if digits.len() > 0 { digits[0] } else { c });
    if digits.len() > 0 {
        assert('0' <= digits[0] <= '9');
    }
    if forall|i: int| 0 <= i < digits.len() ==> #[trigger] digits[i] == '0' {
        lemma_zeros(digits);
    }
}

proof fn lemma_zeros(s: Seq<char>)
    requires
        forall|i: int| 0 <= i < s.len() ==> #[trigger] s[i] == '0',
    ensures
        number(s) == 0,
    decreases s.len(),
{
    if s.len() > 0 {
        lemma_zeros(s.drop_last());
    }
}

/// Text that is no number, by any character but a digit behind an optional plus
/// sign, counts as zero.
pub proof fn law_other_text_counts_as_zero(s: Seq<char>, i: int)
    requires
        0 <= i < s.len(),
        !('0' <= s[i] <= '9'),
        i == 0 ==> s[0] != '+' || s.len() == 1,
    ensures
        count_value(s) == 0,
{
    if s[0] == '+' && i > 0 {
        assert(s.drop_first()[i - 1] == s[i]);
    }
}

/// The compact name of a test is what stands behind the last dot but one.
pub proof fn law_compact_name_is_class_and_method(
    package: Seq<char>,
    class: Seq<char>,
    method: Seq<char>,
)
    requires
        forall|i: int| 0 <= i < class.len() ==> #[trigger] class[i] != '.',
        forall|i: int| 0 <= i < method.len() ==> #[trigger] method[i] != '.',
    ensures
        compact(method) == method,
        compact(class + seq!['.'] + method) == class + seq!['.'] + method,
        compact(package + seq!['.'] + class + seq!['.'] + method) == class + seq!['.'] + method,
{
    lemma_last_of(method, '.');
    lemma_last_of(class, '.');
    let short = class + seq!['.'] + method;
    lemma_last_dot(class, method);
    assert(short.take(class.len() as int) =~= class);
    let long = package + seq!['.'] + class + seq!['.'] + method;
    let front = package + seq!['.'] + class;
    assert(long =~= front + seq!['.'] + method);
    lemma_last_dot(front, method);
    assert(long.take(front.len() as int) =~= front);
    lemma_last_dot(package, class);
    assert(long.skip(package.len() as int + 1) =~= short);
}

proof fn lemma_last_dot(front: Seq<char>, back: Seq<char>)
    requires
        forall|i: int| 0 <= i < back.len() ==> #[trigger] back[i] != '.',
    ensures
        last_of(front + seq!['.'] + back, '.') == Some(front.len()),
{
    let s = front + seq!['.'] + back;
    let n = front.len() as int;
    lemma_last_of(s, '.');
    assert(s[n] == '.');
    let i = last_of(s, '.')->0;
    if i > n {
        assert(s[i as int] == back[i - n - 1]);
    }
}

/// The contents of a list of strings are those of its strings, in their order.
pub proof fn law_contents_are_in_order(list: Seq<String>)
    ensures
        contents(list).len() == list.len(),
        forall|i: int| 0 <= i < list.len() ==> #[trigger] contents(list)[i] == list[i]@,
{
}

/// A log is read line by line, from its start to its end. For a build the white
/// space at both ends of a line is gone, for a test run it is there.
pub proof fn law_log_is_read_line_by_line(line: Seq<char>, rest: Seq<char>)
    requires
        forall|i: int|
            0 <= i < line.len() ==> #[trigger] line[i] != '\n' && line[i] != '\u{1b}',
        line.len() == 0 || line.last() != '\r',
    ensures
        indented_lines(seq![]).len() == 0,
        log_lines(seq![]).len() == 0,
        indented_lines(line + seq!['\n'] + rest) == seq![line] + indented_lines(rest),
        log_lines(line + seq!['\n'] + rest) == seq![trimmed(line)] + log_lines(rest),
{
    let head = line + seq!['\n'];
    assert(without_escape(head));
    lemma_plain_front(head, rest);
    law_lines_end_at_line_feeds(line, plain(rest));
    assert(log_lines(line + seq!['\n'] + rest) =~= seq![trimmed(line)] + log_lines(rest));
}

/// The lines of a log are those of its text without colour codes, one for one.
pub proof fn law_lines_of_a_log_are_those_of_its_plain_text(output: Seq<char>)
    ensures
        indented_lines(output) == lines_of(plain(output)),
        log_lines(output).len() == lines_of(plain(output)).len(),
        forall|i: int|
            0 <= i < log_lines(output).len() ==> #[trigger] log_lines(output)[i] == trimmed(
                lines_of(plain(output))[i],
            ),
{
}

/// The time is told in brackets, and left out where it is not known.
pub proof fn law_time_stands_in_brackets(time: Seq<char>)
    ensures
        time.len() > 0 ==> time_note(time) == seq![' ', '('] + time + seq![')'],
        time.len() == 0 ==> time_note(time).len() == 0,
{
    reveal_strlit(" (");
    reveal_strlit(")");
    assert(" ("@ =~= seq![' ', '(']);
    assert(")"@ =~= seq![')']);
}

} // verus!
