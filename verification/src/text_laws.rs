//! What holds of texts: colour codes, cuts, names of tests.

use vstd::prelude::*;

use crate::ansi::{code_len, code_parameter, parameter_run, plain};
use crate::failure::compact;
use crate::grammar::white_run;
use crate::log::{indented_lines, log_lines};
use crate::text::{
    joined, last_of, lines_of, trim_back, trim_front, trimmed, truncated, until, white,
};

verus! {

/// Whether `s` has no escape character.
pub open spec fn without_escape(s: Seq<char>) -> bool {
    forall|i: int| 0 <= i < s.len() ==> #[trigger] s[i] != '\u{1b}'
}

/// Whether `s` is a colour code from its first to its last character.
pub open spec fn is_code(s: Seq<char>) -> bool {
    s.len() > 0 && code_len(s) == s.len()
}

/// Pieces of text, each with the colour code behind it, one after the other.
pub open spec fn coloured(pieces: Seq<(Seq<char>, Seq<char>)>) -> Seq<char>
    decreases pieces.len(),
{
    if pieces.len() == 0 {
        seq![]
    } else {
        pieces[0].0 + (pieces[0].1 + coloured(pieces.drop_first()))
    }
}

/// The same pieces without the colour codes.
pub open spec fn uncoloured(pieces: Seq<(Seq<char>, Seq<char>)>) -> Seq<char>
    decreases pieces.len(),
{
    if pieces.len() == 0 {
        seq![]
    } else {
        pieces[0].0 + uncoloured(pieces.drop_first())
    }
}

proof fn lemma_parameter_run_extends(s: Seq<char>, t: Seq<char>)
    requires
        parameter_run(s) < s.len(),
    ensures
        parameter_run(s + t) == parameter_run(s),
    decreases s.len(),
{
    if code_parameter(s[0]) {
        assert((s + t).drop_first() =~= s.drop_first() + t);
        lemma_parameter_run_extends(s.drop_first(), t);
    }
}

proof fn lemma_code_extends(code: Seq<char>, t: Seq<char>)
    requires
        is_code(code),
    ensures
        code_len(code + t) == code.len(),
{
    assert((code + t).skip(2) =~= code.skip(2) + t);
    lemma_parameter_run_extends(code.skip(2), t);
}

pub(crate) proof fn lemma_plain_front(front: Seq<char>, back: Seq<char>)
    requires
        without_escape(front),
    ensures
        plain(front + back) == front + plain(back),
    decreases front.len(),
{
    if front.len() == 0 {
        assert(front + back =~= back);
        assert(front + plain(back) =~= plain(back));
    } else {
        let s = front + back;
        assert(s[0] == front[0]);
        assert(s.drop_first() =~= front.drop_first() + back);
        lemma_plain_front(front.drop_first(), back);
        assert(seq![front[0]] + (front.drop_first() + plain(back)) =~= front + plain(back));
    }
}

/// A text without escape characters is its own plain text.
pub proof fn law_plain_text_is_unchanged(s: Seq<char>)
    requires
        without_escape(s),
    ensures
        plain(s) == s,
{
    lemma_plain_front(s, seq![]);
    assert(s + seq![] =~= s);
    assert(s + plain(seq![]) =~= s);
}

/// To strip a text of its colour codes never makes it longer.
pub proof fn law_plain_text_is_no_longer(s: Seq<char>)
    ensures
        plain(s).len() <= s.len(),
    decreases s.len(),
{
    if s.len() > 0 {
        if code_len(s) > 0 {
            law_plain_text_is_no_longer(s.skip(code_len(s) as int));
        } else {
            law_plain_text_is_no_longer(s.drop_first());
        }
    }
}

/// Colour codes between pieces of text leave no trace: the plain text is the
/// pieces and what follows the last code, and the lines that the filters read are
/// those of the pieces.
pub proof fn law_colours_leave_no_trace(pieces: Seq<(Seq<char>, Seq<char>)>, tail: Seq<char>)
    requires
        forall|i: int|
            0 <= i < pieces.len() ==> without_escape((#[trigger] pieces[i]).0) && is_code(
                pieces[i].1,
            ),
        without_escape(tail),
    ensures
        plain(coloured(pieces) + tail) == uncoloured(pieces) + tail,
        indented_lines(coloured(pieces) + tail) == indented_lines(uncoloured(pieces) + tail),
        log_lines(coloured(pieces) + tail) == log_lines(uncoloured(pieces) + tail),
{
    lemma_colours(pieces, tail);
    law_plain_text_is_unchanged(uncoloured(pieces) + tail);
}

proof fn lemma_colours(pieces: Seq<(Seq<char>, Seq<char>)>, tail: Seq<char>)
    requires
        forall|i: int|
            0 <= i < pieces.len() ==> without_escape((#[trigger] pieces[i]).0) && is_code(
                pieces[i].1,
            ),
        without_escape(tail),
    ensures
        plain(coloured(pieces) + tail) == uncoloured(pieces) + tail,
        without_escape(uncoloured(pieces) + tail),
    decreases pieces.len(),
{
    if pieces.len() == 0 {
        assert(coloured(pieces) + tail =~= tail);
        assert(uncoloured(pieces) + tail =~= tail);
        law_plain_text_is_unchanged(tail);
    } else {
        let rest = pieces.drop_first();
        let (text, code) = pieces[0];
        assert forall|i: int| 0 <= i < rest.len() implies without_escape((#[trigger] rest[i]).0)
            && is_code(rest[i].1) by {
            assert(rest[i] == pieces[i + 1]);
        }
        lemma_colours(rest, tail);
        let back = coloured(rest) + tail;
        assert(coloured(pieces) + tail =~= text + (code + back));
        lemma_plain_front(text, code + back);
        lemma_code_extends(code, back);
        assert((code + back).skip(code.len() as int) =~= back);
        assert(uncoloured(pieces) + tail =~= text + (uncoloured(rest) + tail));
    }
}

/// A text that is cut has at most as many characters as were asked for, and to
/// cut it once more changes nothing. A text that is short enough is not cut.
pub proof fn law_truncated_text_fits(s: Seq<char>, max: nat)
    requires
        max >= 3,
    ensures
        truncated(s, max).len() <= max,
        truncated(truncated(s, max), max) == truncated(s, max),
        s.len() <= max ==> truncated(s, max) == s,
        s.len() > max ==> s.take(max - 3).is_prefix_of(truncated(s, max)),
{
    reveal_strlit("...");
    if s.len() > max {
        assert(truncated(s, max).subrange(0, max - 3) =~= s.take(max - 3));
    }
}

pub(crate) proof fn lemma_last_of(s: Seq<char>, c: char)
    ensures
        match last_of(s, c) {
            Some(i) => i < s.len() && s[i as int] == c && forall|k: int|
                i < k < s.len() ==> #[trigger] s[k] != c,
            None => forall|k: int| 0 <= k < s.len() ==> #[trigger] s[k] != c,
        },
    decreases s.len(),
{
    if s.len() > 0 && s.last() != c {
        lemma_last_of(s.drop_last(), c);
        assert forall|k: int| 0 <= k < s.len() - 1 implies #[trigger] s[k] == s.drop_last()[k] by {}
    }
}

/// The compact name of a test is the end of its name, and drops only what stands
/// before a dot; a name that is compact stays as it is.
pub proof fn law_compact_name_is_the_end_of_the_name(name: Seq<char>)
    ensures
        compact(name).is_suffix_of(name),
        compact(name).len() < name.len() ==> name[name.len() - compact(name).len() - 1] == '.',
        compact(compact(name)) == compact(name),
{
    lemma_last_of(name, '.');
    if let Some(last) = last_of(name, '.') {
        let head = name.take(last as int);
        lemma_last_of(head, '.');
        if let Some(i) = last_of(head, '.') {
            let c = compact(name);
            assert(c =~= name.skip(i as int + 1));
            assert(c =~= name.subrange(name.len() - c.len(), name.len() as int));
            assert(name[i as int] == head[i as int]);
            lemma_last_of(c, '.');
            let l = last - i - 1;
            assert(c[l] == name[last as int]);
            assert(last_of(c, '.') == Some(l as nat)) by {
                let j = last_of(c, '.')->0;
                if j < l {
                    assert(c[l] != '.');
                } else if j > l {
                    assert(name[(i + 1 + j) as int] == c[j as int]);
                }
            }
            let front = c.take(l);
            lemma_last_of(front, '.');
            if let Some(j) = last_of(front, '.') {
                assert(front[j as int] == head[(i + 1 + j) as int]);
            }
            assert(last_of(front, '.') is None);
        } else {
            assert(name =~= name.subrange(0, name.len() as int));
        }
    } else {
        assert(name =~= name.subrange(0, name.len() as int));
    }
}

/// The compact name of a test has at most one dot: no dot stands before its
/// last one.
pub proof fn law_compact_name_has_one_dot(name: Seq<char>, i: int, k: int)
    requires
        0 <= i < k < compact(name).len(),
    ensures
        !(compact(name)[i] == '.' && compact(name)[k] == '.'),
{
    law_compact_name_is_the_end_of_the_name(name);
    let c = compact(name);
    lemma_last_of(c, '.');
    if let Some(last) = last_of(c, '.') {
        let front = c.take(last as int);
        lemma_last_of(front, '.');
        if c[i] == '.' && c[k] == '.' {
            assert(k <= last);
            assert(front[i] == '.');
            let j = last_of(front, '.')->0;
            assert(compact(c) == c.skip(j as int + 1));
            assert(compact(c).len() < c.len());
        }
    }
}

pub(crate) proof fn lemma_trim_front_stays(s: Seq<char>)
    requires
        s.len() > 0,
        !white(s[0]),
    ensures
        trim_front(s) == s,
{
}

pub(crate) proof fn lemma_trim_front_is_skip(s: Seq<char>)
    ensures
        white_run(s) <= s.len(),
        trim_front(s) == s.skip(white_run(s) as int),
    decreases s.len(),
{
    if s.len() > 0 && white(s[0]) {
        lemma_trim_front_is_skip(s.drop_first());
        assert(s.drop_first().skip(white_run(s.drop_first()) as int) =~= s.skip(
            white_run(s) as int,
        ));
    } else {
        assert(s.skip(0) =~= s);
    }
}

/// Where a text starts with `head`, which ends in a character that is no white
/// space, so does the text without trailing white space.
pub(crate) proof fn lemma_trim_back_keeps_head(s: Seq<char>, head: Seq<char>)
    requires
        head.is_prefix_of(s),
        head.len() > 0,
        !white(head.last()),
    ensures
        head.is_prefix_of(trim_back(s)),
    decreases s.len(),
{
    if white(s.last()) {
        if head.len() == s.len() {
            assert(head.last() == s.subrange(0, head.len() as int).last());
        }
        assert(s.drop_last().subrange(0, head.len() as int) =~= s.subrange(0, head.len() as int));
        lemma_trim_back_keeps_head(s.drop_last(), head);
    }
}

pub(crate) proof fn lemma_trim_ends(s: Seq<char>)
    ensures
        trim_front(s).len() > 0 ==> !white(trim_front(s)[0]),
        trim_back(s).len() > 0 ==> !white(trim_back(s).last()),
        trim_back(s).is_prefix_of(s),
    decreases s.len(),
{
    if s.len() > 0 {
        if white(s[0]) {
            lemma_trim_ends(s.drop_first());
        }
        if white(s.last()) {
            lemma_trim_ends(s.drop_last());
            let t = trim_back(s.drop_last());
            assert(t =~= s.subrange(0, t.len() as int));
        } else {
            assert(s =~= s.subrange(0, s.len() as int));
        }
    }
}

/// A line of a log has no white space at either end.
pub proof fn law_log_lines_are_trimmed(output: Seq<char>, i: int)
    requires
        0 <= i < log_lines(output).len(),
        log_lines(output)[i].len() > 0,
    ensures
        !white(log_lines(output)[i][0]),
        !white(log_lines(output)[i].last()),
{
    let line = indented_lines(output)[i];
    let front = trim_front(line);
    lemma_trim_ends(line);
    lemma_trim_ends(front);
    assert(log_lines(output)[i] == trim_back(front));
    assert(trim_back(front)[0] == front.subrange(0, trim_back(front).len() as int)[0]);
}

/// Whether `s` has no line feed.
pub open spec fn without_feed(s: Seq<char>) -> bool {
    forall|i: int| 0 <= i < s.len() ==> #[trigger] s[i] != '\n'
}

/// Whether `s` can be told from its neighbours where it is a line of a text: it is
/// not empty, has no line feed, and does not end in a carriage return.
pub open spec fn is_full_line(s: Seq<char>) -> bool {
    s.len() > 0 && without_feed(s) && s.last() != '\r'
}

pub(crate) proof fn lemma_until_feed(s: Seq<char>)
    ensures
        until(s, '\n') <= s.len(),
        until(s, '\n') < s.len() ==> s[until(s, '\n') as int] == '\n',
        without_feed(s.take(until(s, '\n') as int)),
    decreases s.len(),
{
    if s.len() > 0 && s[0] != '\n' {
        let rest = s.drop_first();
        lemma_until_feed(rest);
        let n = until(s, '\n') as int;
        assert forall|i: int| 0 <= i < n implies #[trigger] s.take(n)[i] != '\n' by {
            if i > 0 {
                assert(rest.take(n - 1)[i - 1] == s[i]);
            }
        }
    }
}

pub(crate) proof fn lemma_until_behind(front: Seq<char>, back: Seq<char>)
    requires
        without_feed(front),
        back.len() > 0,
        back[0] == '\n',
    ensures
        until(front + back, '\n') == front.len(),
    decreases front.len(),
{
    if front.len() == 0 {
        assert(front + back =~= back);
    } else {
        assert((front + back).drop_first() =~= front.drop_first() + back);
        lemma_until_behind(front.drop_first(), back);
    }
}

pub(crate) proof fn lemma_until_none(s: Seq<char>)
    requires
        without_feed(s),
    ensures
        until(s, '\n') == s.len(),
    decreases s.len(),
{
    if s.len() > 0 {
        lemma_until_none(s.drop_first());
    }
}

/// No line of a text has a line feed.
proof fn lemma_lines(s: Seq<char>, i: int)
    requires
        0 <= i < lines_of(s).len(),
    ensures
        without_feed(lines_of(s)[i]),
    decreases s.len(),
{
    lemma_until_feed(s);
    let n = until(s, '\n') as int;
    if n < s.len() {
        if i > 0 {
            lemma_lines(s.skip(n + 1), i - 1);
        }
    } else {
        assert(s.take(n) =~= s);
    }
}

/// A line of a log has no line feed.
pub proof fn law_log_lines_are_single(output: Seq<char>, i: int)
    requires
        0 <= i < log_lines(output).len(),
    ensures
        without_feed(indented_lines(output)[i]),
        without_feed(log_lines(output)[i]),
{
    let line = indented_lines(output)[i];
    lemma_lines(plain(output), i);
    lemma_trim_front_is_skip(line);
    let front = trim_front(line);
    lemma_trim_ends(front);
    let all = trim_back(front);
    assert(log_lines(output)[i] == trimmed(line));
    assert forall|k: int| 0 <= k < all.len() implies #[trigger] all[k] != '\n' by {
        assert(all[k] == front.subrange(0, all.len() as int)[k]);
        assert(front[k] == line[white_run(line) + k]);
    }
}

proof fn lemma_joined_front(list: Seq<Seq<char>>, separator: Seq<char>)
    requires
        list.len() > 1,
    ensures
        joined(list, separator) == list[0] + (separator + joined(list.drop_first(), separator)),
    decreases list.len(),
{
    let front = list.drop_last();
    let back = list.drop_first();
    if list.len() > 2 {
        lemma_joined_front(front, separator);
        assert(front.drop_first() =~= back.drop_last());
        assert(joined(back, separator) == joined(back.drop_last(), separator) + separator
            + list.last());
    } else {
        assert(joined(front, separator) == list[0]);
        assert(joined(back, separator) == list[1]);
    }
    assert(joined(list, separator) =~= list[0] + (separator + joined(back, separator)));
}

/// The lines of a text that is joined from full lines are these lines. Lines before
/// the last one may be empty.
pub proof fn law_joined_lines_are_read_back(list: Seq<Seq<char>>)
    requires
        list.len() > 0,
        forall|i: int|
            0 <= i < list.len() ==> is_full_line(#[trigger] list[i]) || i < list.len() - 1
                && list[i].len() == 0,
    ensures
        lines_of(joined(list, "\n"@)) == list,
    decreases list.len(),
{
    reveal_strlit("\n");
    if list.len() == 1 {
        assert(is_full_line(list[0]));
        lemma_until_none(list[0]);
        assert(lines_of(list[0]) =~= list);
    } else {
        let rest = list.drop_first();
        let text = joined(list, "\n"@);
        let back = joined(rest, "\n"@);
        assert forall|i: int| 0 <= i < rest.len() implies is_full_line(#[trigger] rest[i]) || i
            < rest.len() - 1 && rest[i].len() == 0 by {
            assert(rest[i] == list[i + 1]);
        }
        law_joined_lines_are_read_back(rest);
        lemma_joined_front(list, "\n"@);
        assert(is_full_line(list[0]) || list[0].len() == 0);
        lemma_until_behind(list[0], "\n"@ + back);
        let n = list[0].len() as int;
        assert(text.take(n) =~= list[0]);
        assert(text.skip(n + 1) =~= back);
        assert(seq![list[0]] + rest =~= list);
    }
}

} // verus!
