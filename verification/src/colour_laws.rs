//! What is a colour code, and what is none.

use vstd::prelude::*;

use crate::ansi::{code_len, code_parameter, parameter_run, plain};
use crate::text_laws::lemma_plain_front;

verus! {

/// Whether a character may stand between the bracket and the letter of a colour
/// code: a digit of ASCII or a semicolon, by their numbers.
pub open spec fn is_digit_or_semicolon(c: char) -> bool {
    48 <= c as int <= 57 || c as int == 59
}

/// Whether a character is a letter of ASCII, small or capital, by its number.
pub open spec fn is_ascii_letter(c: char) -> bool {
    97 <= c as int <= 122 || 65 <= c as int <= 90
}

proof fn lemma_parameters(codes: Seq<char>, rest: Seq<char>)
    requires
        forall|i: int| 0 <= i < codes.len() ==> is_digit_or_semicolon(#[trigger] codes[i]),
        rest.len() > 0 ==> !is_digit_or_semicolon(rest[0]),
    ensures
        parameter_run(codes + rest) == codes.len(),
    decreases codes.len(),
{
    if codes.len() == 0 {
        assert(codes + rest =~= rest);
    } else {
        assert(is_digit_or_semicolon(codes[0]));
        assert(code_parameter(codes[0]));
        assert((codes + rest)[0] == codes[0]);
        assert((codes + rest).drop_first() =~= codes.drop_first() + rest);
        assert forall|i: int| 0 <= i < codes.drop_first().len() implies is_digit_or_semicolon(
            #[trigger] codes.drop_first()[i],
        ) by {
            assert(codes.drop_first()[i] == codes[i + 1]);
        }
        lemma_parameters(codes.drop_first(), rest);
    }
}

/// An escape character, a bracket, any digits of ASCII and semicolons, and a letter of
/// ASCII leave no trace: what comes before stays, and so does what of the rest would
/// stay without them.
pub proof fn law_every_colour_code_is_stripped(
    front: Seq<char>,
    codes: Seq<char>,
    letter: char,
    back: Seq<char>,
)
    requires
        forall|i: int| 0 <= i < front.len() ==> #[trigger] front[i] != '\u{1b}',
        forall|i: int|
            0 <= i < codes.len() ==> '0' <= #[trigger] codes[i] <= '9' || codes[i] == ';',
        'a' <= letter <= 'z' || 'A' <= letter <= 'Z',
    ensures
        plain(front + (seq!['\u{1b}', '['] + codes + seq![letter]) + back) == front + plain(back),
{
    let code = seq!['\u{1b}', '['] + codes + seq![letter];
    let s = code + back;
    assert forall|i: int| 0 <= i < codes.len() implies is_digit_or_semicolon(
        #[trigger] codes[i],
    ) by {
        assert('0' <= codes[i] <= '9' || codes[i] == ';');
    }
    assert(front + code + back =~= front + s);
    lemma_plain_front(front, s);
    assert(s.skip(2) =~= codes + (seq![letter] + back));
    lemma_parameters(codes, seq![letter] + back);
    assert(s[2 + codes.len() as int] == letter);
    assert(code_len(s) == code.len());
    assert(s.skip(code.len() as int) =~= back);
}

/// An escape character that begins no colour code stays, and so does what follows
/// it: where there is no bracket, or where no letter follows the digits and
/// semicolons.
pub proof fn law_other_escapes_stay(codes: Seq<char>, rest: Seq<char>)
    requires
        forall|i: int| 0 <= i < codes.len() ==> is_digit_or_semicolon(#[trigger] codes[i]),
        rest.len() > 0 ==> !is_digit_or_semicolon(rest[0]),
    ensures
        rest.len() == 0 || rest[0] != '[' ==> plain(seq!['\u{1b}'] + rest) == seq!['\u{1b}']
            + plain(rest),
        rest.len() == 0 || !is_ascii_letter(rest[0]) ==> plain(
            seq!['\u{1b}', '['] + codes + rest,
        ) == seq!['\u{1b}'] + plain(seq!['['] + codes + rest),
{
    let s = seq!['\u{1b}'] + rest;
    assert(s.drop_first() =~= rest);
    if rest.len() == 0 || rest[0] != '[' {
        if rest.len() > 0 {
            assert(s[1] == rest[0]);
        }
        assert(code_len(s) == 0);
    }
    let t = seq!['\u{1b}', '['] + codes + rest;
    assert(t.skip(2) =~= codes + rest);
    assert(t.drop_first() =~= seq!['['] + codes + rest);
    lemma_parameters(codes, rest);
    if rest.len() > 0 {
        assert(t[2 + codes.len() as int] == rest[0]);
    }
}

/// A character that is no escape character stays.
pub proof fn law_other_characters_stay(c: char, rest: Seq<char>)
    requires
        c != '\u{1b}',
    ensures
        plain(seq![c] + rest) == seq![c] + plain(rest),
        plain(seq![]) == Seq::<char>::empty(),
{
    lemma_plain_front(seq![c], rest);
}

} // verus!
