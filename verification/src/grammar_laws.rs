//! What holds of the forms of lines.

use vstd::prelude::*;

use crate::grammar::{
    after, counts_at_start, counts_in, digit, digit_run, labelled, next_labelled, white_run,
    Counts,
};
use crate::text::{ascii_digits, count_value, decimal, digit_char, digit_value, number, white};

verus! {

/// Whether `s` is a number in decimal notation: digits, at least one.
pub open spec fn is_number(s: Seq<char>) -> bool {
    s.len() > 0 && ascii_digits(s)
}

/// Whether no digit stands at the start of `s`.
pub open spec fn starts_without_digit(s: Seq<char>) -> bool {
    s.len() == 0 || !digit(s[0])
}

/// The counts of tests as Surefire prints them.
pub open spec fn surefire_counts(c: Counts) -> Seq<char> {
    "Tests run: "@ + c.run + ", Failures: "@ + c.failures + ", Errors: "@ + c.errors
        + ", Skipped: "@ + c.skipped
}

proof fn lemma_digit_run(value: Seq<char>, rest: Seq<char>)
    requires
        ascii_digits(value),
        starts_without_digit(rest),
    ensures
        digit_run(value + rest) == value.len(),
    decreases value.len(),
{
    if value.len() == 0 {
        assert(value + rest =~= rest);
    } else {
        let s = value + rest;
        assert('0' <= value[0] <= '9');
        assert(s[0] == value[0]);
        assert(s.drop_first() =~= value.drop_first() + rest);
        assert(ascii_digits(value.drop_first())) by {
            assert forall|i: int| 0 <= i < value.drop_first().len() implies '0'
                <= #[trigger] value.drop_first()[i] <= '9' by {
                assert(value.drop_first()[i] == value[i + 1]);
            }
        }
        lemma_digit_run(value.drop_first(), rest);
    }
}

pub(crate) proof fn lemma_after(head: Seq<char>, rest: Seq<char>)
    ensures
        after(head + rest, head) == Some(rest),
{
    assert((head + rest).subrange(0, head.len() as int) =~= head);
    assert((head + rest).skip(head.len() as int) =~= rest);
}

/// One space and then no white space is a run of one.
proof fn lemma_one_space(rest: Seq<char>)
    requires
        rest.len() > 0,
        !white(rest[0]),
    ensures
        white_run(" "@ + rest) == 1,
        (" "@ + rest).skip(1) == rest,
{
    reveal_strlit(" ");
    let s = " "@ + rest;
    assert(s.drop_first() =~= rest);
    assert(s.skip(1) =~= rest);
    reveal_with_fuel(white_run, 2);
}

proof fn lemma_labelled(label: Seq<char>, value: Seq<char>, rest: Seq<char>)
    requires
        is_number(value),
        starts_without_digit(rest),
    ensures
        labelled(label + (" "@ + (value + rest)), label) == Some((value, rest)),
{
    lemma_after(label, " "@ + (value + rest));
    assert('0' <= value[0] <= '9');
    assert((value + rest)[0] == value[0]);
    lemma_one_space(value + rest);
    lemma_digit_run(value, rest);
    assert((value + rest).take(value.len() as int) =~= value);
    assert((value + rest).skip(value.len() as int) =~= rest);
}

proof fn lemma_next_labelled(label: Seq<char>, value: Seq<char>, rest: Seq<char>)
    requires
        is_number(value),
        starts_without_digit(rest),
        label.len() > 0,
        !white(label[0]),
    ensures
        next_labelled(","@ + (" "@ + (label + (" "@ + (value + rest)))), label) == Some(
            (value, rest),
        ),
{
    let tail = label + (" "@ + (value + rest));
    lemma_after(","@, " "@ + tail);
    assert(tail[0] == label[0]);
    lemma_one_space(tail);
    lemma_labelled(label, value, rest);
}

proof fn lemma_counts_at_start(c: Counts, back: Seq<char>)
    requires
        is_number(c.run),
        is_number(c.failures),
        is_number(c.errors),
        is_number(c.skipped),
        starts_without_digit(back),
    ensures
        counts_at_start(surefire_counts(c) + back) == Some(c),
{
    reveal_strlit(",");
    reveal_strlit(" ");
    reveal_strlit("Tests run:");
    reveal_strlit("Failures:");
    reveal_strlit("Errors:");
    reveal_strlit("Skipped:");
    reveal_strlit("Tests run: ");
    reveal_strlit(", Failures: ");
    reveal_strlit(", Errors: ");
    reveal_strlit(", Skipped: ");
    let s4 = back;
    let s3 = ","@ + (" "@ + ("Skipped:"@ + (" "@ + (c.skipped + s4))));
    let s2 = ","@ + (" "@ + ("Errors:"@ + (" "@ + (c.errors + s3))));
    let s1 = ","@ + (" "@ + ("Failures:"@ + (" "@ + (c.failures + s2))));
    let s = "Tests run:"@ + (" "@ + (c.run + s1));
    assert(s =~= surefire_counts(c) + back);
    assert(s1[0] == ',' && s2[0] == ',' && s3[0] == ',');
    lemma_labelled("Tests run:"@, c.run, s1);
    lemma_next_labelled("Failures:"@, c.failures, s2);
    lemma_next_labelled("Errors:"@, c.errors, s3);
    lemma_next_labelled("Skipped:"@, c.skipped, s4);
}

/// The counts of Surefire are read back as they were printed, behind a level such
/// as `[INFO]` and whatever follows them.
pub proof fn law_surefire_counts_are_read(front: Seq<char>, c: Counts, back: Seq<char>)
    requires
        forall|i: int| 0 <= i < front.len() ==> #[trigger] front[i] != 'T',
        is_number(c.run),
        is_number(c.failures),
        is_number(c.errors),
        is_number(c.skipped),
        starts_without_digit(back),
    ensures
        counts_in(front + (surefire_counts(c) + back)) == Some(c),
    decreases front.len(),
{
    let s = front + (surefire_counts(c) + back);
    if front.len() == 0 {
        assert(s =~= surefire_counts(c) + back);
        lemma_counts_at_start(c, back);
    } else {
        reveal_strlit("Tests run:");
        assert(s[0] == front[0]);
        if "Tests run:"@.is_prefix_of(s) {
            assert("Tests run:"@[0] == s.subrange(0, 10)[0]);
        }
        assert(counts_at_start(s) is None);
        assert(s.drop_first() =~= front.drop_first() + (surefire_counts(c) + back));
        assert forall|i: int| 0 <= i < front.drop_first().len() implies #[trigger] front.drop_first()[i]
            != 'T' by {
            assert(front.drop_first()[i] == front[i + 1]);
        }
        law_surefire_counts_are_read(front.drop_first(), c, back);
    }
}

/// A number that is printed and read back is the same.
pub proof fn law_printed_numbers_are_read_back(n: nat)
    requires
        n <= usize::MAX,
    ensures
        is_number(decimal(n)),
        count_value(decimal(n)) == n,
{
    lemma_decimal(n);
    assert('0' <= decimal(n)[0] <= '9');
}

pub(crate) proof fn lemma_decimal(n: nat)
    ensures
        decimal(n).len() > 0,
        ascii_digits(decimal(n)),
        number(decimal(n)) == n,
    decreases n,
{
    if n < 10 {
        assert(decimal(n).drop_last() =~= seq![]);
        assert(number(decimal(n).drop_last()) == 0);
        assert(digit_value(digit_char(n)) == n);
    } else {
        lemma_decimal(n / 10);
        assert(decimal(n).drop_last() =~= decimal(n / 10));
        assert(digit_value(digit_char(n % 10)) == n % 10);
    }
}

} // verus!
