//! The forms of the lines in a Maven log, put together from their parts: which texts
//! have a form, and which have not.

use vstd::prelude::*;

use crate::grammar::{
    after, after_head, after_white, counts_at_start, counts_in, dash_run, digit, digit_run,
    digits_then, failure_in, has_inner_dot, is_compile_diagnostic, is_compiling,
    is_module_line, is_noise, is_ruler, is_stack_frame, labelled, message_in, message_start,
    module_outcome, names_exception, names_pom, next_labelled, opens_failure, opens_summary,
    time_in, verdict_in, white_run, word_run, word_then, Counts,
};
use crate::grammar_laws::{lemma_after, starts_without_digit};
use crate::pattern::regex_is_match;
use crate::string_laws::stands_at;
use crate::text::{blank, last_of, until, white};
use crate::text_laws::{lemma_last_of, lemma_until_feed, lemma_until_none, without_feed};

verus! {

/// Whether `s` is white space, at least one character of it.
pub open spec fn is_gap(s: Seq<char>) -> bool {
    s.len() > 0 && forall|i: int| 0 <= i < s.len() ==> white(#[trigger] s[i])
}

/// Whether `s` is white space or empty.
pub open spec fn is_optional_gap(s: Seq<char>) -> bool {
    forall|i: int| 0 <= i < s.len() ==> white(#[trigger] s[i])
}

/// Whether `s` is one word: characters other than white space, at least one.
pub open spec fn is_word(s: Seq<char>) -> bool {
    s.len() > 0 && forall|i: int| 0 <= i < s.len() ==> !white(#[trigger] s[i])
}

/// Whether `s` is digits of ASCII, at least one.
pub open spec fn are_digits(s: Seq<char>) -> bool {
    s.len() > 0 && forall|i: int| 0 <= i < s.len() ==> 48 <= #[trigger] s[i] as int <= 57
}

/// Whether `s` starts with white space.
pub open spec fn starts_white(s: Seq<char>) -> bool {
    s.len() > 0 && white(s[0])
}

pub(crate) proof fn lemma_white_run(gap: Seq<char>, rest: Seq<char>)
    requires
        is_optional_gap(gap),
        !starts_white(rest),
    ensures
        white_run(gap + rest) == gap.len(),
        (gap + rest).skip(gap.len() as int) == rest,
    decreases gap.len(),
{
    assert((gap + rest).skip(gap.len() as int) =~= rest);
    if gap.len() == 0 {
        assert(gap + rest =~= rest);
    } else {
        assert((gap + rest)[0] == gap[0]);
        assert((gap + rest).drop_first() =~= gap.drop_first() + rest);
        lemma_white_run(gap.drop_first(), rest);
    }
}

pub(crate) proof fn lemma_word_run(word: Seq<char>, rest: Seq<char>)
    requires
        forall|i: int| 0 <= i < word.len() ==> !white(#[trigger] word[i]),
        rest.len() == 0 || white(rest[0]),
    ensures
        word_run(word + rest) == word.len(),
        (word + rest).skip(word.len() as int) == rest,
        (word + rest).take(word.len() as int) == word,
    decreases word.len(),
{
    assert((word + rest).skip(word.len() as int) =~= rest);
    assert((word + rest).take(word.len() as int) =~= word);
    if word.len() == 0 {
        assert(word + rest =~= rest);
    } else {
        assert((word + rest)[0] == word[0]);
        assert((word + rest).drop_first() =~= word.drop_first() + rest);
        lemma_word_run(word.drop_first(), rest);
    }
}

proof fn lemma_run_of_white(s: Seq<char>)
    ensures
        white_run(s) <= s.len(),
        is_optional_gap(s.take(white_run(s) as int)),
        !starts_white(s.skip(white_run(s) as int)),
        s == s.take(white_run(s) as int) + s.skip(white_run(s) as int),
    decreases s.len(),
{
    if s.len() > 0 && white(s[0]) {
        let rest = s.drop_first();
        lemma_run_of_white(rest);
        let n = white_run(s) as int;
        assert forall|i: int| 0 <= i < n implies white(#[trigger] s.take(n)[i]) by {
            if i > 0 {
                assert(rest.take(n - 1)[i - 1] == s[i]);
            }
        }
        assert(s.skip(n) =~= rest.skip(n - 1));
    }
    let n = white_run(s) as int;
    assert(s =~= s.take(n) + s.skip(n));
}

proof fn lemma_run_of_word(s: Seq<char>)
    ensures
        word_run(s) <= s.len(),
        forall|i: int| 0 <= i < word_run(s) ==> !white(#[trigger] s[i]),
        word_run(s) < s.len() ==> white(s[word_run(s) as int]),
    decreases s.len(),
{
    if s.len() > 0 && !white(s[0]) {
        let rest = s.drop_first();
        lemma_run_of_word(rest);
        assert forall|i: int| 0 <= i < word_run(s) implies !white(#[trigger] s[i]) by {
            if i > 0 {
                assert(rest[i - 1] == s[i]);
            }
        }
    }
}

proof fn lemma_head(s: Seq<char>, head: Seq<char>)
    requires
        head.is_prefix_of(s),
    ensures
        s == head + s.skip(head.len() as int),
{
    assert forall|i: int| 0 <= i < head.len() implies s[i] == #[trigger] head[i] by {
        assert(head[i] == s.subrange(0, head.len() as int)[i]);
    }
    assert(s =~= head + s.skip(head.len() as int));
}

/// `head`, white space, and a text that does not start with it.
proof fn lemma_after_head(head: Seq<char>, gap: Seq<char>, rest: Seq<char>)
    requires
        is_gap(gap),
        !starts_white(rest),
    ensures
        after_head(head + gap + rest, head) == Some(rest),
        after_head(head + (gap + rest), head) == Some(rest),
        after_white(gap + rest) == Some(rest),
{
    assert(head + gap + rest =~= head + (gap + rest));
    lemma_after(head, gap + rest);
    lemma_white_run(gap, rest);
}

proof fn lemma_parts_of_head(s: Seq<char>, head: Seq<char>) -> (gap: Seq<char>)
    requires
        after_head(s, head) is Some,
    ensures
        is_gap(gap),
        !starts_white(after_head(s, head)->0),
        s == head + (gap + after_head(s, head)->0),
{
    lemma_head(s, head);
    let rest = s.skip(head.len() as int);
    lemma_run_of_white(rest);
    rest.take(white_run(rest) as int)
}

/// A line gives the verdict if it starts with it, behind the level.
pub proof fn law_verdict_lines(s: Seq<char>, rest: Seq<char>)
    ensures
        verdict_in("[INFO] BUILD SUCCESS"@ + rest) == Some("SUCCESS"@),
        verdict_in("[INFO] BUILD FAILURE"@ + rest) == Some("FAILURE"@),
        verdict_in(s) is Some ==> "[INFO] BUILD SUCCESS"@.is_prefix_of(s)
            || "[INFO] BUILD FAILURE"@.is_prefix_of(s),
{
    reveal_strlit("[INFO] BUILD SUCCESS");
    reveal_strlit("[INFO] BUILD FAILURE");
    lemma_after("[INFO] BUILD SUCCESS"@, rest);
    lemma_after("[INFO] BUILD FAILURE"@, rest);
    let f = "[INFO] BUILD FAILURE"@ + rest;
    if "[INFO] BUILD SUCCESS"@.is_prefix_of(f) {
        assert("[INFO] BUILD SUCCESS"@[13] == f.subrange(0, 20)[13]);
    }
}

/// A line tells the total time behind its label and white space, up to its end. No
/// other line does, and none that has no white space there.
pub proof fn law_time_lines(gap: Seq<char>, time: Seq<char>, rest: Seq<char>)
    ensures
        is_gap(gap) && time.len() > 0 && !white(time[0]) && without_feed(time) ==> time_in(
            "[INFO] Total time:"@ + gap + time,
        ) == Some(time),
        !"[INFO] Total time:"@.is_prefix_of(rest) ==> time_in(rest) is None,
        !starts_white(rest) ==> time_in("[INFO] Total time:"@ + rest) is None,
{
    let label = "[INFO] Total time:"@;
    if is_gap(gap) && time.len() > 0 && !white(time[0]) && without_feed(time) {
        assert(label + gap + time =~= label + (gap + time));
        lemma_after(label, gap + time);
        lemma_message(gap, time);
    }
    lemma_after(label, rest);
}

proof fn lemma_message(gap: Seq<char>, message: Seq<char>)
    requires
        is_gap(gap),
        message.len() > 0,
        !white(message[0]),
        without_feed(message),
    ensures
        message_in(gap + message) == Some(message),
{
    let s = gap + message;
    lemma_white_run(gap, message);
    assert(s[gap.len() as int] == message[0]);
    assert(message_start(s, gap.len()) == Some(gap.len()));
    lemma_until_none(message);
    assert(message.take(message.len() as int) =~= message);
}

/// Whether `s` has a dot between two other characters.
pub open spec fn has_dot_inside(s: Seq<char>) -> bool {
    exists|i: int| 0 < i && i + 1 < s.len() && #[trigger] s[i] == '.'
}

/// A line of the list of failures is an error that gives the method with its class,
/// a colon and the number of the line, and the message. All three are read as they
/// stand there.
pub proof fn law_listed_failures_are_read(
    gap: Seq<char>,
    method: Seq<char>,
    line: Seq<char>,
    space: Seq<char>,
    message: Seq<char>,
)
    requires
        is_gap(gap),
        is_word(method),
        has_dot_inside(method),
        are_decimal_digits(line),
        is_word(line),
        is_gap(space),
        message.len() > 0,
        !white(message[0]),
        without_feed(message),
    ensures
        failure_in(listed_line(gap, method, line, space, message)) == Some((method, line, message)),
{
    let s = listed_line(gap, method, line, space, message);
    let word = method + seq![':'] + line;
    let tail = space + message;
    let rest = word + tail;
    assert(s == "[ERROR]"@ + (gap + rest));
    assert(rest[0] == method[0]);
    lemma_after_head("[ERROR]"@, gap, rest);
    assert forall|i: int| 0 <= i < word.len() implies !white(#[trigger] word[i]) by {
        if i < method.len() {
            assert(word[i] == method[i]);
        } else if i > method.len() {
            assert(word[i] == line[i - method.len() - 1]);
        }
    }
    assert(tail[0] == space[0]);
    lemma_word_run(word, tail);
    lemma_last_colon(method, line);
    let n = method.len() as int;
    assert(word.take(n) =~= method);
    assert(word.skip(n + 1) =~= line);
    lemma_message(space, message);
    lemma_digits(line, seq![]);
    assert(line + seq![] =~= line);
    assert(has_inner_dot(method));
}

proof fn lemma_last_colon(method: Seq<char>, line: Seq<char>)
    requires
        are_decimal_digits(line),
    ensures
        last_of(method + seq![':'] + line, ':') == Some(method.len()),
{
    let word = method + seq![':'] + line;
    let n = method.len() as int;
    lemma_last_of(word, ':');
    assert(word[n] == ':');
    let i = last_of(word, ':')->0;
    if i > n {
        assert(word[i as int] == line[i - n - 1]);
    }
}

/// The parts of a line that is read as one of the list of failures: there is no
/// other way to put it together.
pub proof fn law_listed_failures_have_their_parts(s: Seq<char>)
    requires
        failure_in(s) is Some,
        without_feed(s),
    ensures
        ({
            let (method, line, message) = failure_in(s)->0;
            &&& is_word(method)
            &&& has_dot_inside(method)
            &&& line.len() > 0
            &&& forall|i: int| 0 <= i < line.len() ==> digit(#[trigger] line[i])
            &&& message.len() > 0
            &&& exists|gap: Seq<char>, space: Seq<char>|
                is_gap(gap) && is_gap(space) && s == #[trigger] listed_line(
                    gap,
                    method,
                    line,
                    space,
                    message,
                )
        }),
{
    let (method, line, message) = failure_in(s)->0;
    let rest = after_head(s, "[ERROR]"@)->0;
    let gap = lemma_parts_of_head(s, "[ERROR]"@);
    lemma_run_of_word(rest);
    let k = word_run(rest) as int;
    let word = rest.take(k);
    let tail = rest.skip(k);
    assert forall|i: int| 0 <= i < word.len() implies !white(#[trigger] word[i]) by {
        assert(word[i] == rest[i]);
    }
    lemma_last_of(word, ':');
    let i = last_of(word, ':')->0 as int;
    assert(method == word.take(i));
    assert forall|j: int| 0 <= j < method.len() implies !white(#[trigger] method[j]) by {
        assert(method[j] == word[j]);
    }
    assert(line == word.skip(i + 1));
    lemma_all_digits(line);
    lemma_run_of_white(tail);
    let n = message_start(tail, white_run(tail))->0 as int;
    lemma_start_of_message(tail, white_run(tail));
    let space = tail.take(n);
    let all = tail.skip(n);
    assert(without_feed(all)) by {
        assert forall|j: int| 0 <= j < all.len() implies #[trigger] all[j] != '\n' by {
            assert(all[j] == s["[ERROR]"@.len() + gap.len() + k + n + j]);
        }
    }
    lemma_until_none(all);
    assert(message =~= all);
    assert(is_gap(space)) by {
        assert forall|j: int| 0 <= j < space.len() implies white(#[trigger] space[j]) by {
            assert(space[j] == tail.take(white_run(tail) as int)[j]);
        }
    }
    assert(word =~= method + seq![':'] + line);
    assert(tail =~= space + message);
    assert(rest =~= word + tail);
    assert(s == listed_line(gap, method, line, space, message));
    let d = choose|d: int| 1 <= d < method.len() - 1 && #[trigger] method[d] == '.';
    assert(has_dot_inside(method));
}

/// A line of the list of failures.
pub open spec fn listed_line(
    gap: Seq<char>,
    method: Seq<char>,
    line: Seq<char>,
    space: Seq<char>,
    message: Seq<char>,
) -> Seq<char> {
    "[ERROR]"@ + (gap + ((method + seq![':'] + line) + (space + message)))
}

proof fn lemma_start_of_message(s: Seq<char>, most: nat)
    ensures
        message_start(s, most) matches Some(n) ==> 0 < n <= most && n < s.len() && s[n as int]
            != '\n',
    decreases most,
{
    if most > 0 {
        lemma_start_of_message(s, (most - 1) as nat);
    }
}

proof fn lemma_all_digits(s: Seq<char>)
    requires
        digit_run(s) == s.len(),
    ensures
        forall|i: int| 0 <= i < s.len() ==> digit(#[trigger] s[i]),
    decreases s.len(),
{
    if s.len() > 0 {
        lemma_all_digits(s.drop_first());
        assert forall|i: int| 0 <= i < s.len() implies digit(#[trigger] s[i]) by {
            if i > 0 {
                assert(s.drop_first()[i - 1] == s[i]);
            }
        }
    }
}

/// The counts of Surefire with any white space between their parts, and what
/// follows them.
pub open spec fn spaced_counts(c: Counts, gaps: Seq<Seq<char>>, back: Seq<char>) -> Seq<char> {
    let skipped = ","@ + (gaps[5] + ("Skipped:"@ + (gaps[6] + (c.skipped + back))));
    let errors = ","@ + (gaps[3] + ("Errors:"@ + (gaps[4] + (c.errors + skipped))));
    let failures = ","@ + (gaps[1] + ("Failures:"@ + (gaps[2] + (c.failures + errors))));
    "Tests run:"@ + (gaps[0] + (c.run + failures))
}

proof fn lemma_spaced_label(
    label: Seq<char>,
    gap: Seq<char>,
    value: Seq<char>,
    rest: Seq<char>,
)
    requires
        is_optional_gap(gap),
        are_decimal_digits(value),
        !white(value[0]),
        starts_without_digit(rest),
    ensures
        labelled(label + (gap + (value + rest)), label) == Some((value, rest)),
{
    lemma_after(label, gap + (value + rest));
    assert((value + rest)[0] == value[0]);
    lemma_white_run(gap, value + rest);
    lemma_digits(value, rest);
    assert((value + rest).take(value.len() as int) =~= value);
    assert((value + rest).skip(value.len() as int) =~= rest);
}

proof fn lemma_next_spaced_label(
    space: Seq<char>,
    label: Seq<char>,
    gap: Seq<char>,
    value: Seq<char>,
    rest: Seq<char>,
)
    requires
        is_optional_gap(space),
        label.len() > 0,
        !white(label[0]),
        is_optional_gap(gap),
        are_decimal_digits(value),
        !white(value[0]),
        starts_without_digit(rest),
    ensures
        next_labelled(","@ + (space + (label + (gap + (value + rest)))), label) == Some(
            (value, rest),
        ),
        starts_without_digit(","@ + (space + (label + (gap + (value + rest))))),
{
    reveal_strlit(",");
    let tail = label + (gap + (value + rest));
    lemma_after(","@, space + tail);
    assert(tail[0] == label[0]);
    lemma_white_run(space, tail);
    lemma_spaced_label(label, gap, value, rest);
    assert((","@ + (space + tail))[0] == ',');
}

/// Counts are read behind their labels, whatever white space there is, behind any
/// front without a capital `T` and before anything but a further digit.
pub proof fn law_spaced_counts_are_read(
    front: Seq<char>,
    c: Counts,
    gaps: Seq<Seq<char>>,
    back: Seq<char>,
)
    requires
        forall|i: int| 0 <= i < front.len() ==> #[trigger] front[i] != 'T',
        gaps.len() == 7,
        forall|i: int| 0 <= i < 7 ==> is_optional_gap(#[trigger] gaps[i]),
        are_decimal_digits(c.run) && !white(c.run[0]),
        are_decimal_digits(c.failures) && !white(c.failures[0]),
        are_decimal_digits(c.errors) && !white(c.errors[0]),
        are_decimal_digits(c.skipped) && !white(c.skipped[0]),
        starts_without_digit(back),
    ensures
        counts_in(front + spaced_counts(c, gaps, back)) == Some(c),
    decreases front.len(),
{
    let s = front + spaced_counts(c, gaps, back);
    reveal_strlit("Tests run:");
    if front.len() > 0 {
        assert(s[0] == front[0]);
        if "Tests run:"@.is_prefix_of(s) {
            assert("Tests run:"@[0] == s.subrange(0, 10)[0]);
        }
        assert(counts_at_start(s) is None);
        let less = front.drop_first();
        assert(s.drop_first() =~= less + spaced_counts(c, gaps, back));
        assert forall|i: int| 0 <= i < less.len() implies #[trigger] less[i] != 'T' by {
            assert(less[i] == front[i + 1]);
        }
        law_spaced_counts_are_read(less, c, gaps, back);
    } else {
        reveal_strlit("Failures:");
        reveal_strlit("Errors:");
        reveal_strlit("Skipped:");
        assert(is_optional_gap(gaps[0]) && is_optional_gap(gaps[1]) && is_optional_gap(gaps[2])
            && is_optional_gap(gaps[3]) && is_optional_gap(gaps[4]) && is_optional_gap(gaps[5])
            && is_optional_gap(gaps[6]));
        let s3 = ","@ + (gaps[5] + ("Skipped:"@ + (gaps[6] + (c.skipped + back))));
        let s2 = ","@ + (gaps[3] + ("Errors:"@ + (gaps[4] + (c.errors + s3))));
        let s1 = ","@ + (gaps[1] + ("Failures:"@ + (gaps[2] + (c.failures + s2))));
        lemma_next_spaced_label(gaps[5], "Skipped:"@, gaps[6], c.skipped, back);
        lemma_next_spaced_label(gaps[3], "Errors:"@, gaps[4], c.errors, s3);
        lemma_next_spaced_label(gaps[1], "Failures:"@, gaps[2], c.failures, s2);
        lemma_spaced_label("Tests run:"@, gaps[0], c.run, s1);
        assert(s =~= spaced_counts(c, gaps, back));
    }
}

proof fn lemma_parts_of_label(s: Seq<char>, label: Seq<char>) -> (gap: Seq<char>)
    requires
        labelled(s, label) is Some,
    ensures
        is_optional_gap(gap),
        ({
            let (value, rest) = labelled(s, label)->0;
            are_decimal_digits(value) && s == label + (gap + (value + rest))
        }),
{
    lemma_head(s, label);
    let all = after(s, label)->0;
    lemma_run_of_white(all);
    let n = white_run(all) as int;
    let value = all.skip(n);
    lemma_run_of_digits(value);
    let k = digit_run(value) as int;
    assert forall|i: int| 0 <= i < k implies digit(#[trigger] value.take(k)[i]) by {
        assert(value.take(k)[i] == value[i]);
    }
    assert(value =~= value.take(k) + value.skip(k));
    all.take(n)
}

proof fn lemma_parts_of_next_label(s: Seq<char>, label: Seq<char>) -> (gaps: (Seq<char>, Seq<char>))
    requires
        next_labelled(s, label) is Some,
    ensures
        is_optional_gap(gaps.0),
        is_optional_gap(gaps.1),
        ({
            let (value, rest) = next_labelled(s, label)->0;
            are_decimal_digits(value) && s == ","@ + (gaps.0 + (label + (gaps.1 + (value + rest))))
        }),
{
    lemma_head(s, ","@);
    let all = after(s, ","@)->0;
    lemma_run_of_white(all);
    let n = white_run(all) as int;
    let gap = lemma_parts_of_label(all.skip(n), label);
    (all.take(n), gap)
}

/// Counts that are read stand in the line, all four behind their labels and with
/// commas between them.
pub proof fn law_counts_have_their_parts(s: Seq<char>)
    requires
        counts_in(s) is Some,
    ensures
        ({
            let c = counts_in(s)->0;
            &&& are_decimal_digits(c.run)
            &&& are_decimal_digits(c.failures)
            &&& are_decimal_digits(c.errors)
            &&& are_decimal_digits(c.skipped)
            &&& exists|front: Seq<char>, gaps: Seq<Seq<char>>, back: Seq<char>|
                gaps.len() == 7 && (forall|i: int|
                    0 <= i < 7 ==> is_optional_gap(#[trigger] gaps[i])) && s
                    == #[trigger] counts_line(front, c, gaps, back)
        }),
    decreases s.len(),
{
    if counts_at_start(s) is Some {
        let c = counts_at_start(s)->0;
        let s1 = (labelled(s, "Tests run:"@)->0).1;
        let s2 = (next_labelled(s1, "Failures:"@)->0).1;
        let s3 = (next_labelled(s2, "Errors:"@)->0).1;
        let back = (next_labelled(s3, "Skipped:"@)->0).1;
        let g0 = lemma_parts_of_label(s, "Tests run:"@);
        let (g1, g2) = lemma_parts_of_next_label(s1, "Failures:"@);
        let (g3, g4) = lemma_parts_of_next_label(s2, "Errors:"@);
        let (g5, g6) = lemma_parts_of_next_label(s3, "Skipped:"@);
        let gaps = seq![g0, g1, g2, g3, g4, g5, g6];
        assert(gaps[0] == g0 && gaps[1] == g1 && gaps[2] == g2 && gaps[3] == g3 && gaps[4] == g4
            && gaps[5] == g5 && gaps[6] == g6);
        assert(s == spaced_counts(c, gaps, back));
        assert(seq![] + s =~= s);
        assert(s == counts_line(seq![], c, gaps, back));
    } else {
        law_counts_have_their_parts(s.drop_first());
        let c = counts_in(s)->0;
        let (front, gaps, back) = choose|front: Seq<char>, gaps: Seq<Seq<char>>, back: Seq<char>|
            gaps.len() == 7 && (forall|i: int|
                0 <= i < 7 ==> is_optional_gap(#[trigger] gaps[i])) && s.drop_first()
                == #[trigger] counts_line(front, c, gaps, back);
        assert(s =~= seq![s[0]] + s.drop_first());
        assert(s =~= counts_line(seq![s[0]] + front, c, gaps, back));
    }
}

/// A line with counts in it.
pub open spec fn counts_line(
    front: Seq<char>,
    c: Counts,
    gaps: Seq<Seq<char>>,
    back: Seq<char>,
) -> Seq<char> {
    front + spaced_counts(c, gaps, back)
}

/// Where a label is missing there are no counts.
pub proof fn law_counts_need_their_label(s: Seq<char>)
    requires
        forall|k: int| !#[trigger] stands_at(s, "Tests run:"@, k),
    ensures
        counts_in(s) is None,
    decreases s.len(),
{
    if "Tests run:"@.is_prefix_of(s) {
        lemma_head(s, "Tests run:"@);
        assert(stands_at(s, "Tests run:"@, 0));
    }
    if s.len() > 0 {
        let rest = s.drop_first();
        assert forall|k: int| !#[trigger] stands_at(rest, "Tests run:"@, k) by {
            if stands_at(rest, "Tests run:"@, k) {
                assert forall|i: int| 0 <= i < "Tests run:"@.len() implies s[k + 1 + i]
                    == #[trigger] "Tests run:"@[i] by {
                    assert(rest[k + i] == "Tests run:"@[i]);
                }
                assert(stands_at(s, "Tests run:"@, k + 1));
            }
        }
        law_counts_need_their_label(rest);
    }
}

/// A line on a module in the summary.
pub open spec fn module_line_of(
    gap: Seq<char>,
    name: Seq<char>,
    space: Seq<char>,
    succeeded: bool,
    blank: Seq<char>,
    rest: Seq<char>,
) -> Seq<char> {
    let outcome = if succeeded {
        "SUCCESS"@
    } else {
        "FAILURE"@
    };
    "[INFO]"@ + (gap + (name + (".."@ + (space + (outcome + (blank + ("["@ + rest)))))))
}

/// A line on a module gives its name and dots, whether it succeeded or failed, and
/// a bracket.
pub proof fn law_module_lines(
    gap: Seq<char>,
    name: Seq<char>,
    space: Seq<char>,
    succeeded: bool,
    blank: Seq<char>,
    rest: Seq<char>,
)
    requires
        is_gap(gap),
        name.len() > 0,
        !white(name[0]),
        without_feed(name),
        is_gap(space),
        is_gap(blank),
    ensures
        is_module_line(module_line_of(gap, name, space, succeeded, blank, rest)),
{
    reveal_strlit("SUCCESS");
    reveal_strlit("FAILURE");
    reveal_strlit("[");
    reveal_strlit("..");
    let s = module_line_of(gap, name, space, succeeded, blank, rest);
    let outcome = if succeeded {
        "SUCCESS"@
    } else {
        "FAILURE"@
    };
    let end = "["@ + rest;
    let told = outcome + (blank + end);
    let tail = ".."@ + (space + told);
    let all = name + tail;
    assert(s == "[INFO]"@ + (gap + all));
    assert(all[0] == name[0]);
    lemma_after_head("[INFO]"@, gap, all);
    assert(told[0] == outcome[0]);
    lemma_after_head(".."@, space, told);
    assert(end[0] == '[');
    lemma_after_head(outcome, blank, end);
    lemma_after("["@, rest);
    assert(module_outcome(tail));
    let n = name.len() as int;
    assert(all.skip(n) =~= tail);
    assert(module_outcome(all.skip(n)));
    let behind = all.skip(1);
    assert forall|i: int| 0 <= i < n - 1 implies #[trigger] behind[i] != '\n' by {
        assert(behind[i] == name[i + 1]);
    }
    lemma_until_within(behind, n - 1);
    lemma_is_module_line(s, all, n);
}

proof fn lemma_is_module_line(s: Seq<char>, all: Seq<char>, n: int)
    requires
        after_head(s, "[INFO]"@) == Some(all),
        1 <= n <= all.len(),
        n <= 1 + until(all.skip(1), '\n'),
        module_outcome(all.skip(n)),
    ensures
        is_module_line(s),
{
    match after_head(s, "[INFO]"@) {
        Some(rest) => {
            assert(module_outcome(rest.skip(n)));
            assert(1 <= n <= rest.len() && n <= 1 + until(rest.skip(1), '\n'));
            assert(exists|n: int|
                1 <= n <= rest.len() && n <= 1 + until(rest.skip(1), '\n')
                    && #[trigger] module_outcome(rest.skip(n)));
        },
        None => {},
    }
}

proof fn lemma_until_within(s: Seq<char>, n: int)
    requires
        0 <= n <= s.len(),
        forall|i: int| 0 <= i < n ==> #[trigger] s[i] != '\n',
    ensures
        until(s, '\n') >= n,
{
    lemma_until_feed(s);
}

/// The parts of a line on a module.
pub proof fn law_module_lines_have_their_parts(s: Seq<char>)
    requires
        is_module_line(s),
    ensures
        exists|
            gap: Seq<char>,
            name: Seq<char>,
            space: Seq<char>,
            succeeded: bool,
            blank: Seq<char>,
            rest: Seq<char>,
        |
            is_gap(gap) && name.len() > 0 && !white(name[0]) && is_gap(space) && is_gap(blank) && s
                == #[trigger] module_line_of(gap, name, space, succeeded, blank, rest),
{
    let all = after_head(s, "[INFO]"@)->0;
    let gap = lemma_parts_of_head(s, "[INFO]"@);
    let n = choose|n: int|
        1 <= n <= all.len() && n <= 1 + until(all.skip(1), '\n') && #[trigger] module_outcome(
            all.skip(n),
        );
    let name = all.take(n);
    let tail = all.skip(n);
    let told = after_head(tail, ".."@)->0;
    let space = lemma_parts_of_head(tail, ".."@);
    let succeeded = after_head(told, "SUCCESS"@) matches Some(end) && "["@.is_prefix_of(end);
    let outcome = if succeeded {
        "SUCCESS"@
    } else {
        "FAILURE"@
    };
    let blank = lemma_parts_of_head(told, outcome);
    let end = after_head(told, outcome)->0;
    lemma_head(end, "["@);
    let rest = end.skip("["@.len() as int);
    assert(name[0] == all[0]);
    assert(all =~= name + tail);
    assert(s == module_line_of(gap, name, space, succeeded, blank, rest));
}

/// A line on how many files are compiled.
pub open spec fn compiling_of(number: Seq<char>, rest: Seq<char>) -> Seq<char> {
    "[INFO] Compiling "@ + (number + (" source files"@ + rest))
}

/// A line that tells how many files are compiled gives the number between two fixed
/// texts, and no other line does.
pub proof fn law_compiling_lines(s: Seq<char>)
    ensures
        is_compiling(s) <==> exists|number: Seq<char>, rest: Seq<char>|
            are_decimal_digits(number) && s == #[trigger] compiling_of(number, rest),
{
    reveal_strlit(" source files");
    if is_compiling(s) {
        let all = after(s, "[INFO] Compiling "@)->0;
        lemma_head(s, "[INFO] Compiling "@);
        lemma_run_of_digits(all);
        let n = digit_run(all) as int;
        let tail = all.skip(n);
        lemma_head(tail, " source files"@);
        let number = all.take(n);
        assert forall|i: int| 0 <= i < number.len() implies digit(#[trigger] number[i]) by {
            assert(number[i] == all[i]);
        }
        assert(all =~= number + tail);
        assert(s == compiling_of(number, tail.skip(" source files"@.len() as int)));
    }
    assert forall|number: Seq<char>, rest: Seq<char>|
        are_decimal_digits(number) implies is_compiling(
        #[trigger] compiling_of(number, rest),
    ) by {
        let tail = " source files"@ + rest;
        assert(tail[0] == ' ');
        lemma_after("[INFO] Compiling "@, number + tail);
        lemma_digits(number, tail);
        lemma_after(" source files"@, rest);
    }
}

/// A digit of ASCII is one of ten characters, by their numbers. Beyond ASCII it is
/// one of the class of digits of the regular expressions.
pub proof fn law_digits(c: char)
    ensures
        c as int <= 127 ==> (digit(c) <==> 48 <= c as int <= 57),
        c as int > 127 ==> (digit(c) <==> regex_is_match(r"\d"@, seq![c])),
{
}

/// A diagnostic of the compiler is an error that gives an absolute path, one that
/// starts with a slash, or with a letter, a colon and a slash of either kind.
pub proof fn law_compile_diagnostics(s: Seq<char>)
    ensures
        is_compile_diagnostic(s) <==> exists|gap: Seq<char>, path: Seq<char>|
            is_gap(gap) && is_absolute(path) && s == #[trigger] error_of(gap, path),
{
    if is_compile_diagnostic(s) {
        let path = after_head(s, "[ERROR]"@)->0;
        let gap = lemma_parts_of_head(s, "[ERROR]"@);
        assert(s =~= error_of(gap, path));
        assert(is_absolute(path));
    }
    assert forall|gap: Seq<char>, path: Seq<char>|
        is_gap(gap) && is_absolute(path) implies is_compile_diagnostic(
        #[trigger] error_of(gap, path),
    ) by {
        lemma_after_head("[ERROR]"@, gap, path);
    }
}

/// An error: the level, white space, and what follows.
pub open spec fn error_of(gap: Seq<char>, rest: Seq<char>) -> Seq<char> {
    "[ERROR]"@ + gap + rest
}

/// Whether a path is absolute, of Unix or with the letter of a drive.
pub open spec fn is_absolute(path: Seq<char>) -> bool {
    ||| path.len() >= 1 && path[0] == '/'
    ||| {
        &&& path.len() >= 3
        &&& 65 <= path[0] as int <= 90 || 97 <= path[0] as int <= 122
        &&& path[1] == ':'
        &&& path[2] == '/' || path[2] as int == 92
    }
}

/// The head of the report on a failure is an error that gives the name of the test
/// and the time that it took.
pub proof fn law_report_heads(s: Seq<char>)
    ensures
        opens_failure(s) <==> exists|
            gap: Seq<char>,
            name: Seq<char>,
            space: Seq<char>,
            blank: Seq<char>,
            rest: Seq<char>,
        |
            is_gap(gap) && is_word(name) && is_gap(space) && is_gap(blank) && s
                == #[trigger] report_head(gap, name, space, blank, rest),
{
    reveal_strlit("--");
    reveal_strlit("Time elapsed");
    if opens_failure(s) {
        let all = after_head(s, "[ERROR]"@)->0;
        let gap = lemma_parts_of_head(s, "[ERROR]"@);
        lemma_run_of_word(all);
        let n = word_run(all) as int;
        let name = all.take(n);
        let end = all.skip(n);
        lemma_run_of_white(end);
        let space = end.take(white_run(end) as int);
        let dashes = after_white(end)->0;
        let time = after_head(dashes, "--"@)->0;
        let blank = lemma_parts_of_head(dashes, "--"@);
        lemma_head(time, "Time elapsed"@);
        let rest = time.skip("Time elapsed"@.len() as int);
        assert forall|i: int| 0 <= i < name.len() implies !white(#[trigger] name[i]) by {
            assert(name[i] == all[i]);
        }
        assert(all =~= name + end);
        assert(s == report_head(gap, name, space, blank, rest));
    }
    assert forall|
        gap: Seq<char>,
        name: Seq<char>,
        space: Seq<char>,
        blank: Seq<char>,
        rest: Seq<char>,
    |
        is_gap(gap) && is_word(name) && is_gap(space) && is_gap(blank) implies opens_failure(
        #[trigger] report_head(gap, name, space, blank, rest),
    ) by {
        let time = "Time elapsed"@ + rest;
        let dashes = "--"@ + (blank + time);
        let end = space + dashes;
        let all = name + end;
        assert(report_head(gap, name, space, blank, rest) == "[ERROR]"@ + (gap + all));
        assert(all[0] == name[0]);
        lemma_after_head("[ERROR]"@, gap, all);
        assert(end[0] == space[0]);
        lemma_word_run(name, end);
        assert(dashes[0] == '-');
        lemma_after_head("--"@, space, dashes);
        assert(time[0] == 'T');
        lemma_after_head("--"@, blank, time);
        lemma_after("Time elapsed"@, rest);
    }
}

/// The head of the report on a failure.
pub open spec fn report_head(
    gap: Seq<char>,
    name: Seq<char>,
    space: Seq<char>,
    blank: Seq<char>,
    rest: Seq<char>,
) -> Seq<char> {
    "[ERROR]"@ + (gap + (name + (space + ("--"@ + (blank + ("Time elapsed"@ + rest))))))
}

/// A line names an exception if it starts with `java.` or `org.junit.`, a word, and
/// `Exception` or `Error` at the end of it: both of them for Java, the latter for
/// JUnit.
pub proof fn law_exceptions_are_named(s: Seq<char>)
    ensures
        names_exception(s) <==> exists|name: Seq<char>, rest: Seq<char>|
            #![trigger exception_of(s, name, rest)]
            is_word(name) && exception_of(s, name, rest),
{
    if names_exception(s) {
        if after(s, "java."@) matches Some(rest) && word_then(rest, "Exception"@) {
            lemma_parts_of_word(s, "java."@, "Exception"@);
        } else if after(s, "java."@) matches Some(rest) && word_then(rest, "Error"@) {
            lemma_parts_of_word(s, "java."@, "Error"@);
        } else {
            lemma_parts_of_word(s, "org.junit."@, "Error"@);
        }
    }
    assert forall|name: Seq<char>, rest: Seq<char>|
        is_word(name) && #[trigger] exception_of(s, name, rest) implies names_exception(s) by {
        if s == "java."@ + name + "Exception"@ + rest {
            lemma_word_then("java."@, name, "Exception"@, rest);
        } else if s == "java."@ + name + "Error"@ + rest {
            lemma_word_then("java."@, name, "Error"@, rest);
        } else {
            lemma_word_then("org.junit."@, name, "Error"@, rest);
        }
    }
}

/// Whether `s` names an exception whose own name starts with `name`.
pub open spec fn exception_of(s: Seq<char>, name: Seq<char>, rest: Seq<char>) -> bool {
    ||| s == "java."@ + name + "Exception"@ + rest
    ||| s == "java."@ + name + "Error"@ + rest
    ||| s == "org.junit."@ + name + "Error"@ + rest
}

proof fn lemma_word_then(head: Seq<char>, name: Seq<char>, end: Seq<char>, rest: Seq<char>)
    requires
        is_word(name),
    ensures
        after(head + name + end + rest, head) == Some(name + (end + rest)),
        word_then(name + (end + rest), end),
{
    assert(head + name + end + rest =~= head + (name + (end + rest)));
    lemma_after(head, name + (end + rest));
    let s = name + (end + rest);
    let n = name.len() as int;
    lemma_run_of_word(s);
    if word_run(s) < n {
        assert(s[word_run(s) as int] == name[word_run(s) as int]);
    }
    assert(s.skip(n) =~= end + rest);
    lemma_after(end, rest);
    assert(end.is_prefix_of(s.skip(n)));
}

proof fn lemma_parts_of_word(s: Seq<char>, head: Seq<char>, end: Seq<char>)
    requires
        after(s, head) is Some,
        word_then(after(s, head)->0, end),
    ensures
        exists|name: Seq<char>, rest: Seq<char>|
            is_word(name) && s == #[trigger] (head + name + end + rest),
        head == "java."@ && (end == "Exception"@ || end == "Error"@) || head == "org.junit."@ && end
            == "Error"@ ==> exists|name: Seq<char>, rest: Seq<char>|
            #![trigger exception_of(s, name, rest)]
            is_word(name) && exception_of(s, name, rest),
{
    lemma_head(s, head);
    let all = after(s, head)->0;
    let n = choose|n: int| 1 <= n <= word_run(all) && #[trigger] end.is_prefix_of(all.skip(n));
    lemma_run_of_word(all);
    let name = all.take(n);
    lemma_head(all.skip(n), end);
    let rest = all.skip(n).skip(end.len() as int);
    assert forall|i: int| 0 <= i < name.len() implies !white(#[trigger] name[i]) by {
        assert(name[i] == all[i]);
    }
    assert(s =~= head + name + end + rest);
    assert(is_word(name));
    if head == "java."@ && (end == "Exception"@ || end == "Error"@) || head == "org.junit."@ && end
        == "Error"@ {
        assert(exception_of(s, name, rest));
    }
}

/// A line of a stack trace is indented and says `at`, with white space behind it.
pub proof fn law_stack_frames(s: Seq<char>)
    ensures
        is_stack_frame(s) <==> exists|gap: Seq<char>, rest: Seq<char>|
            is_gap(gap) && starts_white(rest) && s == #[trigger] frame_of(gap, rest),
{
    reveal_strlit("at");
    if is_stack_frame(s) {
        lemma_run_of_white(s);
        let gap = s.take(white_run(s) as int);
        let all = after_white(s)->0;
        let more = lemma_parts_of_head(all, "at"@);
        let rest = more + after_head(all, "at"@)->0;
        assert(rest[0] == more[0]);
        assert(s =~= frame_of(gap, rest));
    }
    assert forall|gap: Seq<char>, rest: Seq<char>|
        is_gap(gap) && starts_white(rest) implies is_stack_frame(#[trigger] frame_of(gap, rest)) by {
        let all = "at"@ + rest;
        assert(frame_of(gap, rest) =~= gap + all);
        assert(all[0] == 'a');
        lemma_white_run(gap, all);
        lemma_after("at"@, rest);
        assert(white_run(rest) > 0);
    }
}

/// A line of a stack trace.
pub open spec fn frame_of(gap: Seq<char>, rest: Seq<char>) -> Seq<char> {
    gap + "at"@ + rest
}

/// The summary of the modules is opened by its head, whatever follows that.
pub proof fn law_summary_heads(s: Seq<char>, rest: Seq<char>)
    ensures
        opens_summary("[INFO] Reactor Summary"@ + rest),
        opens_summary(s) ==> exists|end: Seq<char>|
            s == #[trigger] ("[INFO] Reactor Summary"@ + end),
{
    lemma_after("[INFO] Reactor Summary"@, rest);
    if opens_summary(s) {
        lemma_head(s, "[INFO] Reactor Summary"@);
    }
}

/// Whether `s` starts with one of the fixed texts of the boilerplate.
pub open spec fn starts_as_boilerplate(s: Seq<char>) -> bool {
    ||| "[INFO] Scanning for projects"@.is_prefix_of(s)
    ||| "[INFO] ====="@.is_prefix_of(s)
    ||| "Downloading:"@.is_prefix_of(s)
    ||| "Downloaded:"@.is_prefix_of(s)
    ||| "Progress"@.is_prefix_of(s)
    ||| "[INFO] --- maven-"@.is_prefix_of(s)
    ||| "[INFO] Using encoding"@.is_prefix_of(s)
    ||| "[INFO] skip non existing"@.is_prefix_of(s)
    ||| "[INFO] Nothing to compile"@.is_prefix_of(s)
    ||| "[INFO] Changes detected"@.is_prefix_of(s)
    ||| "[INFO] Finished at:"@.is_prefix_of(s)
    ||| "[INFO] Using auto detected provider"@.is_prefix_of(s)
}

/// A line of dashes, and what follows them.
pub open spec fn ruler_of(dashes: Seq<char>, rest: Seq<char>) -> Seq<char> {
    "[INFO] "@ + (dashes + rest)
}

/// A line on how many resources are copied.
pub open spec fn copying_of(number: Seq<char>, rest: Seq<char>) -> Seq<char> {
    "[INFO] Copying "@ + (number + (" resource"@ + rest))
}

/// A line on the `pom.xml` of a module.
pub open spec fn pom_line_of(
    gap: Seq<char>,
    space: Seq<char>,
    word: Seq<char>,
    rest: Seq<char>,
) -> Seq<char> {
    "[INFO]"@ + (gap + ("from"@ + (space + (word + ("/pom.xml"@ + rest)))))
}

/// Whether `s` is dashes, at least one.
pub open spec fn are_dashes(s: Seq<char>) -> bool {
    s.len() > 0 && forall|i: int| 0 <= i < s.len() ==> #[trigger] s[i] == '-'
}

/// Whether `s` is digits, at least one, of ASCII or beyond.
pub open spec fn are_decimal_digits(s: Seq<char>) -> bool {
    s.len() > 0 && forall|i: int| 0 <= i < s.len() ==> digit(#[trigger] s[i])
}

/// What is noise: no text at all, also behind the level, fixed texts at the start
/// of a line, rulers that end in nothing or in the name of a module, and lines on
/// downloads, resources and the `pom.xml`. Nothing else is.
pub proof fn law_noise_is_boilerplate(s: Seq<char>)
    ensures
        is_noise(s) <==> {
            ||| is_optional_gap(s)
            ||| "[INFO]"@.is_prefix_of(s) && is_optional_gap(s.skip(6))
            ||| starts_as_boilerplate(s)
            ||| exists|dashes: Seq<char>, rest: Seq<char>|
                are_dashes(dashes) && (rest.len() == 0 || rest[0] == '<') && s
                    == #[trigger] ruler_of(dashes, rest)
            ||| "[INFO] Downloading"@.is_prefix_of(s) && starts_white(s.skip(18))
            ||| "[INFO] Downloaded"@.is_prefix_of(s) && starts_white(s.skip(17))
            ||| exists|number: Seq<char>, rest: Seq<char>|
                are_decimal_digits(number) && s == #[trigger] copying_of(number, rest)
            ||| exists|gap: Seq<char>, space: Seq<char>, word: Seq<char>, rest: Seq<char>|
                is_gap(gap) && is_gap(space) && is_word(word) && s == #[trigger] pom_line_of(
                    gap,
                    space,
                    word,
                    rest,
                )
        },
{
    reveal_strlit("[INFO]");
    reveal_strlit("[INFO] Downloading");
    reveal_strlit("[INFO] Downloaded");
    assert(blank(s) <==> is_optional_gap(s));
    assert(blank(s.skip(6)) <==> is_optional_gap(s.skip(6)));
    lemma_rulers(s);
    lemma_copying(s);
    lemma_pom_lines(s);
    assert(white_run(s.skip(18)) > 0 <==> starts_white(s.skip(18)));
    assert(white_run(s.skip(17)) > 0 <==> starts_white(s.skip(17)));
}

proof fn lemma_rulers(s: Seq<char>)
    ensures
        is_ruler(s) <==> exists|dashes: Seq<char>, rest: Seq<char>|
            are_dashes(dashes) && (rest.len() == 0 || rest[0] == '<') && s == #[trigger] ruler_of(
                dashes,
                rest,
            ),
{
    if is_ruler(s) {
        lemma_head(s, "[INFO] "@);
        let all = after(s, "[INFO] "@)->0;
        lemma_run_of_dashes(all);
        let n = dash_run(all) as int;
        assert(all =~= all.take(n) + all.skip(n));
        assert(s == ruler_of(all.take(n), all.skip(n)));
    }
    assert forall|dashes: Seq<char>, rest: Seq<char>|
        are_dashes(dashes) && (rest.len() == 0 || rest[0] == '<') implies is_ruler(
        #[trigger] ruler_of(dashes, rest),
    ) by {
        lemma_after("[INFO] "@, dashes + rest);
        lemma_dashes(dashes, rest);
    }
}

proof fn lemma_run_of_dashes(s: Seq<char>)
    ensures
        dash_run(s) <= s.len(),
        forall|i: int| 0 <= i < dash_run(s) ==> #[trigger] s[i] == '-',
    decreases s.len(),
{
    if s.len() > 0 && s[0] == '-' {
        let rest = s.drop_first();
        lemma_run_of_dashes(rest);
        assert forall|i: int| 0 <= i < dash_run(s) implies #[trigger] s[i] == '-' by {
            if i > 0 {
                assert(rest[i - 1] == s[i]);
            }
        }
    }
}

proof fn lemma_run_of_digits(s: Seq<char>)
    ensures
        digit_run(s) <= s.len(),
        forall|i: int| 0 <= i < digit_run(s) ==> digit(#[trigger] s[i]),
    decreases s.len(),
{
    if s.len() > 0 && digit(s[0]) {
        let rest = s.drop_first();
        lemma_run_of_digits(rest);
        assert forall|i: int| 0 <= i < digit_run(s) implies digit(#[trigger] s[i]) by {
            if i > 0 {
                assert(rest[i - 1] == s[i]);
            }
        }
    }
}

proof fn lemma_digits(number: Seq<char>, rest: Seq<char>)
    requires
        forall|i: int| 0 <= i < number.len() ==> digit(#[trigger] number[i]),
        starts_without_digit(rest),
    ensures
        digit_run(number + rest) == number.len(),
        (number + rest).skip(number.len() as int) == rest,
    decreases number.len(),
{
    assert((number + rest).skip(number.len() as int) =~= rest);
    if number.len() == 0 {
        assert(number + rest =~= rest);
    } else {
        assert((number + rest)[0] == number[0]);
        assert((number + rest).drop_first() =~= number.drop_first() + rest);
        lemma_digits(number.drop_first(), rest);
    }
}

proof fn lemma_copying(s: Seq<char>)
    ensures
        (after(s, "[INFO] Copying "@) matches Some(rest) && digits_then(rest, " resource"@))
            <==> exists|number: Seq<char>, rest: Seq<char>|
            are_decimal_digits(number) && s == #[trigger] copying_of(number, rest),
{
    reveal_strlit(" resource");
    if after(s, "[INFO] Copying "@) matches Some(all) && digits_then(all, " resource"@) {
        let all = after(s, "[INFO] Copying "@)->0;
        lemma_head(s, "[INFO] Copying "@);
        lemma_run_of_digits(all);
        let n = digit_run(all) as int;
        let tail = all.skip(n);
        lemma_head(tail, " resource"@);
        let number = all.take(n);
        assert forall|i: int| 0 <= i < number.len() implies digit(#[trigger] number[i]) by {
            assert(number[i] == all[i]);
        }
        assert(all =~= number + tail);
        assert(s == copying_of(number, tail.skip(" resource"@.len() as int)));
    }
    assert forall|number: Seq<char>, rest: Seq<char>|
        are_decimal_digits(number) && s == #[trigger] copying_of(number, rest) implies (after(
        s,
        "[INFO] Copying "@,
    ) matches Some(all) && digits_then(all, " resource"@)) by {
        let tail = " resource"@ + rest;
        assert(tail[0] == ' ');
        lemma_after("[INFO] Copying "@, number + tail);
        lemma_digits(number, tail);
        lemma_after(" resource"@, rest);
    }
}

proof fn lemma_pom_lines(s: Seq<char>)
    ensures
        names_pom(s) <==> exists|
            gap: Seq<char>,
            space: Seq<char>,
            word: Seq<char>,
            rest: Seq<char>,
        |
            is_gap(gap) && is_gap(space) && is_word(word) && s == #[trigger] pom_line_of(
                gap,
                space,
                word,
                rest,
            ),
{
    reveal_strlit("from");
    if names_pom(s) {
        let tail = after_head(s, "[INFO]"@)->0;
        let gap = lemma_parts_of_head(s, "[INFO]"@);
        let path = after_head(tail, "from"@)->0;
        let space = lemma_parts_of_head(tail, "from"@);
        let n = choose|n: int|
            1 <= n <= word_run(path) && #[trigger] "/pom.xml"@.is_prefix_of(path.skip(n));
        lemma_run_of_word(path);
        let word = path.take(n);
        assert forall|i: int| 0 <= i < word.len() implies !white(#[trigger] word[i]) by {
            assert(word[i] == path[i]);
        }
        lemma_head(path.skip(n), "/pom.xml"@);
        let rest = path.skip(n).skip("/pom.xml"@.len() as int);
        assert(path =~= word + path.skip(n));
        assert(s == pom_line_of(gap, space, word, rest));
    }
    assert forall|gap: Seq<char>, space: Seq<char>, word: Seq<char>, rest: Seq<char>|
        is_gap(gap) && is_gap(space) && is_word(word) implies names_pom(
        #[trigger] pom_line_of(gap, space, word, rest),
    ) by {
        let path = word + ("/pom.xml"@ + rest);
        let tail = "from"@ + (space + path);
        assert(tail[0] == 'f');
        lemma_after_head("[INFO]"@, gap, tail);
        assert(path[0] == word[0]);
        lemma_after_head("from"@, space, path);
        lemma_word_then(seq![], word, "/pom.xml"@, rest);
    }
}

proof fn lemma_dashes(dashes: Seq<char>, rest: Seq<char>)
    requires
        forall|i: int| 0 <= i < dashes.len() ==> #[trigger] dashes[i] == '-',
        rest.len() > 0 ==> rest[0] != '-',
    ensures
        dash_run(dashes + rest) == dashes.len(),
        (dashes + rest).skip(dashes.len() as int) == rest,
    decreases dashes.len(),
{
    assert((dashes + rest).skip(dashes.len() as int) =~= rest);
    if dashes.len() == 0 {
        assert(dashes + rest =~= rest);
    } else {
        assert((dashes + rest)[0] == dashes[0]);
        assert((dashes + rest).drop_first() =~= dashes.drop_first() + rest);
        lemma_dashes(dashes.drop_first(), rest);
    }
}

} // verus!
