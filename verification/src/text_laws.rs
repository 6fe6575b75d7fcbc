//! What holds of text: trimming, splitting, lines and numbers.
use vstd::arithmetic::power::pow;
use vstd::prelude::*;

use crate::text::{
    decimal_of, digits_value, find, find_range, find_unique, is_digit, lines_of, lower, lowercase,
    number_up_to, signed_decimal_of, split_once, trim, trim_end, trim_start, white_space,
    without_return,
};

verus! {

/// White space are the six control characters from the tab to the carriage return
/// and the next line, the space, the space that does not break, and the wider and
/// narrower spaces and separators.
pub proof fn white_space_is_one_of(c: char)
    ensures
        white_space(c) <==> {
            ||| c == '\t' || c == '\n' || c == '\u{b}' || c == '\u{c}' || c == '\r'
            ||| c == ' ' || c == '\u{85}' || c == '\u{a0}' || c == '\u{1680}'
            ||| '\u{2000}' <= c <= '\u{200a}'
            ||| c == '\u{2028}' || c == '\u{2029}' || c == '\u{202f}' || c == '\u{205f}'
            ||| c == '\u{3000}'
        },
{
}

proof fn start_is_cut(s: Seq<char>) -> (from: int)
    ensures
        0 <= from <= s.len(),
        trim_start(s) == s.skip(from),
        forall|i: int| 0 <= i < from ==> white_space(#[trigger] s[i]),
        from < s.len() ==> !white_space(s[from]),
    decreases s.len(),
{
    if s.len() > 0 && white_space(s[0]) {
        let rest = s.skip(1);
        let from = start_is_cut(rest);
        assert(rest.skip(from) =~= s.skip(from + 1));
        assert forall|i: int| 0 <= i < from + 1 implies white_space(#[trigger] s[i]) by {
            if i > 0 {
                assert(rest[i - 1] == s[i]);
            }
        }
        from + 1
    } else {
        assert(s.skip(0) =~= s);
        0
    }
}

proof fn end_is_cut(s: Seq<char>) -> (to: int)
    ensures
        0 <= to <= s.len(),
        trim_end(s) == s.take(to),
        forall|i: int| to <= i < s.len() ==> white_space(#[trigger] s[i]),
        to > 0 ==> !white_space(s[to - 1]),
    decreases s.len(),
{
    if s.len() > 0 && white_space(s.last()) {
        let rest = s.drop_last();
        let to = end_is_cut(rest);
        assert(rest.take(to) =~= s.take(to));
        assert forall|i: int| to <= i < s.len() implies white_space(#[trigger] s[i]) by {
            if i < rest.len() {
                assert(rest[i] == s[i]);
            }
        }
        to
    } else {
        assert(s.take(s.len() as int) =~= s);
        s.len() as int
    }
}

/// A text that is trimmed is what lies between its first and its last character
/// that are no white space: only white space is cut off, and none is left at either
/// end.
pub proof fn only_white_space_is_trimmed(s: Seq<char>) -> (ends: (int, int))
    ensures
        0 <= ends.0 <= ends.1 <= s.len(),
        trim(s) == s.subrange(ends.0, ends.1),
        forall|i: int| 0 <= i < ends.0 ==> white_space(#[trigger] s[i]),
        forall|i: int| ends.1 <= i < s.len() ==> white_space(#[trigger] s[i]),
        trim(s).len() > 0 ==> !white_space(trim(s)[0]) && !white_space(trim(s).last()),
{
    let from = start_is_cut(s);
    let rest = s.skip(from);
    let to = end_is_cut(rest);
    assert(rest.take(to) =~= s.subrange(from, from + to));
    assert forall|i: int| from + to <= i < s.len() implies white_space(#[trigger] s[i]) by {
        assert(rest[i - from] == s[i]);
    }
    if to > 0 {
        assert(rest[to - 1] == s[from + to - 1]);
        assert(rest[0] == s[from]);
    }
    (from, from + to)
}

/// A text is split at its first separator: both parts and the separator make up
/// the text, and the first part holds none. A text without one is not split.
pub proof fn text_is_split_at_the_first(s: Seq<char>, c: char)
    ensures
        split_once(s, c) is None <==> !s.contains(c),
        split_once(s, c) matches Some((a, b)) ==> s == a + seq![c] + b && !a.contains(c),
{
    find_range(s, c);
    let at = find(s, c);
    if at < s.len() {
        assert(s.contains(c));
        let a = s.take(at);
        assert(s =~= a + seq![c] + s.skip(at + 1));
        if a.contains(c) {
            let i = choose|i: int| 0 <= i < a.len() && a[i] == c;
            assert(s[i] == c);
        }
    } else if s.contains(c) {
        let i = choose|i: int| 0 <= i < s.len() && s[i] == c;
        assert(s[i] != c);
    }
}

/// The lines of a text: one that holds no line feed is a line of its own; one that
/// does begins with the line before the first line feed, without the carriage return
/// that stands at its end, and the lines behind it follow.
pub proof fn lines_end_at_line_feeds(a: Seq<char>, b: Seq<char>)
    requires
        !a.contains('\n'),
    ensures
        lines_of(seq![]).len() == 0,
        a.len() > 0 ==> lines_of(a) == seq![a],
        lines_of(a + seq!['\n'] + b) == seq![without_return(a)] + lines_of(b),
        without_return(a.push('\r')) == a,
        a.len() > 0 && a.last() != '\r' ==> without_return(a) == a,
        a.len() == 0 ==> without_return(a) == a,
{
    assert forall|i: int| 0 <= i < a.len() implies a[i] != '\n' by {
        if a[i] == '\n' {
            assert(a.contains('\n'));
        }
    }
    if a.len() > 0 {
        find_unique(a, '\n', a.len() as int);
    }
    let s = a + seq!['\n'] + b;
    assert forall|i: int| 0 <= i < a.len() implies s[i] != '\n' by {
        assert(s[i] == a[i]);
    }
    find_unique(s, '\n', a.len() as int);
    assert(s.take(a.len() as int) =~= a);
    assert(s.skip(a.len() as int + 1) =~= b);
    assert(a.push('\r').drop_last() =~= a);
}

/// Letters without accents come out in lower case, by their place in the
/// alphabet; everything else stays, and nothing changes a second time.
pub proof fn letters_are_lowered(c: char)
    ensures
        'A' <= c <= 'Z' ==> lower(c) as u32 - 'a' as u32 == c as u32 - 'A' as u32,
        !('A' <= c <= 'Z') ==> lower(c) == c,
        lower(lower(c)) == lower(c),
{
}

/// Texts that differ in the case of their letters only are the same in lower
/// case, character by character.
pub proof fn lowered_texts_agree(a: Seq<char>, b: Seq<char>)
    ensures
        lowercase(a) == lowercase(b) <==> a.len() == b.len() && forall|i: int|
            0 <= i < a.len() ==> lower(#[trigger] a[i]) == lower(b[i]),
{
    if a.len() == b.len() && forall|i: int|
        0 <= i < a.len() ==> lower(#[trigger] a[i]) == lower(b[i]) {
        assert(lowercase(a) =~= lowercase(b));
    }
    if lowercase(a) == lowercase(b) {
        assert(lowercase(a).len() == lowercase(b).len());
        assert forall|i: int| 0 <= i < a.len() implies lower(#[trigger] a[i]) == lower(b[i]) by {
            assert(lowercase(a)[i] == lowercase(b)[i]);
        }
    }
}

/// Digits stand for tens: those in front count as often ten-fold as others stand
/// behind them.
pub proof fn digits_count_by_their_place(a: Seq<char>, b: Seq<char>)
    ensures
        digits_value(a + b) == digits_value(a) * pow(10, b.len()) + digits_value(b),
        a.len() == 1 && is_digit(a[0]) ==> digits_value(a) == a[0] as u32 - '0' as u32,
        a.len() == 0 ==> digits_value(a) == 0,
    decreases b.len(),
{
    if b.len() == 0 {
        assert(a + b =~= a);
        reveal(pow);
        assert(digits_value(a) * 1 == digits_value(a)) by (nonlinear_arith);
    } else {
        let before = b.drop_last();
        digits_count_by_their_place(a, before);
        assert((a + b).drop_last() =~= a + before);
        assert((a + b).last() == b.last());
        reveal(pow);
        let p = pow(10, before.len());
        assert(pow(10, b.len()) == 10 * p);
        let x = digits_value(a);
        let y = digits_value(before);
        assert((x * p + y) * 10 == x * (10 * p) + y * 10) by (nonlinear_arith);
    }
    if a.len() == 1 {
        assert(a.drop_last() =~= seq![]);
        assert(digits_value(a.drop_last()) == 0);
    }
}

/// A text stands for a number exactly where it is made of digits, at least one,
/// and the number is not too large. A plus sign before the digits changes nothing.
pub proof fn digits_stand_for_a_number(digits: Seq<char>, max: nat)
    requires
        digits.len() > 0 ==> digits[0] != '+',
    ensures
        number_up_to(digits, max) is Some <==> digits.len() > 0 && digits_value(digits) <= max
            && forall|i: int| 0 <= i < digits.len() ==> is_digit(#[trigger] digits[i]),
        number_up_to(digits, max) matches Some(n) ==> n == digits_value(digits),
        number_up_to(seq!['+'] + digits, max) == number_up_to(digits, max),
{
    assert((seq!['+'] + digits).skip(1) =~= digits);
}

/// The ten digits stand in a row from zero to nine.
pub proof fn ten_characters_are_digits(c: char)
    ensures
        is_digit(c) <==> 0x30 <= c as u32 <= 0x39,
{
}

/// A text that stands for a number stands for it under any limit that the number
/// keeps, and for none under a lower one.
pub proof fn number_is_told_apart(s: Seq<char>, n: nat, max: nat)
    requires
        number_up_to(s, n) == Some(n),
    ensures
        n <= max ==> number_up_to(s, max) == Some(n),
        n > max ==> number_up_to(s, max) is None,
{
}

/// No text stands for a number above the limit.
pub proof fn numbers_stay_below_their_limit(s: Seq<char>, max: nat)
    ensures
        number_up_to(s, max) matches Some(n) ==> n <= max,
{
}

/// A number in digits begins with a digit, and with a zero only where it is zero.
pub proof fn decimal_begins_with_a_digit(n: nat)
    ensures
        decimal_of(n).len() > 0,
        '0' <= decimal_of(n)[0] <= '9',
        decimal_of(n)[0] == '0' <==> n == 0,
    decreases n,
{
    if n >= 10 {
        decimal_begins_with_a_digit(n / 10);
        assert(decimal_of(n)[0] == decimal_of(n / 10)[0]);
    }
}

/// A number with a sign: a minus where it is negative and nothing else, then the
/// digits of its size.
pub proof fn sign_stands_before_the_digits(n: int)
    ensures
        n >= 0 ==> number_up_to(signed_decimal_of(n), n as nat) == Some(n as nat),
        n < 0 ==> signed_decimal_of(n)[0] == '-',
        n < 0 ==> number_up_to(signed_decimal_of(n).skip(1), (-n) as nat) == Some((-n) as nat),
        n >= 0 ==> signed_decimal_of(n)[0] != '-',
{
    if n >= 0 {
        crate::text::decimal_reads_back(n as nat, n as nat);
        decimal_begins_with_a_digit(n as nat);
    } else {
        crate::text::decimal_reads_back((-n) as nat, (-n) as nat);
        assert(signed_decimal_of(n).skip(1) =~= decimal_of((-n) as nat));
    }
}

} // verus!
