//! Text as sequences of characters: lines, trimming, splitting and numbers.
use vstd::prelude::*;

verus! {

/// `String::push`: the character stands at the end of the string afterwards.
pub assume_specification[ String::push ](s: &mut String, c: char)
    ensures
        final(s)@ == old(s)@.push(c),
;

/// The characters that have the Unicode property `White_Space`.
pub open spec fn white_space(c: char) -> bool {
    let n = c as u32;
    ||| 0x9 <= n <= 0xd
    ||| n == 0x20
    ||| n == 0x85
    ||| n == 0xa0
    ||| n == 0x1680
    ||| 0x2000 <= n <= 0x200a
    ||| n == 0x2028
    ||| n == 0x2029
    ||| n == 0x202f
    ||| n == 0x205f
    ||| n == 0x3000
}

/// Whether a character is white space.
pub fn is_white_space(c: char) -> (res: bool)
    ensures
        res == white_space(c),
{
    let n: u32 = c as u32;
    (0x9 <= n && n <= 0xd) || n == 0x20 || n == 0x85 || n == 0xa0 || n == 0x1680 || (0x2000 <= n
        && n <= 0x200a) || n == 0x2028 || n == 0x2029 || n == 0x202f || n == 0x205f || n == 0x3000
}

/// The text without the white space at its start.
pub open spec fn trim_start(s: Seq<char>) -> Seq<char>
    decreases s.len(),
{
    if s.len() > 0 && white_space(s[0]) {
        trim_start(s.skip(1))
    } else {
        s
    }
}

/// The text without the white space at its end.
pub open spec fn trim_end(s: Seq<char>) -> Seq<char>
    decreases s.len(),
{
    if s.len() > 0 && white_space(s.last()) {
        trim_end(s.drop_last())
    } else {
        s
    }
}

/// The text without the white space around it.
pub open spec fn trim(s: Seq<char>) -> Seq<char> {
    trim_end(trim_start(s))
}

/// The place of the first `c`, or the length of the text where there is none.
pub open spec fn find(s: Seq<char>, c: char) -> int
    decreases s.len(),
{
    if s.len() == 0 || s[0] == c {
        0
    } else {
        1 + find(s.skip(1), c)
    }
}

/// The parts of the text before and after the first `c`.
pub open spec fn split_once(s: Seq<char>, c: char) -> Option<(Seq<char>, Seq<char>)> {
    if find(s, c) < s.len() {
        Some((s.take(find(s, c)), s.skip(find(s, c) + 1)))
    } else {
        None
    }
}

/// A line without the carriage return that stands before its line feed.
pub open spec fn without_return(line: Seq<char>) -> Seq<char> {
    if line.len() > 0 && line.last() == '\r' {
        line.drop_last()
    } else {
        line
    }
}

/// The lines of a text. Each ends with a line feed, which may follow a carriage
/// return; the last may go without.
pub open spec fn lines_of(s: Seq<char>) -> Seq<Seq<char>>
    decreases s.len(),
    via lines_of_decreases
{
    if s.len() == 0 {
        seq![]
    } else if find(s, '\n') < s.len() {
        seq![without_return(s.take(find(s, '\n')))] + lines_of(s.skip(find(s, '\n') + 1))
    } else {
        seq![s]
    }
}

#[via_fn]
proof fn lines_of_decreases(s: Seq<char>) {
    find_range(s, '\n');
}

/// The first `c` is one, and none stands before it.
pub proof fn find_range(s: Seq<char>, c: char)
    ensures
        0 <= find(s, c) <= s.len(),
        find(s, c) < s.len() ==> s[find(s, c)] == c,
        forall|i: int| 0 <= i < find(s, c) ==> s[i] != c,
    decreases s.len(),
{
    if s.len() > 0 && s[0] != c {
        find_range(s.skip(1), c);
        assert forall|i: int| 0 <= i < find(s, c) implies s[i] != c by {
            if i > 0 {
                assert(s[i] == s.skip(1)[i - 1]);
            }
        }
    }
}

/// A place before which no `c` stands, and at which one stands or the text
/// ends, is the first.
pub proof fn find_unique(s: Seq<char>, c: char, at: int)
    requires
        0 <= at <= s.len(),
        forall|i: int| 0 <= i < at ==> s[i] != c,
        at < s.len() ==> s[at] == c,
    ensures
        find(s, c) == at,
{
    find_range(s, c);
    if find(s, c) < at {
        assert(s[find(s, c)] != c);
    } else if find(s, c) > at {
        assert(s[at] != c);
    }
}

/// Text that ends with a line feed has its lines before those of what follows.
pub proof fn lines_of_concat(a: Seq<char>, b: Seq<char>)
    requires
        a.len() > 0,
        a.last() == '\n',
    ensures
        lines_of(a + b) == lines_of(a) + lines_of(b),
    decreases a.len(),
{
    let at = find(a, '\n');
    find_range(a, '\n');
    if at == a.len() {
        assert(a[a.len() - 1] != '\n');
    }
    find_unique(a + b, '\n', at);
    assert((a + b).take(at) =~= a.take(at));
    assert((a + b).skip(at + 1) =~= a.skip(at + 1) + b);
    if at + 1 == a.len() {
        assert(a.skip(at + 1) =~= seq![]);
        assert(a.skip(at + 1) + b =~= b);
        assert(lines_of(a.skip(at + 1)) =~= seq![]);
        assert(lines_of(a + b) =~= lines_of(a) + lines_of(b));
    } else {
        assert(a.skip(at + 1).last() == '\n');
        lines_of_concat(a.skip(at + 1), b);
        assert(lines_of(a + b) =~= lines_of(a) + lines_of(b));
    }
}

/// The characters of a string.
pub fn chars_of(s: &str) -> (res: Vec<char>)
    ensures
        res@ == s@,
{
    let mut res: Vec<char> = Vec::new();
    for c in it: s.chars()
        invariant
            res@ == s@.take(it.index()),
            it.seq() == s@,
    {
        proof {
            assert(s@.take(it.index() + 1) =~= s@.take(it.index()).push(c));
        }
        res.push(c);
    }
    proof {
        assert(s@.take(s@.len() as int) =~= s@);
    }
    res
}

/// The string of some characters.
pub fn string_of(chars: &Vec<char>) -> (res: String)
    ensures
        res@ == chars@,
{
    let mut res: String = String::new();
    let n: usize = chars.len();
    for i in 0..n
        invariant
            n == chars.len(),
            res@ == chars@.take(i as int),
    {
        proof {
            assert(chars@.take(i + 1) =~= chars@.take(i as int).push(chars[i as int]));
        }
        res.push(chars[i]);
    }
    proof {
        assert(chars@.take(n as int) =~= chars@);
    }
    res
}

/// Puts characters at the end of others.
pub fn extend(target: &mut Vec<char>, more: &Vec<char>)
    ensures
        final(target)@ == old(target)@ + more@,
{
    let ghost before = target@;
    let n: usize = more.len();
    for i in 0..n
        invariant
            n == more.len(),
            target@ == before + more@.take(i as int),
    {
        proof {
            assert(more@.take(i + 1) =~= more@.take(i as int).push(more[i as int]));
        }
        target.push(more[i]);
    }
    proof {
        assert(more@.take(n as int) =~= more@);
    }
}

/// Part of a text.
pub fn part(s: &Vec<char>, from: usize, to: usize) -> (res: Vec<char>)
    requires
        from <= to <= s.len(),
    ensures
        res@ == s@.subrange(from as int, to as int),
{
    let mut res: Vec<char> = Vec::new();
    let mut i: usize = from;
    while i < to
        invariant
            from <= i <= to <= s.len(),
            res@ == s@.subrange(from as int, i as int),
        decreases to - i,
    {
        proof {
            assert(s@.subrange(from as int, i + 1) =~= s@.subrange(from as int, i as int).push(
                s[i as int],
            ));
        }
        res.push(s[i]);
        i = i + 1;
    }
    res
}

/// Whether two texts are the same.
pub fn same(a: &Vec<char>, b: &Vec<char>) -> (res: bool)
    ensures
        res == (a@ == b@),
{
    if a.len() != b.len() {
        return false;
    }
    let n: usize = a.len();
    for i in 0..n
        invariant
            n == a.len() == b.len(),
            forall|j: int| 0 <= j < i ==> a[j] == b[j],
    {
        if a[i] != b[i] {
            return false;
        }
    }
    proof {
        assert(a@ =~= b@);
    }
    true
}

/// Whether a text is the given string.
pub fn is_str(a: &Vec<char>, s: &str) -> (res: bool)
    ensures
        res == (a@ == s@),
{
    let b: Vec<char> = chars_of(s);
    same(a, &b)
}

proof fn trim_start_at(s: Seq<char>, at: int)
    requires
        0 <= at <= s.len(),
        forall|i: int| 0 <= i < at ==> white_space(#[trigger] s[i]),
        at < s.len() ==> !white_space(s[at]),
    ensures
        trim_start(s) == s.skip(at),
    decreases at,
{
    if at > 0 {
        assert(white_space(s[0]));
        assert forall|i: int| 0 <= i < at - 1 implies white_space(#[trigger] s.skip(1)[i]) by {
            assert(s.skip(1)[i] == s[i + 1]);
        }
        trim_start_at(s.skip(1), at - 1);
        assert(s.skip(1).skip(at - 1) =~= s.skip(at));
    } else {
        assert(s.skip(0) =~= s);
    }
}

proof fn trim_end_at(s: Seq<char>, at: int)
    requires
        0 <= at <= s.len(),
        forall|i: int| at <= i < s.len() ==> white_space(#[trigger] s[i]),
        at > 0 ==> !white_space(s[at - 1]),
    ensures
        trim_end(s) == s.take(at),
    decreases s.len(),
{
    if at < s.len() {
        assert(white_space(s[s.len() - 1]));
        trim_end_at(s.drop_last(), at);
        assert(s.drop_last().take(at) =~= s.take(at));
    } else {
        assert(s.take(at) =~= s);
    }
}

/// The text without the white space around it.
pub fn trimmed(s: &Vec<char>) -> (res: Vec<char>)
    ensures
        res@ == trim(s@),
{
    let n: usize = s.len();
    let mut from: usize = 0;
    while from < n && is_white_space(s[from])
        invariant
            n == s.len(),
            from <= n,
            forall|i: int| 0 <= i < from ==> white_space(#[trigger] s[i]),
        decreases n - from,
    {
        from = from + 1;
    }
    proof {
        trim_start_at(s@, from as int);
    }
    let mut to: usize = n;
    while to > from && is_white_space(s[to - 1])
        invariant
            n == s.len(),
            from <= to <= n,
            forall|i: int| to <= i < n ==> white_space(#[trigger] s[i]),
        decreases to,
    {
        to = to - 1;
    }
    proof {
        assert forall|i: int| to - from <= i < n - from implies white_space(
            #[trigger] s@.skip(from as int)[i],
        ) by {
            assert(s@.skip(from as int)[i] == s[i + from]);
        }
        trim_end_at(s@.skip(from as int), to - from);
        assert(s@.skip(from as int).take(to - from) =~= s@.subrange(from as int, to as int));
    }
    part(s, from, to)
}

/// The place of the first `c` from a place on, or the length of the text.
pub fn position_from(s: &Vec<char>, c: char, from: usize) -> (res: usize)
    requires
        from <= s.len(),
    ensures
        from <= res <= s.len(),
        res - from == find(s@.skip(from as int), c),
{
    let n: usize = s.len();
    let mut at: usize = from;
    while at < n && s[at] != c
        invariant
            n == s.len(),
            from <= at <= n,
            forall|i: int| from <= i < at ==> s[i] != c,
        decreases n - at,
    {
        at = at + 1;
    }
    proof {
        let rest = s@.skip(from as int);
        assert forall|i: int| 0 <= i < at - from implies rest[i] != c by {
            assert(rest[i] == s[i + from]);
        }
        find_unique(rest, c, at - from);
    }
    at
}

/// The parts of the text before and after the first `c`.
pub fn split_at_first(s: &Vec<char>, c: char) -> (res: Option<(Vec<char>, Vec<char>)>)
    ensures
        match res {
            Some(parts) => split_once(s@, c) == Some((parts.0@, parts.1@)),
            None => split_once(s@, c) is None,
        },
{
    let at: usize = position_from(s, c, 0);
    proof {
        assert(s@.skip(0) =~= s@);
    }
    if at < s.len() {
        proof {
            assert(s@.take(at as int) =~= s@.subrange(0, at as int));
            assert(s@.skip(at + 1) =~= s@.subrange(at + 1, s.len() as int));
        }
        Some((part(s, 0, at), part(s, at + 1, s.len())))
    } else {
        None
    }
}

/// The lines of a text.
pub open spec fn line_views(lines: Seq<Vec<char>>) -> Seq<Seq<char>> {
    lines.map_values(|line: Vec<char>| line@)
}

/// The lines of a text.
pub fn lines(s: &Vec<char>) -> (res: Vec<Vec<char>>)
    ensures
        line_views(res@) == lines_of(s@),
{
    let mut res: Vec<Vec<char>> = Vec::new();
    let n: usize = s.len();
    let mut from: usize = 0;
    proof {
        assert(s@.skip(0) =~= s@);
        assert(line_views(res@) + lines_of(s@) =~= lines_of(s@));
    }
    while from < n
        invariant
            n == s.len(),
            from <= n,
            line_views(res@) + lines_of(s@.skip(from as int)) == lines_of(s@),
        decreases n - from,
    {
        let ghost rest = s@.skip(from as int);
        let at: usize = position_from(s, '\n', from);
        proof {
            find_range(rest, '\n');
        }
        let ghost before = res@;
        if at < n {
            let mut to: usize = at;
            if to > from && s[to - 1] == '\r' {
                to = to - 1;
            }
            proof {
                let taken = rest.take(at - from);
                assert(taken =~= s@.subrange(from as int, at as int));
                if at > from {
                    assert(taken.last() == s[at - 1]);
                    assert(taken.drop_last() =~= s@.subrange(from as int, at - 1));
                }
                assert(rest.skip(at - from + 1) =~= s@.skip(at + 1));
            }
            let line: Vec<char> = part(s, from, to);
            let ghost text = line@;
            res.push(line);
            from = at + 1;
            proof {
                assert(line_views(res@) =~= line_views(before).push(text));
                assert(line_views(before) + (seq![text] + lines_of(s@.skip(from as int)))
                    =~= line_views(res@) + lines_of(s@.skip(from as int)));
            }
        } else {
            proof {
                assert(rest =~= s@.subrange(from as int, n as int));
            }
            let line: Vec<char> = part(s, from, n);
            let ghost text = line@;
            res.push(line);
            from = n;
            proof {
                assert(line_views(res@) =~= line_views(before).push(text));
                assert(s@.skip(n as int) =~= seq![]);
                assert(line_views(before) + seq![text] =~= line_views(res@) + lines_of(
                    s@.skip(n as int),
                ));
            }
        }
    }
    proof {
        assert(s@.skip(n as int) =~= seq![]);
        assert(line_views(res@) + lines_of(s@.skip(n as int)) =~= line_views(res@));
    }
    res
}

/// The lower case of an ASCII letter; any other character is left alone.
pub open spec fn lower(c: char) -> char {
    if 'A' <= c <= 'Z' {
        ((c as u32 + 32) as u32) as char
    } else {
        c
    }
}

/// The text with its ASCII letters in lower case.
pub open spec fn lowercase(s: Seq<char>) -> Seq<char> {
    s.map_values(|c: char| lower(c))
}

fn to_lower(c: char) -> (res: char)
    ensures
        res == lower(c),
{
    if 'A' <= c && c <= 'Z' {
        ((c as u8) + 32) as char
    } else {
        c
    }
}

/// The text with its ASCII letters in lower case.
pub fn lowercased(s: &Vec<char>) -> (res: Vec<char>)
    ensures
        res@ == lowercase(s@),
{
    let mut res: Vec<char> = Vec::new();
    let n: usize = s.len();
    for i in 0..n
        invariant
            n == s.len(),
            res.len() == i,
            forall|j: int| 0 <= j < i ==> res[j] == lower(#[trigger] s[j]),
    {
        let c: char = to_lower(s[i]);
        res.push(c);
    }
    proof {
        assert(res@ =~= lowercase(s@));
    }
    res
}

/// Whether a character is a decimal digit.
pub open spec fn is_digit(c: char) -> bool {
    '0' <= c <= '9'
}

/// The number that decimal digits stand for.
pub open spec fn digits_value(s: Seq<char>) -> nat
    decreases s.len(),
{
    if s.len() == 0 {
        0
    } else {
        digits_value(s.drop_last()) * 10 + (s.last() as u32 - '0' as u32) as nat
    }
}

/// The digits of a number, after the plus sign that may stand before them.
pub open spec fn unsigned_digits(s: Seq<char>) -> Seq<char> {
    if s.len() > 0 && s[0] == '+' {
        s.skip(1)
    } else {
        s
    }
}

/// The number up to `max` that a text stands for: digits, after a plus sign
/// that may be left out.
pub open spec fn number_up_to(s: Seq<char>, max: nat) -> Option<nat> {
    let digits = unsigned_digits(s);
    if digits.len() > 0 && (forall|i: int|
        0 <= i < digits.len() ==> is_digit(#[trigger] digits[i])) && digits_value(digits) <= max {
        Some(digits_value(digits))
    } else {
        None
    }
}

proof fn digits_value_grows(s: Seq<char>, at: int)
    requires
        0 <= at <= s.len(),
    ensures
        digits_value(s.take(at)) <= digits_value(s),
    decreases s.len(),
{
    if at == s.len() {
        assert(s.take(at) =~= s);
    } else {
        digits_value_grows(s.drop_last(), at);
        assert(s.drop_last().take(at) =~= s.take(at));
    }
}

/// The number up to `max` that a text stands for.
pub fn parse_number(s: &Vec<char>, max: u64) -> (res: Option<u64>)
    ensures
        match res {
            Some(v) => number_up_to(s@, max as nat) == Some(v as nat),
            None => number_up_to(s@, max as nat) is None,
        },
{
    let from: usize = if s.len() > 0 && s[0] == '+' {
        1
    } else {
        0
    };
    let n: usize = s.len();
    let ghost digits = unsigned_digits(s@);
    proof {
        assert(s@.skip(0) =~= s@);
        assert(digits =~= s@.skip(from as int));
    }
    if from == n {
        return None;
    }
    let mut value: u64 = 0;
    let mut i: usize = from;
    while i < n
        invariant
            n == s.len(),
            from <= i <= n,
            digits == s@.skip(from as int),
            digits == unsigned_digits(s@),
            forall|j: int| 0 <= j < i - from ==> is_digit(#[trigger] digits[j]),
            value == digits_value(digits.take(i - from)),
            value <= max,
        decreases n - i,
    {
        let c: char = s[i];
        proof {
            assert(digits[i - from] == c);
            assert(digits.take(i - from + 1).drop_last() =~= digits.take(i - from));
            digits_value_grows(digits, i - from + 1);
        }
        if c < '0' || c > '9' {
            return None;
        }
        let digit: u64 = (c as u64) - ('0' as u64);
        let wide: u128 = (value as u128) * 10 + digit as u128;
        if wide > max as u128 {
            return None;
        }
        value = wide as u64;
        i = i + 1;
    }
    proof {
        assert(digits.take(n - from) =~= digits);
    }
    Some(value)
}

/// The digit of a number below sixteen.
pub open spec fn digit_of(n: int) -> char {
    if n < 10 {
        ('0' as u32 + n) as char
    } else {
        ('a' as u32 + (n - 10)) as char
    }
}

fn digit(n: u8) -> (res: char)
    requires
        n < 16,
    ensures
        res == digit_of(n as int),
{
    if n < 10 {
        (48 + n) as char
    } else {
        (87 + n) as char
    }
}

/// A number in decimal digits, without leading zeros.
pub open spec fn decimal_of(n: nat) -> Seq<char>
    decreases n,
{
    if n < 10 {
        seq![digit_of(n as int)]
    } else {
        decimal_of(n / 10).push(digit_of((n % 10) as int))
    }
}

/// A number in decimal digits.
pub fn decimal(n: u64) -> (res: Vec<char>)
    ensures
        res@ == decimal_of(n as nat),
    decreases n,
{
    if n < 10 {
        let mut res: Vec<char> = Vec::new();
        res.push(digit(n as u8));
        proof {
            assert(res@ =~= decimal_of(n as nat));
        }
        res
    } else {
        let mut res: Vec<char> = decimal(n / 10);
        res.push(digit((n % 10) as u8));
        res
    }
}

/// A number in decimal digits, after a minus sign where it is negative.
pub open spec fn signed_decimal_of(n: int) -> Seq<char> {
    if n < 0 {
        seq!['-'] + decimal_of((-n) as nat)
    } else {
        decimal_of(n as nat)
    }
}

/// A number in decimal digits, after a minus sign where it is negative.
pub fn signed_decimal(n: i64) -> (res: Vec<char>)
    ensures
        res@ == signed_decimal_of(n as int),
{
    if n < 0 {
        let mut res: Vec<char> = Vec::new();
        res.push('-');
        let size: u64 = (-(n as i128)) as u64;
        extend(&mut res, &decimal(size));
        proof {
            assert(res@ =~= signed_decimal_of(n as int));
        }
        res
    } else {
        decimal(n as u64)
    }
}

/// The decimal digits of a number stand for that number.
pub proof fn decimal_reads_back(n: nat, max: nat)
    requires
        n <= max,
    ensures
        number_up_to(decimal_of(n), max) == Some(n),
{
    decimal_digits(n);
    assert(decimal_of(n)[0] != '+') by {
        assert(is_digit(decimal_of(n)[0]));
    }
}

proof fn decimal_digits(n: nat)
    ensures
        decimal_of(n).len() > 0,
        forall|i: int| 0 <= i < decimal_of(n).len() ==> is_digit(#[trigger] decimal_of(n)[i]),
        digits_value(decimal_of(n)) == n,
    decreases n,
{
    let d = decimal_of(n);
    if n < 10 {
        assert(d.drop_last() =~= seq![]);
        assert(digits_value(d.drop_last()) == 0);
    } else {
        decimal_digits(n / 10);
        assert(d.drop_last() =~= decimal_of(n / 10));
        assert forall|i: int| 0 <= i < d.len() implies is_digit(#[trigger] d[i]) by {
            if i < decimal_of(n / 10).len() {
                assert(d[i] == decimal_of(n / 10)[i]);
            }
        }
    }
}

/// The lowest hexadecimal digits of a number.
pub open spec fn hex_of(n: nat, digits: nat) -> Seq<char>
    decreases digits,
{
    if digits == 0 {
        seq![]
    } else {
        hex_of(n / 16, (digits - 1) as nat).push(digit_of((n % 16) as int))
    }
}

/// The lowest hexadecimal digits of a number.
pub fn hex(n: u64, digits: u32) -> (res: Vec<char>)
    ensures
        res@ == hex_of(n as nat, digits as nat),
    decreases digits,
{
    if digits == 0 {
        Vec::new()
    } else {
        let mut res: Vec<char> = hex(n / 16, digits - 1);
        res.push(digit((n % 16) as u8));
        res
    }
}

/// Numbers of sixteen hexadecimal digits are told apart by them.
pub proof fn hex_tells_apart(a: u64, b: u64)
    requires
        hex_of(a as nat, 16) == hex_of(b as nat, 16),
    ensures
        a == b,
{
    assert(power16(16) == 0x1_0000_0000_0000_0000) by {
        reveal_with_fuel(power16, 17);
    }
    hex_injective(a as nat, b as nat, 16);
}

spec fn power16(k: nat) -> nat
    decreases k,
{
    if k == 0 {
        1
    } else {
        16 * power16((k - 1) as nat)
    }
}

proof fn hex_injective(a: nat, b: nat, digits: nat)
    requires
        hex_of(a, digits) == hex_of(b, digits),
        a < power16(digits),
        b < power16(digits),
    ensures
        a == b,
    decreases digits,
{
    if digits > 0 {
        let k = (digits - 1) as nat;
        let x = hex_of(a, digits);
        let y = hex_of(b, digits);
        assert(x.drop_last() =~= hex_of(a / 16, k));
        assert(y.drop_last() =~= hex_of(b / 16, k));
        hex_injective(a / 16, b / 16, k);
        assert(x.last() == y.last());
        assert(a % 16 == b % 16);
    }
}

} // verus!
