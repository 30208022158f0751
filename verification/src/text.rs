//! Text building blocks: numbers in decimal, trimming, substitution and number parsing, each
//! stated over the characters of a string.

use vstd::prelude::*;
use vstd::string::*;

verus! {

/// `String::push`: appends the character to the end of the string.
pub assume_specification[ String::push ](s: &mut String, c: char)
    ensures
        final(s)@ == old(s)@.push(c),
;

/// The decimal digit that stands for `d`, for `d` below ten.
pub open spec fn digit_char(d: nat) -> char {
    ('0' as nat + d) as char
}

/// `n` in decimal, without leading zeros.
pub open spec fn decimal(n: nat) -> Seq<char>
    decreases n,
{
    if n < 10 {
        seq![digit_char(n)]
    } else {
        decimal(n / 10).push(digit_char(n % 10))
    }
}

/// `n` in decimal, with a minus sign in front when it is negative.
pub open spec fn signed_decimal(n: int) -> Seq<char> {
    if n < 0 {
        seq!['-'] + decimal((-n) as nat)
    } else {
        decimal(n as nat)
    }
}

/// The lower-case hexadecimal digit that stands for `d`, for `d` below sixteen.
pub open spec fn hex_char(d: nat) -> char {
    if d < 10 {
        digit_char(d)
    } else {
        ('a' as nat + (d - 10)) as char
    }
}

/// `n` in lower-case hexadecimal, without leading zeros.
pub open spec fn hexadecimal(n: nat) -> Seq<char>
    decreases n,
{
    if n < 16 {
        seq![hex_char(n)]
    } else {
        hexadecimal(n / 16).push(hex_char(n % 16))
    }
}

/// Whether `c` has the Unicode property White_Space.
pub open spec fn is_white_space(c: char) -> bool {
    ||| '\u{9}' <= c <= '\u{d}'
    ||| c == ' '
    ||| c == '\u{85}'
    ||| c == '\u{a0}'
    ||| c == '\u{1680}'
    ||| '\u{2000}' <= c <= '\u{200a}'
    ||| c == '\u{2028}'
    ||| c == '\u{2029}'
    ||| c == '\u{202f}'
    ||| c == '\u{205f}'
    ||| c == '\u{3000}'
}

/// `s` without the white space at either end.
pub open spec fn trimmed(s: Seq<char>) -> Seq<char>
    decreases s.len(),
{
    if s.len() > 0 && is_white_space(s.first()) {
        trimmed(s.drop_first())
    } else if s.len() > 0 && is_white_space(s.last()) {
        trimmed(s.drop_last())
    } else {
        s
    }
}

/// `s` with every occurrence of `mark` replaced by `with`, from left to right.
pub open spec fn substituted(s: Seq<char>, mark: Seq<char>, with: Seq<char>) -> Seq<char>
    decreases s.len(),
{
    if mark.len() == 0 || s.len() < mark.len() {
        s
    } else if s.take(mark.len() as int) == mark {
        with + substituted(s.skip(mark.len() as int), mark, with)
    } else {
        seq![s[0]] + substituted(s.skip(1), mark, with)
    }
}

/// Whether `c` is a decimal digit.
pub open spec fn is_digit(c: char) -> bool {
    '0' <= c <= '9'
}

/// Whether a text is made of decimal digits alone.
pub open spec fn all_digits(s: Seq<char>) -> bool {
    forall|i: int| 0 <= i < s.len() ==> is_digit(#[trigger] s[i])
}

/// The number that a sequence of decimal digits denotes.
pub open spec fn digits_value(s: Seq<char>) -> nat
    decreases s.len(),
{
    if s.len() == 0 {
        0
    } else {
        digits_value(s.drop_last()) * 10 + (s.last() as nat - '0' as nat) as nat
    }
}

/// The digits of a number with an optional plus sign in front.
pub open spec fn unsigned_digits(s: Seq<char>) -> Seq<char> {
    if s.len() > 0 && s[0] == '+' {
        s.skip(1)
    } else {
        s
    }
}

/// The unsigned 64-bit number that a text denotes: an optional plus sign and at least one decimal
/// digit, nothing else, and no more than 64 bits.
pub open spec fn unsigned_value(s: Seq<char>) -> Option<u64> {
    let digits = unsigned_digits(s);
    if digits.len() > 0 && all_digits(digits) && digits_value(digits) <= u64::MAX {
        Some(digits_value(digits) as u64)
    } else {
        None
    }
}

/// The characters of `s`, in order.
pub fn chars_of(s: &str) -> (out: Vec<char>)
    ensures
        out@ == s@,
{
    let mut out: Vec<char> = Vec::new();
    for c in iter: s.chars()
        invariant
            iter.seq() == s@,
            out@ == s@.take(iter.index()),
    {
        out.push(c);
        assert(s@.take(iter.index() + 1) =~= s@.take(iter.index()).push(c));
    }
    assert(s@.take(s@.len() as int) =~= s@);
    out
}

/// The characters of a text, if there is one.
pub open spec fn opt_text(s: Option<&str>) -> Option<Seq<char>> {
    match s {
        Some(s) => Some(s@),
        None => None,
    }
}

/// Whether two texts hold the same characters.
pub fn same_text(a: &str, b: &str) -> (same: bool)
    ensures
        same == (a@ == b@),
{
    a.to_owned() == b.to_owned()
}

fn digit(d: u64) -> (c: char)
    requires
        d < 10,
    ensures
        c == digit_char(d as nat),
{
    match d {
        0 => '0',
        1 => '1',
        2 => '2',
        3 => '3',
        4 => '4',
        5 => '5',
        6 => '6',
        7 => '7',
        8 => '8',
        _ => '9',
    }
}

/// Appends `n` in decimal.
pub fn push_decimal(out: &mut String, n: u64)
    ensures
        final(out)@ == old(out)@ + decimal(n as nat),
    decreases n,
{
    if n >= 10 {
        push_decimal(out, n / 10);
    }
    out.push(digit(n % 10));
    assert(out@ =~= old(out)@ + decimal(n as nat));
}

/// Appends `n` in decimal, with a minus sign in front when it is negative.
pub fn push_signed_decimal(out: &mut String, n: i32)
    ensures
        final(out)@ == old(out)@ + signed_decimal(n as int),
{
    if n < 0 {
        out.push('-');
        let magnitude: i64 = -(n as i64);
        push_decimal(out, magnitude as u64);
        assert(out@ =~= old(out)@ + signed_decimal(n as int));
    } else {
        push_decimal(out, n as u64);
    }
}

/// Appends `n` in lower-case hexadecimal.
pub fn push_hexadecimal(out: &mut String, n: u32)
    ensures
        final(out)@ == old(out)@ + hexadecimal(n as nat),
    decreases n,
{
    if n >= 16 {
        push_hexadecimal(out, n / 16);
    }
    let low: u32 = n % 16;
    if low < 10 {
        out.push(digit(low as u64));
    } else {
        out.push(
            match low {
                10 => 'a',
                11 => 'b',
                12 => 'c',
                13 => 'd',
                14 => 'e',
                _ => 'f',
            },
        );
    }
    assert(out@ =~= old(out)@ + hexadecimal(n as nat));
}

/// Appends the characters from `from` up to `to`.
fn push_chars(out: &mut String, chars: &Vec<char>, from: usize, to: usize)
    requires
        from <= to <= chars@.len(),
    ensures
        final(out)@ == old(out)@ + chars@.subrange(from as int, to as int),
{
    let mut i: usize = from;
    assert(out@ =~= old(out)@ + chars@.subrange(from as int, from as int));
    while i < to
        invariant
            from <= i <= to <= chars@.len(),
            out@ == old(out)@ + chars@.subrange(from as int, i as int),
        decreases to - i,
    {
        out.push(chars[i]);
        assert(chars@.subrange(from as int, i + 1) =~= chars@.subrange(from as int, i as int).push(chars@[i as int]));
        assert(out@ =~= old(out)@ + chars@.subrange(from as int, i + 1));
        i += 1;
    }
}

/// Whether `c` has the Unicode property White_Space.
pub fn white_space(c: char) -> (white: bool)
    ensures
        white == is_white_space(c),
{
    ('\u{9}' <= c && c <= '\u{d}') || c == ' ' || c == '\u{85}' || c == '\u{a0}' || c == '\u{1680}'
        || ('\u{2000}' <= c && c <= '\u{200a}') || c == '\u{2028}' || c == '\u{2029}' || c == '\u{202f}'
        || c == '\u{205f}' || c == '\u{3000}'
}

/// The text without the white space at either end.
pub fn trim_text(s: &str) -> (out: String)
    ensures
        out@ == trimmed(s@),
{
    let chars = chars_of(s);
    let mut from: usize = 0;
    let mut to: usize = chars.len();
    assert(chars@.subrange(0, to as int) =~= chars@);
    while from < to && white_space(chars[from])
        invariant
            from <= to == chars@.len(),
            trimmed(chars@) == trimmed(chars@.subrange(from as int, to as int)),
        decreases to - from,
    {
        assert(chars@.subrange(from as int, to as int).drop_first() =~= chars@.subrange(from + 1, to as int));
        from += 1;
    }
    while from < to && white_space(chars[to - 1])
        invariant
            from <= to <= chars@.len(),
            from < to ==> !is_white_space(chars@[from as int]),
            trimmed(chars@) == trimmed(chars@.subrange(from as int, to as int)),
        decreases to - from,
    {
        assert(chars@.subrange(from as int, to as int).drop_last() =~= chars@.subrange(from as int, to - 1));
        to -= 1;
    }
    let mut out = String::new();
    push_chars(&mut out, &chars, from, to);
    assert(out@ =~= chars@.subrange(from as int, to as int));
    out
}

/// Whether `mark` stands in `chars` at position `at`.
fn stands_at(chars: &Vec<char>, at: usize, mark: &Vec<char>) -> (found: bool)
    requires
        at + mark@.len() <= chars@.len(),
    ensures
        found == (chars@.subrange(at as int, at + mark@.len()) == mark@),
{
    let mut i: usize = 0;
    let total: usize = chars.len();
    while i < mark.len()
        invariant
            i <= mark@.len(),
            total == chars@.len(),
            at + mark@.len() <= total,
            forall|j: int| 0 <= j < i ==> chars@[at + j] == mark@[j],
        decreases mark@.len() - i,
    {
        if chars[at + i] != mark[i] {
            assert(chars@.subrange(at as int, at + mark@.len())[i as int] != mark@[i as int]);
            return false;
        }
        i += 1;
    }
    assert(chars@.subrange(at as int, at + mark@.len()) =~= mark@);
    true
}

/// The text with every occurrence of `mark` replaced by `with`, from left to right.
pub fn substitute(s: &str, mark: &str, with: &str) -> (out: String)
    requires
        mark@.len() > 0,
    ensures
        out@ == substituted(s@, mark@, with@),
{
    let chars = chars_of(s);
    let pattern = chars_of(mark);
    let mut out = String::new();
    let mut at: usize = 0;
    assert(chars@.skip(0) =~= chars@);
    assert(out@ + substituted(chars@, mark@, with@) =~= substituted(chars@, mark@, with@));
    while chars.len() - at >= pattern.len()
        invariant
            at <= chars@.len(),
            pattern@ == mark@,
            mark@.len() > 0,
            substituted(chars@, mark@, with@) == out@ + substituted(chars@.skip(at as int), mark@, with@),
        decreases chars@.len() - at,
    {
        let ghost rest = chars@.skip(at as int);
        assert(rest.take(mark@.len() as int) =~= chars@.subrange(at as int, at + mark@.len()));
        if stands_at(&chars, at, &pattern) {
            assert(rest.skip(mark@.len() as int) =~= chars@.skip(at + mark@.len()));
            let ghost before = out@;
            out.append(with);
            proof {
                let tail = substituted(chars@.skip(at + mark@.len()), mark@, with@);
                assert(before + (with@ + tail) =~= (before + with@) + tail);
            }
            at += pattern.len();
        } else {
            assert(rest.skip(1) =~= chars@.skip(at + 1));
            let ghost before = out@;
            out.push(chars[at]);
            proof {
                let tail = substituted(chars@.skip(at + 1), mark@, with@);
                assert(before + (seq![rest[0]] + tail) =~= before.push(rest[0]) + tail);
            }
            at += 1;
        }
    }
    push_chars(&mut out, &chars, at, chars.len());
    assert(chars@.subrange(at as int, chars@.len() as int) =~= chars@.skip(at as int));
    out
}

proof fn lemma_digits_value_grows(s: Seq<char>, from: int)
    requires
        0 <= from <= s.len(),
    ensures
        digits_value(s) >= digits_value(s.take(from)),
    decreases s.len() - from,
{
    if from < s.len() {
        lemma_digits_value_grows(s, from + 1);
        assert(s.take(from + 1).drop_last() =~= s.take(from));
    } else {
        assert(s.take(from) =~= s);
    }
}

/// The number that the decimal digits from `start` on denote, if they are digits and it has no
/// more than 64 bits.
fn digits_from(chars: &Vec<char>, start: usize) -> (value: Option<u64>)
    requires
        start <= chars@.len(),
    ensures
        ({
            let digits = chars@.skip(start as int);
            value == if all_digits(digits) && digits_value(digits) <= u64::MAX {
                Some(digits_value(digits) as u64)
            } else {
                None::<u64>
            }
        }),
{
    let ghost digits = chars@.skip(start as int);
    let mut value: u64 = 0;
    let mut i: usize = start;
    assert(digits.take(0) =~= Seq::<char>::empty());
    while i < chars.len()
        invariant
            start <= i <= chars@.len(),
            digits == chars@.skip(start as int),
            forall|j: int| 0 <= j < i - start ==> is_digit(#[trigger] digits[j]),
            value == digits_value(digits.take(i - start)),
        decreases chars@.len() - i,
    {
        let c = chars[i];
        assert(digits[i - start] == c);
        if !('0' <= c && c <= '9') {
            return None;
        }
        proof {
            assert(digits.take(i + 1 - start).drop_last() =~= digits.take(i - start));
            lemma_digits_value_grows(digits, i + 1 - start);
        }
        let d: u64 = (c as u32 - '0' as u32) as u64;
        if value > (u64::MAX - d) / 10 {
            return None;
        }
        value = value * 10 + d;
        i += 1;
    }
    assert(digits.take(i - start) =~= digits);
    Some(value)
}

/// The unsigned 64-bit number that a text denotes.
pub fn parse_unsigned(s: &str) -> (value: Option<u64>)
    ensures
        value == unsigned_value(s@),
{
    let chars = chars_of(s);
    let start: usize = if chars.len() > 0 && chars[0] == '+' {
        1
    } else {
        0
    };
    assert(unsigned_digits(s@) =~= chars@.skip(start as int));
    if start == chars.len() {
        return None;
    }
    digits_from(&chars, start)
}

/// Whether `mark` stands in `s` at position `k`.
pub open spec fn occurs_at(s: Seq<char>, mark: Seq<char>, k: int) -> bool {
    0 <= k && k + mark.len() <= s.len() && s.subrange(k, k + mark.len()) == mark
}

/// A text in which the mark does not stand stays as it is.
pub proof fn law_text_without_the_mark_stays(s: Seq<char>, mark: Seq<char>, with: Seq<char>)
    requires
        mark.len() > 0,
        forall|k: int| 0 <= k <= s.len() ==> !#[trigger] occurs_at(s, mark, k),
    ensures
        substituted(s, mark, with) == s,
    decreases s.len(),
{
    if s.len() >= mark.len() {
        assert(s.take(mark.len() as int) =~= s.subrange(0, mark.len() as int));
        assert(!occurs_at(s, mark, 0));
        let rest = s.skip(1);
        assert forall|k: int| 0 <= k <= rest.len() implies !#[trigger] occurs_at(rest, mark, k) by {
            if occurs_at(rest, mark, k) {
                assert(rest.subrange(k, k + mark.len()) =~= s.subrange(k + 1, k + 1 + mark.len()));
                assert(occurs_at(s, mark, k + 1));
            }
        }
        law_text_without_the_mark_stays(rest, mark, with);
        assert(seq![s[0]] + rest =~= s);
    }
}

/// Where the mark stands first at position `at`, the text before it stays, the mark gives way, and
/// the text behind it is gone through in the same way.
pub proof fn law_first_place_is_filled(s: Seq<char>, mark: Seq<char>, with: Seq<char>, at: int)
    requires
        mark.len() > 0,
        occurs_at(s, mark, at),
        forall|k: int| 0 <= k < at ==> !#[trigger] occurs_at(s, mark, k),
    ensures
        substituted(s, mark, with) == s.take(at) + with + substituted(s.skip(at + mark.len()), mark, with),
    decreases at,
{
    assert(s.take(mark.len() as int) =~= s.subrange(0, mark.len() as int));
    let tail = substituted(s.skip(at + mark.len()), mark, with);
    if at == 0 {
        assert(s.take(0) + with + tail =~= with + tail);
    } else {
        assert(!occurs_at(s, mark, 0));
        let rest = s.skip(1);
        assert(rest.subrange(at - 1, at - 1 + mark.len()) =~= s.subrange(at, at + mark.len()));
        assert forall|k: int| 0 <= k < at - 1 implies !#[trigger] occurs_at(rest, mark, k) by {
            if occurs_at(rest, mark, k) {
                assert(rest.subrange(k, k + mark.len()) =~= s.subrange(k + 1, k + 1 + mark.len()));
                assert(occurs_at(s, mark, k + 1));
            }
        }
        law_first_place_is_filled(rest, mark, with, at - 1);
        assert(rest.skip(at - 1 + mark.len()) =~= s.skip(at + mark.len()));
        assert(seq![s[0]] + (rest.take(at - 1) + with + tail) =~= s.take(at) + with + tail);
    }
}

/// The code points with the Unicode property White_Space.
pub open spec fn white_space_code_points() -> Set<int> {
    set![
        0x9, 0xa, 0xb, 0xc, 0xd, 0x20, 0x85, 0xa0, 0x1680, 0x2000, 0x2001, 0x2002, 0x2003, 0x2004, 0x2005, 0x2006,
        0x2007, 0x2008, 0x2009, 0x200a, 0x2028, 0x2029, 0x202f, 0x205f, 0x3000,
    ]
}

/// White space is what Unicode says it is.
pub proof fn law_white_space_is_that_of_unicode(c: char)
    ensures
        is_white_space(c) <==> white_space_code_points().contains(c as int),
{
}

/// Trimming takes a part out of the text: what is left out in front and behind is all white space,
/// and what is left neither begins nor ends with any.
pub proof fn law_trimming_leaves_out_white_space(s: Seq<char>) -> (ends: (int, int))
    ensures
        0 <= ends.0 <= ends.1 <= s.len(),
        trimmed(s) == s.subrange(ends.0, ends.1),
        forall|k: int| 0 <= k < ends.0 ==> white_space_code_points().contains(#[trigger] s[k] as int),
        forall|k: int| ends.1 <= k < s.len() ==> white_space_code_points().contains(#[trigger] s[k] as int),
        ends.0 < ends.1 ==> !white_space_code_points().contains(s[ends.0] as int)
            && !white_space_code_points().contains(s[ends.1 - 1] as int),
    decreases s.len(),
{
    if s.len() > 0 && is_white_space(s.first()) {
        law_white_space_is_that_of_unicode(s.first());
        let rest = s.drop_first();
        let ends = law_trimming_leaves_out_white_space(rest);
        assert(rest.subrange(ends.0, ends.1) =~= s.subrange(ends.0 + 1, ends.1 + 1));
        assert forall|k: int| 0 <= k < ends.0 + 1 implies white_space_code_points().contains(
            #[trigger] s[k] as int,
        ) by {
            if k > 0 {
                assert(s[k] == rest[k - 1]);
            }
        }
        assert forall|k: int| ends.1 + 1 <= k < s.len() implies white_space_code_points().contains(
            #[trigger] s[k] as int,
        ) by {
            assert(s[k] == rest[k - 1]);
        }
        (ends.0 + 1, ends.1 + 1)
    } else if s.len() > 0 && is_white_space(s.last()) {
        law_white_space_is_that_of_unicode(s.last());
        let rest = s.drop_last();
        let ends = law_trimming_leaves_out_white_space(rest);
        assert(rest.subrange(ends.0, ends.1) =~= s.subrange(ends.0, ends.1));
        assert forall|k: int| ends.1 <= k < s.len() implies white_space_code_points().contains(
            #[trigger] s[k] as int,
        ) by {
            if k < rest.len() {
                assert(s[k] == rest[k]);
            }
        }
        assert forall|k: int| 0 <= k < ends.0 implies white_space_code_points().contains(#[trigger] s[k] as int) by {
            assert(s[k] == rest[k]);
        }
        ends
    } else {
        if s.len() > 0 {
            law_white_space_is_that_of_unicode(s.first());
            law_white_space_is_that_of_unicode(s.last());
        }
        assert(s.subrange(0, s.len() as int) =~= s);
        (0, s.len() as int)
    }
}

/// The number that a row of digits denotes in a base, each digit by its value.
pub open spec fn positional(values: Seq<nat>, base: nat) -> nat
    decreases values.len(),
{
    if values.len() == 0 {
        0
    } else {
        positional(values.drop_last(), base) * base + values.last()
    }
}

/// The values of decimal or lower-case hexadecimal digits.
pub open spec fn digit_values(s: Seq<char>) -> Seq<nat> {
    s.map_values(
        |c: char|
            if 'a' <= c <= 'f' {
                (c as int - 0x61 + 10) as nat
            } else {
                (c as int - 0x30) as nat
            },
    )
}

/// A number in decimal is made of decimal digits, has no leading zero but for zero itself, and
/// denotes the number.
pub proof fn law_decimal_denotes_the_number(n: nat)
    ensures
        decimal(n).len() > 0,
        forall|k: int| 0 <= k < decimal(n).len() ==> '0' <= #[trigger] decimal(n)[k] <= '9',
        n > 0 ==> decimal(n)[0] != '0',
        positional(digit_values(decimal(n)), 10) == n,
    decreases n,
{
    reveal_with_fuel(positional, 2);
    if n >= 10 {
        law_decimal_denotes_the_number(n / 10);
        assert(digit_values(decimal(n)).drop_last() =~= digit_values(decimal(n / 10)));
    }
}

/// A number in hexadecimal is made of lower-case hexadecimal digits, has no leading zero but for
/// zero itself, and denotes the number.
pub proof fn law_hexadecimal_denotes_the_number(n: nat)
    ensures
        hexadecimal(n).len() > 0,
        forall|k: int|
            0 <= k < hexadecimal(n).len() ==> '0' <= #[trigger] hexadecimal(n)[k] <= '9' || 'a' <= hexadecimal(n)[k]
                <= 'f',
        n > 0 ==> hexadecimal(n)[0] != '0',
        positional(digit_values(hexadecimal(n)), 16) == n,
    decreases n,
{
    reveal_with_fuel(positional, 2);
    if n >= 16 {
        law_hexadecimal_denotes_the_number(n / 16);
        assert(digit_values(hexadecimal(n)).drop_last() =~= digit_values(hexadecimal(n / 16)));
    }
}

/// A negative number has a minus sign in front of its magnitude, and no other number has one.
pub proof fn law_minus_sign_is_for_negative_numbers(n: int)
    ensures
        n < 0 <==> signed_decimal(n)[0] == '-',
        n < 0 ==> positional(digit_values(signed_decimal(n).skip(1)), 10) == -n,
        n >= 0 ==> positional(digit_values(signed_decimal(n)), 10) == n,
{
    law_decimal_denotes_the_number((-n) as nat);
    law_decimal_denotes_the_number(n as nat);
    if n < 0 {
        assert(signed_decimal(n).skip(1) =~= decimal((-n) as nat));
    } else {
        let first = decimal(n as nat)[0];
        assert('0' <= first <= '9');
    }
}

proof fn lemma_digits_value_is_positional(s: Seq<char>)
    requires
        all_digits(s),
    ensures
        digits_value(s) == positional(digit_values(s), 10),
    decreases s.len(),
{
    if s.len() > 0 {
        assert(is_digit(s[s.len() - 1]));
        lemma_digits_value_is_positional(s.drop_last());
        assert(digit_values(s).drop_last() =~= digit_values(s.drop_last()));
    }
}

/// A text is read as a number exactly where it is a row of decimal digits that denotes a number of
/// no more than 64 bits, with or without one plus sign in front; then it is read as that number.
pub proof fn law_numbers_are_read_by_their_digits(s: Seq<char>, digits: Seq<char>)
    requires
        s == digits || s == seq!['+'] + digits,
        digits.len() > 0 ==> digits[0] != '+',
    ensures
        unsigned_value(s) is Some <==> {
            &&& digits.len() > 0
            &&& forall|k: int| 0 <= k < digits.len() ==> '0' <= #[trigger] digits[k] <= '9'
            &&& positional(digit_values(digits), 10) <= u64::MAX
        },
        unsigned_value(s) matches Some(value) ==> value == positional(digit_values(digits), 10),
{
    assert(unsigned_digits(s) =~= digits);
    if all_digits(digits) {
        lemma_digits_value_is_positional(digits);
    } else {
        let k = choose|k: int| 0 <= k < digits.len() && !is_digit(#[trigger] digits[k]);
        assert(!('0' <= digits[k] <= '9'));
    }
}

/// Every number of no more than 64 bits is read back from its decimal digits.
pub proof fn law_decimal_reads_back(n: u64)
    ensures
        unsigned_value(decimal(n as nat)) == Some(n),
        unsigned_value(seq!['+'] + decimal(n as nat)) == Some(n),
{
    law_decimal_denotes_the_number(n as nat);
    let digits = decimal(n as nat);
    assert('0' <= digits[0] <= '9');
    law_numbers_are_read_by_their_digits(digits, digits);
    law_numbers_are_read_by_their_digits(seq!['+'] + digits, digits);
}

/// Different numbers have different decimals.
pub proof fn law_decimals_differ(m: nat, n: nat)
    ensures
        decimal(m) == decimal(n) ==> m == n,
{
    law_decimal_denotes_the_number(m);
    law_decimal_denotes_the_number(n);
}

} // verus!
