//! Numbers in texts.
use vstd::prelude::*;

use crate::text::ascii_lower;
use crate::text::from_range;
use crate::text::same_text;
use crate::text::to_ascii_lowercase;
use crate::text::to_chars;

verus! {

/// The value of a digit in a radix of at most sixteen.
pub open spec fn digit_value(c: char, radix: int) -> Option<int> {
    let value = if '0' <= c <= '9' {
        c as int - '0' as int
    } else if 'a' <= c <= 'f' {
        c as int - 'a' as int + 10
    } else if 'A' <= c <= 'F' {
        c as int - 'A' as int + 10
    } else {
        16
    };
    if value < radix && value < 16 {
        Some(value)
    } else {
        None
    }
}

/// The value of a run of digits; nothing where a character is no digit.
pub open spec fn digits_value(s: Seq<char>, radix: int) -> Option<int>
    decreases s.len(),
{
    if s.len() == 0 {
        Some(0)
    } else {
        match (digits_value(s.drop_last(), radix), digit_value(s.last(), radix)) {
            (Some(before), Some(digit)) => Some(before * radix + digit),
            _ => None,
        }
    }
}

/// The number that a text writes: digits, after one plus sign or none. Nothing for a text without
/// digits or with other characters, or for a number above `max`.
pub open spec fn unsigned_value(s: Seq<char>, radix: int, max: int) -> Option<int> {
    let digits = if s.len() > 0 && s[0] == '+' {
        s.drop_first()
    } else {
        s
    };
    match digits_value(digits, radix) {
        Some(value) => if digits.len() > 0 && value <= max {
            Some(value)
        } else {
            None
        },
        None => None,
    }
}

proof fn lemma_digits_grow(s: Seq<char>, radix: int, at: int)
    requires
        0 <= at <= s.len(),
        radix >= 1,
        digits_value(s, radix) is Some,
    ensures
        digits_value(s.take(at), radix) is Some,
        0 <= digits_value(s.take(at), radix)->0 <= digits_value(s, radix)->0,
    decreases s.len(),
{
    if at == s.len() {
        assert(s.take(at) =~= s);
        if s.len() > 0 {
            lemma_digits_grow(s.drop_last(), radix, s.len() - 1);
            assert(s.drop_last().take(s.len() - 1) =~= s.drop_last());
            let before = digits_value(s.drop_last(), radix)->0;
            assert(before * radix >= 0) by (nonlinear_arith)
                requires
                    before >= 0,
                    radix >= 1,
            ;
        }
    } else {
        assert(s.drop_last().take(at) =~= s.take(at));
        lemma_digits_grow(s.drop_last(), radix, at);
        let before = digits_value(s.drop_last(), radix)->0;
        assert(before * radix >= before) by (nonlinear_arith)
            requires
                before >= 0,
                radix >= 1,
        ;
    }
}

fn digit_of(c: char, radix: u64) -> (r: Option<u64>)
    ensures
        match (r, digit_value(c, radix as int)) {
            (Some(digit), Some(value)) => digit == value && digit < 16,
            (None, None) => true,
            _ => false,
        },
{
    let value: u64 = if '0' <= c && c <= '9' {
        (c as u32 - '0' as u32) as u64
    } else if 'a' <= c && c <= 'f' {
        (c as u32 - 'a' as u32 + 10) as u64
    } else if 'A' <= c && c <= 'F' {
        (c as u32 - 'A' as u32 + 10) as u64
    } else {
        16
    };
    if value < radix && value < 16 {
        Some(value)
    } else {
        None
    }
}

/// The number that the characters from `start` up to `end` write.
pub fn parse_unsigned(chars: &Vec<char>, start: usize, end: usize, radix: u64, max: u64) -> (r:
    Option<u64>)
    requires
        start <= end <= chars@.len(),
        2 <= radix <= 16,
    ensures
        match (r, unsigned_value(chars@.subrange(start as int, end as int), radix as int, max as int)) {
            (Some(number), Some(value)) => number == value,
            (None, None) => true,
            _ => false,
        },
{
    let ghost s = chars@.subrange(start as int, end as int);
    let from: usize = if start < end && chars[start] == '+' {
        start + 1
    } else {
        start
    };
    let ghost digits = chars@.subrange(from as int, end as int);
    proof {
        if from > start {
            assert(s.drop_first() =~= digits);
        }
    }
    if from == end {
        return None;
    }
    let mut value: u64 = 0;
    let mut at: usize = from;
    assert(digits.take(0) =~= Seq::empty());
    while at < end
        invariant
            from <= at <= end <= chars@.len(),
            2 <= radix <= 16,
            value <= max,
            digits == chars@.subrange(from as int, end as int),
            from < end,
            start <= from,
            s == chars@.subrange(start as int, end as int),
            unsigned_value(s, radix as int, max as int) == (match digits_value(
                digits,
                radix as int,
            ) {
                Some(number) => if number <= max {
                    Some(number)
                } else {
                    None
                },
                None => None,
            }),
            digits_value(digits.take(at - from), radix as int) == Some(value as int),
        decreases end - at,
    {
        let ghost next = digits.take(at - from + 1);
        proof {
            assert(next.drop_last() =~= digits.take(at - from));
            assert(next.last() == chars@[at as int]);
            if digits_value(digits, radix as int) is Some {
                lemma_digits_grow(digits, radix as int, at - from + 1);
            }
        }
        match digit_of(chars[at], radix) {
            None => {
                return None;
            },
            Some(digit) => {
                assert(value * radix <= 0xffff_ffff_ffff_ffff * 16) by (nonlinear_arith)
                    requires
                        value <= 0xffff_ffff_ffff_ffff,
                        radix <= 16,
                ;
                let sum: u128 = value as u128 * radix as u128 + digit as u128;
                if sum > max as u128 {
                    return None;
                }
                value = sum as u64;
            },
        }
        at = at + 1;
    }
    assert(digits.take(end - from) =~= digits);
    Some(value)
}

/// The number that a text writes.
pub fn parse_text(s: &str, max: u64) -> (r: Option<u64>)
    ensures
        match (r, unsigned_value(s@, 10, max as int)) {
            (Some(number), Some(value)) => number == value,
            (None, None) => true,
            _ => false,
        },
{
    let chars = to_chars(s);
    assert(chars@.subrange(0, chars@.len() as int) =~= chars@);
    parse_unsigned(&chars, 0, chars.len(), 10, max)
}

/// A text without one sign at its start.
pub open spec fn unsigned(s: Seq<char>) -> Seq<char> {
    if s.len() > 0 && (s[0] == '+' || s[0] == '-') {
        s.drop_first()
    } else {
        s
    }
}

pub open spec fn is_digit(c: char) -> bool {
    '0' <= c <= '9'
}

/// Digits with at most one point.
pub open spec fn is_mantissa(s: Seq<char>) -> bool {
    &&& forall|i: int| 0 <= i < s.len() ==> is_digit(#[trigger] s[i]) || s[i] == '.'
    &&& exists|i: int| 0 <= i < s.len() && is_digit(#[trigger] s[i])
    &&& forall|i: int, j: int|
        0 <= i < j < s.len() ==> !(#[trigger] s[i] == '.' && #[trigger] s[j] == '.')
}

/// Digits, after one sign or none.
pub open spec fn is_exponent(s: Seq<char>) -> bool {
    &&& unsigned(s).len() > 0
    &&& forall|i: int| 0 <= i < unsigned(s).len() ==> is_digit(#[trigger] unsigned(s)[i])
}

/// The place of the letter before the exponent; the length where there is none.
pub open spec fn exponent_place(s: Seq<char>) -> int
    decreases s.len(),
{
    if s.len() == 0 || s[0] == 'e' || s[0] == 'E' {
        0
    } else {
        1 + exponent_place(s.drop_first())
    }
}

/// Whether a text writes a decimal number: digits with at most one point, after one sign or none,
/// with an exponent or without. Infinity and the undefined number have names, in any case.
pub open spec fn is_float_text(s: Seq<char>) -> bool {
    let body = unsigned(s);
    let place = exponent_place(body);
    ||| ascii_lower(body) == "inf"@
    ||| ascii_lower(body) == "infinity"@
    ||| ascii_lower(body) == "nan"@
    ||| if place < body.len() {
        is_mantissa(body.take(place)) && is_exponent(body.skip(place + 1))
    } else {
        is_mantissa(body)
    }
}

fn check_mantissa(chars: &Vec<char>, start: usize, end: usize) -> (r: bool)
    requires
        start <= end <= chars@.len(),
    ensures
        r == is_mantissa(chars@.subrange(start as int, end as int)),
{
    let ghost body = chars@.subrange(start as int, end as int);
    let mut digits = false;
    let mut points = false;
    let mut at: usize = start;
    while at < end
        invariant
            start <= at <= end <= chars@.len(),
            body == chars@.subrange(start as int, end as int),
            forall|i: int| 0 <= i < at - start ==> is_digit(#[trigger] body[i]) || body[i] == '.',
            digits == exists|i: int| 0 <= i < at - start && is_digit(#[trigger] body[i]),
            points == exists|i: int| 0 <= i < at - start && (#[trigger] body[i]) == '.',
            forall|i: int, j: int|
                0 <= i < j < at - start ==> !(#[trigger] body[i] == '.' && #[trigger] body[j]
                    == '.'),
        decreases end - at,
    {
        let c: char = chars[at];
        assert(body[at - start] == c);
        if '0' <= c && c <= '9' {
            digits = true;
        } else if c == '.' {
            if points {
                return false;
            }
            points = true;
        } else {
            return false;
        }
        at = at + 1;
    }
    digits
}

fn sign_length(chars: &Vec<char>, start: usize) -> (r: usize)
    requires
        start <= chars@.len(),
    ensures
        start <= r <= chars@.len(),
        chars@.skip(r as int) == unsigned(chars@.skip(start as int)),
{
    let ghost s = chars@.skip(start as int);
    if start < chars.len() && (chars[start] == '+' || chars[start] == '-') {
        assert(s.drop_first() =~= chars@.skip(start + 1));
        start + 1
    } else {
        start
    }
}

fn check_exponent(chars: &Vec<char>, start: usize) -> (r: bool)
    requires
        start <= chars@.len(),
    ensures
        r == is_exponent(chars@.skip(start as int)),
{
    let from: usize = sign_length(chars, start);
    let ghost body = unsigned(chars@.skip(start as int));
    if from == chars.len() {
        return false;
    }
    let mut at: usize = from;
    while at < chars.len()
        invariant
            from <= at <= chars@.len(),
            from < chars@.len(),
            start <= chars@.len(),
            body == chars@.skip(from as int),
            body == unsigned(chars@.skip(start as int)),
            forall|i: int| 0 <= i < at - from ==> is_digit(#[trigger] body[i]),
        decreases chars@.len() - at,
    {
        let c: char = chars[at];
        assert(body[at - from] == c);
        if !('0' <= c && c <= '9') {
            return false;
        }
        at = at + 1;
    }
    true
}

/// Whether a text writes a decimal number.
pub fn is_float(s: &str) -> (r: bool)
    ensures
        r == is_float_text(s@),
{
    let chars = to_chars(s);
    let len: usize = chars.len();
    assert(chars@.skip(0) =~= chars@);
    let from: usize = sign_length(&chars, 0);
    let ghost body = unsigned(s@);
    let word = from_range(&chars, from, len);
    assert(word@ =~= body);
    let lower = to_ascii_lowercase(word.as_str());
    if same_text(lower.as_str(), "inf") || same_text(lower.as_str(), "infinity") || same_text(
        lower.as_str(),
        "nan",
    ) {
        return true;
    }
    let mut at: usize = from;
    while at < len && chars[at] != 'e' && chars[at] != 'E'
        invariant
            from <= at <= len,
            len == chars@.len(),
            body == chars@.skip(from as int),
            exponent_place(body) == at - from + exponent_place(chars@.skip(at as int)),
        decreases len - at,
    {
        assert(chars@.skip(at as int).drop_first() =~= chars@.skip(at + 1));
        at = at + 1;
    }
    if at < len {
        assert(chars@.subrange(from as int, at as int) =~= body.take(at - from));
        assert(chars@.skip(at + 1) =~= body.skip(at - from + 1));
        check_mantissa(&chars, from, at) && check_exponent(&chars, at + 1)
    } else {
        assert(chars@.subrange(from as int, at as int) =~= body);
        check_mantissa(&chars, from, at)
    }
}


/// The character of a digit.
pub open spec fn digit_char(digit: nat) -> char {
    ((48 + digit) as u8) as char
}

/// A number written with decimal digits.
pub open spec fn decimal(n: nat) -> Seq<char>
    decreases n,
{
    if n < 10 {
        seq![digit_char(n)]
    } else {
        decimal(n / 10).push(digit_char(n % 10))
    }
}

fn decimal_chars(n: u64) -> (r: Vec<char>)
    ensures
        r@ == decimal(n as nat),
    decreases n,
{
    let digit: u8 = (n % 10) as u8;
    if n < 10 {
        let mut chars: Vec<char> = Vec::new();
        chars.push((48 + digit) as char);
        assert(chars@ =~= decimal(n as nat));
        chars
    } else {
        let mut chars = decimal_chars(n / 10);
        chars.push((48 + digit) as char);
        chars
    }
}

/// A number written with decimal digits.
pub fn to_decimal(n: usize) -> (r: String)
    ensures
        r@ == decimal(n as nat),
{
    let chars = decimal_chars(n as u64);
    crate::text::from_chars(&chars)
}

/// Numbers written with decimal digits, with a text between two of them.
pub open spec fn decimals(list: Seq<usize>, between: Seq<char>) -> Seq<char>
    decreases list.len(),
{
    if list.len() == 0 {
        Seq::empty()
    } else if list.len() == 1 {
        decimal(list[0] as nat)
    } else {
        decimals(list.drop_last(), between) + between + decimal(list.last() as nat)
    }
}

/// Numbers written with decimal digits, with a text between two of them.
pub fn join_decimals(list: &Vec<usize>, between: &str) -> (r: String)
    ensures
        r@ == decimals(list@, between@),
{
    let mut text = String::new();
    let mut at: usize = 0;
    assert(text@ =~= Seq::empty());
    while at < list.len()
        invariant
            at <= list@.len(),
            text@ == decimals(list@.take(at as int), between@),
        decreases list@.len() - at,
    {
        let ghost first = list@.take(at + 1);
        assert(first.drop_last() =~= list@.take(at as int));
        if at > 0 {
            crate::text::push_text(&mut text, between);
        }
        let number = to_decimal(list[at]);
        let ghost before = text@;
        crate::text::push_text(&mut text, number.as_str());
        proof {
            assert(at == 0 ==> before =~= Seq::empty());
            assert(Seq::<char>::empty() + number@ =~= number@);
        }
        at = at + 1;
    }
    assert(list@.take(list@.len() as int) =~= list@);
    text
}

/// A number that was written is read back.
pub proof fn lemma_decimal_is_read_back(n: nat, max: int)
    requires
        n <= max,
    ensures
        unsigned_value(decimal(n), 10, max) == Some(n as int),
{
    lemma_decimal_digits(n);
}

proof fn lemma_decimal_digits(n: nat)
    ensures
        digits_value(decimal(n), 10) == Some(n as int),
        decimal(n).len() > 0,
        '0' <= decimal(n)[0] <= '9',
    decreases n,
{
    let text = decimal(n);
    let digit = n % 10;
    assert('0' <= digit_char(digit) <= '9');
    assert(digit_value(digit_char(digit), 10) == Some(digit as int));
    if n < 10 {
        assert(text.drop_last() =~= Seq::empty());
        reveal_with_fuel(digits_value, 2);
    } else {
        lemma_decimal_digits(n / 10);
        assert(text.drop_last() =~= decimal(n / 10));
    }
}

/// A number in hexadecimal digits, as many as asked for.
pub open spec fn hex_text(n: nat, count: nat) -> Seq<char>
    decreases count,
{
    if count == 0 {
        Seq::empty()
    } else {
        hex_text(n / 16, (count - 1) as nat).push("0123456789ABCDEF"@[(n % 16) as int])
    }
}

/// Adds a number in hexadecimal digits, as many as asked for.
pub fn push_hex(text: &mut String, n: u32, count: u32)
    ensures
        final(text)@ == old(text)@ + hex_text(n as nat, count as nat),
    decreases count,
{
    if count > 0 {
        push_hex(text, n / 16, count - 1);
        let digits = to_chars("0123456789ABCDEF");
        proof {
            reveal_strlit("0123456789ABCDEF");
        }
        text.push(digits[(n % 16) as usize]);
    }
    assert(text@ =~= old(text)@ + hex_text(n as nat, count as nat));
}

} // verus!
