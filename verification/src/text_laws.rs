//! What reading texts promises: how they are trimmed and taken apart, and which numbers, colours, sizes
//! and words they write.
use vstd::prelude::*;

use crate::calc::applied;
use crate::flex::justified;
use crate::flex_laws::lemma_space_is_spread;
use crate::keywords::color_of;
use crate::keywords::justify_of;
use crate::numbers::digit_value;
use crate::numbers::digits_value;
use crate::numbers::exponent_place;
use crate::numbers::hex_text;
use crate::numbers::is_digit;
use crate::numbers::is_exponent;
use crate::numbers::is_float_text;
use crate::numbers::is_mantissa;
use crate::numbers::unsigned;
use crate::sizes::calc_of_piece;
use crate::sizes::inside;
use crate::sizes::length_of_text;
use crate::sizes::size_of_text;
use crate::sizes::CalcModel;
use crate::sizes::LengthUnit;
use crate::sizes::SizeModel;
use crate::text::ascii_lower;
use crate::text::ends;
use crate::text::index_of;
use crate::text::index_of_text;
use crate::text::is_space;
use crate::text::lemma_index_of;
use crate::text::lemma_index_of_text;
use crate::text::less_prefix;
use crate::text::less_suffix;
use crate::text::lower_char;
use crate::text::pieces;
use crate::text::pieces_by;
use crate::text::starts;
use crate::text::trimmed;
use crate::text::trimmed_end;
use crate::text::trimmed_start;
use crate::text::words;
use crate::text::words_so_far;

verus! {

/// Whether a part of a text is white space alone.
pub open spec fn all_space(s: Seq<char>) -> bool {
    forall|i: int| 0 <= i < s.len() ==> is_space(#[trigger] s[i])
}

/// Trimming takes white space away at both ends and nothing else: what is left stands in the text as it
/// is, and does not start or end with white space.
pub proof fn lemma_trimming(s: Seq<char>)
    ensures
        exists|front: Seq<char>, back: Seq<char>| #[trigger]
            all_space(front) && #[trigger] all_space(back) && s == front + trimmed(s) + back,
        trimmed(s).len() > 0 ==> !is_space(trimmed(s)[0]) && !is_space(trimmed(s).last()),
{
    let rest = trimmed_start(s);
    let front = lemma_front(s);
    let back = lemma_back(rest);
    let kept = trimmed(s);
    assert(s =~= front + kept + back);
    assert(all_space(front) && all_space(back));
    if kept.len() > 0 {
        assert(kept[0] == rest[0]);
    }
}

proof fn lemma_front(s: Seq<char>) -> (front: Seq<char>)
    ensures
        all_space(front),
        s == front + trimmed_start(s),
        trimmed_start(s).len() > 0 ==> !is_space(trimmed_start(s)[0]),
    decreases s.len(),
{
    if s.len() > 0 && is_space(s[0]) {
        let less = lemma_front(s.drop_first());
        let front = seq![s[0]] + less;
        assert(s =~= seq![s[0]] + s.drop_first());
        assert(s =~= front + trimmed_start(s));
        assert forall|i: int| 0 <= i < front.len() implies is_space(#[trigger] front[i]) by {
            if i > 0 {
                assert(front[i] == less[i - 1]);
            }
        }
        front
    } else {
        assert(s =~= Seq::<char>::empty() + s);
        Seq::empty()
    }
}

proof fn lemma_back(s: Seq<char>) -> (back: Seq<char>)
    ensures
        all_space(back),
        s == trimmed_end(s) + back,
        trimmed_end(s).len() > 0 ==> !is_space(trimmed_end(s).last()),
    decreases s.len(),
{
    if s.len() > 0 && is_space(s.last()) {
        let less = lemma_back(s.drop_last());
        let back = less.push(s.last());
        assert(s =~= s.drop_last().push(s.last()));
        assert(s =~= trimmed_end(s) + back);
        back
    } else {
        assert(s =~= s + Seq::<char>::empty());
        Seq::empty()
    }
}

/// Texts with a separator between two of them.
pub open spec fn joined(list: Seq<Seq<char>>, between: Seq<char>) -> Seq<char>
    decreases list.len(),
{
    if list.len() == 0 {
        Seq::empty()
    } else if list.len() == 1 {
        list[0]
    } else {
        list[0] + between + joined(list.drop_first(), between)
    }
}

/// Whether a character stands in no text of a list.
pub open spec fn none_holds(list: Seq<Seq<char>>, c: char) -> bool {
    forall|i: int, k: int|
        0 <= i < list.len() && 0 <= k < list[i].len() ==> #[trigger] list[i][k] != c
}

/// Taken apart at a character, a text is its pieces with the character between them, and no piece holds
/// the character.
pub proof fn lemma_pieces_are_between(s: Seq<char>, c: char)
    ensures
        pieces(s, c).len() > 0,
        joined(pieces(s, c), seq![c]) == s,
        none_holds(pieces(s, c), c),
    decreases s.len(),
{
    lemma_index_of(s, c);
    let at = index_of(s, c);
    let list = pieces(s, c);
    if at < s.len() {
        let rest = s.skip(at + 1);
        lemma_pieces_are_between(rest, c);
        assert(list =~= seq![s.take(at)] + pieces(rest, c));
        assert(list.drop_first() =~= pieces(rest, c));
        assert(s =~= s.take(at) + seq![c] + rest);
        assert forall|i: int, k: int| 0 <= i < list.len() && 0 <= k < list[i].len() implies
            #[trigger] list[i][k] != c by {
            if i > 0 {
                assert(list[i] == pieces(rest, c)[i - 1]);
                assert(pieces(rest, c)[i - 1][k] != c);
            }
        }
    } else {
        assert(list =~= seq![s]);
    }
}

/// Where a text is found in another, it stands there, and nowhere before. Where it is not found, it
/// stands nowhere.
pub proof fn lemma_first_place_of_text(s: Seq<char>, other: Seq<char>)
    ensures
        index_of_text(s, other) matches Some(at) ==> {
            &&& 0 <= at <= s.len() - other.len()
            &&& s.subrange(at, at + other.len()) == other
            &&& forall|i: int| 0 <= i < at ==> !starts(#[trigger] s.skip(i), other)
        },
        index_of_text(s, other) is None ==> forall|i: int|
            0 <= i <= s.len() ==> !starts(#[trigger] s.skip(i), other),
    decreases s.len(),
{
    lemma_index_of_text(s, other);
    if let Some(at) = index_of_text(s, other) {
        assert(s.skip(at).take(other.len() as int) =~= s.subrange(at, at + other.len()));
    }
    assert(s.skip(0) =~= s);
    if !starts(s, other) && s.len() > 0 {
        let rest = s.drop_first();
        lemma_first_place_of_text(rest, other);
        assert forall|i: int| 0 < i <= s.len() implies #[trigger] s.skip(i) == rest.skip(i - 1) by {
            assert(s.skip(i) =~= rest.skip(i - 1));
        }
    }
}

/// Taken apart at another text, a text is its pieces with the other between them.
pub proof fn lemma_pieces_between_texts(s: Seq<char>, other: Seq<char>)
    requires
        other.len() > 0,
    ensures
        pieces_by(s, other).len() > 0,
        joined(pieces_by(s, other), other) == s,
    decreases s.len(),
{
    lemma_index_of_text(s, other);
    lemma_first_place_of_text(s, other);
    let list = pieces_by(s, other);
    if let Some(at) = index_of_text(s, other) {
        let rest = s.skip(at + other.len());
        lemma_pieces_between_texts(rest, other);
        assert(list =~= seq![s.take(at)] + pieces_by(rest, other));
        assert(list.drop_first() =~= pieces_by(rest, other));
        assert(s =~= s.take(at) + s.subrange(at, at + other.len()) + rest);
    }
}

/// White space parts words, and nothing else does: the words of two texts with white space between them
/// are the words of the one and of the other, and a text without white space is one word.
pub proof fn lemma_words_are_parted_by_space(a: Seq<char>, space: char, b: Seq<char>)
    requires
        is_space(space),
    ensures
        words(a.push(space) + b) == words(a) + words(b),
        a.len() > 0 && (forall|i: int| 0 <= i < a.len() ==> !is_space(#[trigger] a[i])) ==> words(a)
            == seq![a],
        all_space(a) ==> words(a).len() == 0,
{
    lemma_words_behind(a, space, b);
    if a.len() > 0 && (forall|i: int| 0 <= i < a.len() ==> !is_space(#[trigger] a[i])) {
        lemma_one_word(a);
    }
    if all_space(a) {
        lemma_no_word(a);
    }
}

proof fn lemma_words_behind(a: Seq<char>, space: char, b: Seq<char>)
    requires
        is_space(space),
    ensures
        words_so_far(a.push(space) + b).0 == words(a) + words_so_far(b).0,
        words_so_far(a.push(space) + b).1 == words_so_far(b).1,
        words(a.push(space) + b) == words(a) + words(b),
    decreases b.len(),
{
    let whole = a.push(space) + b;
    if b.len() == 0 {
        assert(whole =~= a.push(space));
        assert(whole.drop_last() =~= a);
        assert(words_so_far(whole).0 =~= words(a) + words_so_far(b).0);
        assert(words_so_far(whole).1 =~= words_so_far(b).1);
    } else {
        lemma_words_behind(a, space, b.drop_last());
        assert(whole.drop_last() =~= a.push(space) + b.drop_last());
        assert(whole.last() == b.last());
        assert(words_so_far(whole).0 =~= words(a) + words_so_far(b).0);
    }
    assert(words(whole) =~= words(a) + words(b));
}

proof fn lemma_one_word(a: Seq<char>)
    requires
        forall|i: int| 0 <= i < a.len() ==> !is_space(#[trigger] a[i]),
    ensures
        words_so_far(a).0 == Seq::<Seq<char>>::empty(),
        words_so_far(a).1 == a,
        a.len() > 0 ==> words(a) == seq![a],
    decreases a.len(),
{
    if a.len() > 0 {
        let less = a.drop_last();
        assert forall|i: int| 0 <= i < less.len() implies !is_space(#[trigger] less[i]) by {
            assert(less[i] == a[i]);
        }
        lemma_one_word(less);
        assert(a.last() == a[a.len() - 1]);
        assert(less.push(a.last()) =~= a);
        assert(words(a) =~= seq![a]);
    } else {
        assert(words_so_far(a).1 =~= a);
    }
}

proof fn lemma_no_word(a: Seq<char>)
    requires
        all_space(a),
    ensures
        words_so_far(a).0.len() == 0,
        words_so_far(a).1.len() == 0,
    decreases a.len(),
{
    if a.len() > 0 {
        let less = a.drop_last();
        assert forall|i: int| 0 <= i < less.len() implies is_space(#[trigger] less[i]) by {
            assert(less[i] == a[i]);
        }
        lemma_no_word(less);
        assert(a.last() == a[a.len() - 1]);
    }
}

/// A text starts with what it was put behind, and ends with what was put behind it; taking that away
/// gives the rest back. What a text does not start or end with is not taken away.
pub proof fn lemma_prefixes_and_suffixes(a: Seq<char>, b: Seq<char>, s: Seq<char>)
    ensures
        starts(a + b, a),
        ends(a + b, b),
        less_prefix(a + b, a) == b,
        less_suffix(a + b, b) == a,
        starts(s, a) ==> s == a + less_prefix(s, a),
        ends(s, b) ==> s == less_suffix(s, b) + b,
        !starts(s, a) ==> less_prefix(s, a) == s,
        !ends(s, b) ==> less_suffix(s, b) == s,
{
    assert((a + b).take(a.len() as int) =~= a);
    assert((a + b).skip(a.len() as int) =~= b);
    if starts(s, a) {
        assert(s =~= s.take(a.len() as int) + s.skip(a.len() as int));
    }
    if ends(s, b) {
        assert(s =~= s.take(s.len() - b.len()) + s.skip(s.len() - b.len()));
    }
}

/// Made small, a capital letter is the letter at the same place of the alphabet, and nothing else
/// changes.
pub proof fn lemma_small_letters(s: Seq<char>, i: int)
    requires
        0 <= i < s.len(),
    ensures
        ascii_lower(s).len() == s.len(),
        'A' <= s[i] <= 'Z' ==> 'a' <= ascii_lower(s)[i] <= 'z' && ascii_lower(s)[i] as int
            - 'a' as int == s[i] as int - 'A' as int,
        !('A' <= s[i] <= 'Z') ==> ascii_lower(s)[i] == s[i],
        ascii_lower(ascii_lower(s)) == ascii_lower(s),
{
    let once = ascii_lower(s);
    assert(ascii_lower(once) =~= once) by {
        assert forall|k: int| 0 <= k < s.len() implies lower_char(#[trigger] once[k]) == once[k] by {
        }
    }
}

/// Sixteen to a power.
pub open spec fn sixteens(count: nat) -> int
    decreases count,
{
    if count == 0 {
        1
    } else {
        16 * sixteens((count - 1) as nat)
    }
}

/// Hexadecimal digits are read back as the number that was written, as long as it has no more digits
/// than were asked for.
pub proof fn lemma_hex_is_read_back(n: nat, count: nat)
    requires
        n < sixteens(count),
    ensures
        hex_text(n, count).len() == count,
        digits_value(hex_text(n, count), 16) == Some(n as int),
        forall|i: int|
            0 <= i < count ==> digit_value(#[trigger] hex_text(n, count)[i], 16) is Some,
    decreases count,
{
    reveal_strlit("0123456789ABCDEF");
    if count > 0 {
        let less = hex_text(n / 16, (count - 1) as nat);
        let text = hex_text(n, count);
        lemma_hex_is_read_back(n / 16, (count - 1) as nat);
        assert(text.drop_last() =~= less);
        assert(digit_value(text.last(), 16) == Some((n % 16) as int));
        assert forall|i: int| 0 <= i < count implies digit_value(#[trigger] text[i], 16) is Some by {
            if i < count - 1 {
                assert(text[i] == less[i]);
            }
        }
    }
}

/// A colour is read as it is written: six digits are its red, green and blue, and it is opaque; the last
/// two of eight are its opacity.
pub proof fn lemma_colors_are_read(n: u32)
    ensures
        n < 0x100_0000 ==> (color_of(seq!['#'] + hex_text(n as nat, 6)) matches Some(color) && color
            == n * 256 + 255),
        color_of(seq!['#'] + hex_text(n as nat, 8)) == Some(n),
        color_of(hex_text(n as nat, 8)) is None,
{
    reveal_strlit("0123456789ABCDEF");
    assert(sixteens(6) == 0x100_0000 && sixteens(8) == 0x1_0000_0000) by {
        reveal_with_fuel(sixteens, 9);
    }
    let eight = hex_text(n as nat, 8);
    lemma_hex_is_read_back(n as nat, 8);
    let text = seq!['#'] + eight;
    assert(text.subrange(1, 9) =~= eight);
    assert(digit_value(eight[0], 16) is Some);
    assert(digit_value('+', 16) is None && digit_value('#', 16) is None);
    assert(text[1] == eight[0]);
    if n < 0x100_0000 {
        let six = hex_text(n as nat, 6);
        lemma_hex_is_read_back(n as nat, 6);
        let text = seq!['#'] + six;
        assert(text.subrange(1, 7) =~= six);
        assert(digit_value(six[0], 16) is Some);
        assert(text[1] == six[0]);
    }
}

/// Whether a text is digits alone.
pub open spec fn all_digits(s: Seq<char>) -> bool {
    s.len() > 0 && forall|i: int| 0 <= i < s.len() ==> is_digit(#[trigger] s[i])
}

/// Digits are a number, with a sign in front, with a point and more digits behind, and with an exponent;
/// a text with any other character in it is none, unless it names infinity or no number.
pub proof fn lemma_numbers_are_read(a: Seq<char>, b: Seq<char>)
    requires
        all_digits(a),
        all_digits(b),
    ensures
        is_float_text(a),
        is_float_text(seq!['-'] + a),
        is_float_text(a + seq!['.'] + b),
        is_float_text(a + seq!['e'] + b),
        !is_float_text(a + seq!['.'] + b + seq!['.'] + a),
        !is_float_text(a + seq!['p'] + b),
        !is_float_text(seq!['.']),
{
    reveal_strlit("inf");
    reveal_strlit("infinity");
    reveal_strlit("nan");
    lemma_no_exponent(a);
    assert(is_digit(a[0]) && is_digit(b[0]));
    assert(unsigned(a) =~= a);
    let negative = seq!['-'] + a;
    assert(unsigned(negative) =~= a);
    let point = a + seq!['.'] + b;
    assert(point[0] == a[0]);
    assert(unsigned(point) =~= point);
    assert forall|i: int| 0 <= i < point.len() implies is_digit(#[trigger] point[i]) || point[i] == '.'
        by {
        if i < a.len() {
            assert(point[i] == a[i]);
        } else if i > a.len() {
            assert(point[i] == b[i - a.len() - 1]);
        }
    }
    lemma_no_exponent(point);
    assert forall|i: int, j: int| 0 <= i < j < point.len() implies !(#[trigger] point[i] == '.'
        && #[trigger] point[j] == '.') by {
        if i < a.len() {
            assert(point[i] == a[i]);
        } else {
            assert(point[j] == b[j - a.len() - 1]);
        }
    }
    assert(is_mantissa(point));
    let power = a + seq!['e'] + b;
    assert(power[0] == a[0]);
    assert(unsigned(power) =~= power);
    lemma_exponent_behind(a, b);
    assert(power.take(a.len() as int) =~= a);
    assert(power.skip((a.len() + 1) as int) =~= b);
    assert(unsigned(b) =~= b);
    assert(is_exponent(b));
    let twice = a + seq!['.'] + b + seq!['.'] + a;
    assert(twice[0] == a[0]);
    assert(unsigned(twice) =~= twice);
    assert forall|i: int| 0 <= i < twice.len() implies is_digit(#[trigger] twice[i]) || twice[i] == '.'
        by {
        if i < a.len() {
            assert(twice[i] == a[i]);
        } else if a.len() < i < a.len() + 1 + b.len() {
            assert(twice[i] == b[i - a.len() - 1]);
        } else if i > a.len() + 1 + b.len() {
            assert(twice[i] == a[i - a.len() - 2 - b.len()]);
        }
    }
    lemma_no_exponent(twice);
    assert(twice[a.len() as int] == '.' && twice[(a.len() + 1 + b.len()) as int] == '.');
    assert(!is_mantissa(twice));
    lemma_no_name(twice);
    let unit = a + seq!['p'] + b;
    assert(unit[0] == a[0]);
    assert(unsigned(unit) =~= unit);
    lemma_no_name(unit);
    assert forall|i: int| 0 <= i < unit.len() implies #[trigger] unit[i] != 'e' && unit[i] != 'E' by {
        if i < a.len() {
            assert(unit[i] == a[i]);
        } else if i > a.len() {
            assert(unit[i] == b[i - a.len() - 1]);
        }
    }
    lemma_no_letter(unit);
    assert(unit[a.len() as int] == 'p');
    assert(!is_mantissa(unit));
    let lone = seq!['.'];
    assert(unsigned(lone) =~= lone);
    assert forall|i: int| 0 <= i < lone.len() implies #[trigger] lone[i] != 'e' && lone[i] != 'E' by {
    }
    lemma_no_letter(lone);
    lemma_no_name(lone);
    assert(!is_mantissa(lone));
}

proof fn lemma_no_name(s: Seq<char>)
    requires
        s.len() > 0,
        is_digit(s[0]) || s[0] == '.',
    ensures
        ascii_lower(s) != "inf"@,
        ascii_lower(s) != "infinity"@,
        ascii_lower(s) != "nan"@,
{
    reveal_strlit("inf");
    reveal_strlit("infinity");
    reveal_strlit("nan");
    assert(ascii_lower(s)[0] == s[0]);
}

proof fn lemma_no_letter(s: Seq<char>)
    requires
        forall|i: int| 0 <= i < s.len() ==> #[trigger] s[i] != 'e' && s[i] != 'E',
    ensures
        exponent_place(s) == s.len(),
    decreases s.len(),
{
    if s.len() > 0 {
        let rest = s.drop_first();
        assert forall|i: int| 0 <= i < rest.len() implies #[trigger] rest[i] != 'e' && rest[i]
            != 'E' by {
            assert(rest[i] == s[i + 1]);
        }
        lemma_no_letter(rest);
    }
}

proof fn lemma_no_exponent(s: Seq<char>)
    requires
        forall|i: int| 0 <= i < s.len() ==> is_digit(#[trigger] s[i]) || s[i] == '.',
    ensures
        exponent_place(s) == s.len(),
{
    assert forall|i: int| 0 <= i < s.len() implies #[trigger] s[i] != 'e' && s[i] != 'E' by {
    }
    lemma_no_letter(s);
}

proof fn lemma_exponent_behind(a: Seq<char>, b: Seq<char>)
    requires
        forall|i: int| 0 <= i < a.len() ==> is_digit(#[trigger] a[i]),
    ensures
        exponent_place(a + seq!['e'] + b) == a.len(),
    decreases a.len(),
{
    let whole = a + seq!['e'] + b;
    if a.len() > 0 {
        let rest = a.drop_first();
        assert forall|i: int| 0 <= i < rest.len() implies is_digit(#[trigger] rest[i]) by {
            assert(rest[i] == a[i + 1]);
        }
        lemma_exponent_behind(rest, b);
        assert(whole[0] == a[0]);
        assert(whole.drop_first() =~= rest + seq!['e'] + b);
    }
}

/// How a unit is written.
pub open spec fn unit_text(unit: LengthUnit) -> Seq<char> {
    match unit {
        LengthUnit::Percent => seq!['%'],
        LengthUnit::Px => seq!['p', 'x'],
        LengthUnit::Vh => seq!['v', 'h'],
        LengthUnit::Svh => seq!['s', 'v', 'h'],
        LengthUnit::Vw => seq!['v', 'w'],
        LengthUnit::Em => seq!['e', 'm'],
        LengthUnit::Rem => seq!['r', 'e', 'm'],
    }
}

/// A number and a unit behind it are a length of that unit, with the number as it is written.
pub proof fn lemma_lengths_are_read(number: Seq<char>, unit: LengthUnit)
    requires
        is_float_text(number),
        number.len() > 0,
        forall|i: int| 0 <= i < number.len() ==> is_digit(#[trigger] number[i]) || number[i] == '.',
    ensures
        size_of_text(number + unit_text(unit)) == Some(SizeModel::Length(unit, number)),
        size_of_text(number) is None,
{
    reveal_strlit("auto");
    reveal_strlit("fit-content");
    reveal_strlit("min-content");
    reveal_strlit("max-content");
    reveal_strlit("calc(");
    reveal_strlit("clamp(");
    reveal_strlit(")");
    reveal_strlit("%");
    reveal_strlit("px");
    reveal_strlit("svh");
    reveal_strlit("vh");
    reveal_strlit("vw");
    reveal_strlit("rem");
    reveal_strlit("em");
    let s = number + unit_text(unit);
    let n = number.len() as int;
    assert(is_digit(number[n - 1]) || number[n - 1] == '.');
    assert(s.last() == unit_text(unit).last());
    assert(s[s.len() - 2] == if unit_text(unit).len() > 1 {
        unit_text(unit)[unit_text(unit).len() - 2]
    } else {
        number[n - 1]
    });
    assert(unit_text(unit).len() == 2 ==> s[s.len() - 3] == number[n - 1]);
    assert(s.take(n) =~= number);
    lemma_last_letters(s, ")"@);
    lemma_last_letters(s, "%"@);
    lemma_last_letters(s, "px"@);
    lemma_last_letters(s, "svh"@);
    lemma_last_letters(s, "vh"@);
    lemma_last_letters(s, "vw"@);
    lemma_last_letters(s, "rem"@);
    lemma_last_letters(s, "em"@);
    assert(unit_text(unit) =~= s.skip(n));
    assert("%"@ =~= seq!['%']);
    assert("px"@ =~= seq!['p', 'x']);
    assert("svh"@ =~= seq!['s', 'v', 'h']);
    assert("vh"@ =~= seq!['v', 'h']);
    assert("vw"@ =~= seq!['v', 'w']);
    assert("rem"@ =~= seq!['r', 'e', 'm']);
    assert("em"@ =~= seq!['e', 'm']);
    assert(length_of_text(s) == Some((unit, number)));
    assert(inside(s, "calc("@) is None && inside(s, "clamp("@) is None);
    lemma_last_letters(number, ")"@);
    lemma_last_letters(number, "%"@);
    lemma_last_letters(number, "px"@);
    lemma_last_letters(number, "svh"@);
    lemma_last_letters(number, "vh"@);
    lemma_last_letters(number, "vw"@);
    lemma_last_letters(number, "rem"@);
    lemma_last_letters(number, "em"@);
    assert(length_of_text(number) is None);
}

proof fn lemma_last_letters(s: Seq<char>, suffix: Seq<char>)
    requires
        suffix.len() > 0,
    ensures
        ends(s, suffix) ==> {
            &&& s.len() >= suffix.len()
            &&& s.last() == suffix.last()
            &&& suffix.len() > 1 ==> s[s.len() - 2] == suffix[suffix.len() - 2]
            &&& suffix.len() > 2 ==> s[s.len() - 3] == suffix[suffix.len() - 3]
        },
{
    if ends(s, suffix) {
        let tail = s.skip(s.len() - suffix.len());
        assert(tail.last() == s.last());
        assert(suffix.len() > 1 ==> tail[suffix.len() - 2] == s[s.len() - 2]);
        assert(suffix.len() > 2 ==> tail[suffix.len() - 3] == s[s.len() - 3]);
    }
}

/// The signs of a calculation do what they stand for.
pub proof fn lemma_signs(a: int, b: int)
    ensures
        calc_of_piece(seq!['+']) matches Some(CalcModel::Operator(sign)) && applied(sign, a, b) == a
            + b,
        calc_of_piece(seq!['-']) matches Some(CalcModel::Operator(sign)) && applied(sign, a, b) == a
            - b,
        calc_of_piece(seq!['*']) matches Some(CalcModel::Operator(sign)) && applied(sign, a, b) == a
            * b,
        calc_of_piece(seq!['/']) matches Some(CalcModel::Operator(sign)) && (a >= 0 && b > 0
            ==> applied(sign, a, b) == a / b),
{
    reveal_strlit("+");
    reveal_strlit("-");
    reveal_strlit("*");
    reveal_strlit("/");
    assert("+"@ =~= seq!['+']);
    assert("-"@ =~= seq!['-']);
    assert("*"@ =~= seq!['*']);
    assert("/"@ =~= seq!['/']);
    assert(seq!['-'][0] != seq!['+'][0]);
    assert(seq!['*'][0] != seq!['+'][0] && seq!['*'][0] != seq!['-'][0]);
    assert(seq!['/'][0] != seq!['+'][0] && seq!['/'][0] != seq!['-'][0] && seq!['/'][0]
        != seq!['*'][0]);
}

/// The words for free space put it where they say, whatever there is of it.
pub proof fn lemma_words_for_free_space(free: u32, count: nat)
    requires
        count > 0,
    ensures
        ({
            let (start, between) = justified(justify_of("flex-start"@), free, count);
            start == 0 && between == 0
        }),
        justified(justify_of("start"@), free, count) == justified(
            justify_of("flex-start"@),
            free,
            count,
        ),
        ({
            let (start, between) = justified(justify_of("flex-end"@), free, count);
            start == free && between == 0
        }),
        justified(justify_of("end"@), free, count) == justified(
            justify_of("flex-end"@),
            free,
            count,
        ),
        ({
            let (start, between) = justified(justify_of("center"@), free, count);
            between == 0 && 2 * start <= free <= 2 * start + 1
        }),
        ({
            let (start, between) = justified(justify_of("space-between"@), free, count);
            start == 0 && (count > 1 ==> between * (count - 1) <= free && free - between * (count
                - 1) < count - 1)
        }),
        ({
            let (start, between) = justified(justify_of("space-around"@), free, count);
            2 * start <= between <= 2 * start + 1 && free - start - between * (count - 1) >= start
        }),
        ({
            let (start, between) = justified(justify_of("space-evenly"@), free, count);
            start == between && free - start - between * (count - 1) >= between
        }),
{
    reveal_strlit("flex-start");
    reveal_strlit("start");
    reveal_strlit("flex-end");
    reveal_strlit("end");
    reveal_strlit("center");
    reveal_strlit("space-between");
    reveal_strlit("space-around");
    reveal_strlit("space-evenly");
    reveal_strlit("stretch");
    assert("flex-end"@[5] != "flex-start"@[5]);
    assert("space-between"@[6] != "space-around"@[6]);
    assert("space-evenly"@[6] != "space-around"@[6]);
    assert("center"@[0] != "stretch"@[0]);
    assert("flex-end"@.len() == 8 && "space-evenly"@.len() == 12 && "space-around"@.len() == 12);
    assert("space-between"@.len() == 13 && "center"@.len() == 6 && "end"@.len() == 3);
    assert("flex-start"@.len() == 10 && "start"@.len() == 5 && "stretch"@.len() == 7);
    lemma_space_is_spread(justify_of("flex-start"@), free, count);
    lemma_space_is_spread(justify_of("flex-end"@), free, count);
    lemma_space_is_spread(justify_of("center"@), free, count);
    lemma_space_is_spread(justify_of("space-between"@), free, count);
    lemma_space_is_spread(justify_of("space-around"@), free, count);
    lemma_space_is_spread(justify_of("space-evenly"@), free, count);
}

} // verus!
