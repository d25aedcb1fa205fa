//! Sizes and the arithmetic on them that `calc` writes.
use vstd::prelude::*;

use crate::boxes::in_i32;
use crate::text::from_chars;
use crate::text::texts_of;
use crate::text::to_chars;

verus! {

/// The pieces that have ended, the piece that goes on and the depth of open parentheses.
pub struct SplitState {
    pub list: Seq<Seq<char>>,
    pub buffer: Seq<char>,
    pub depth: int,
}

/// The state of splitting after one more character.
pub open spec fn split_step(
    state: SplitState,
    c: char,
    separator: char,
    keep: Seq<char>,
) -> SplitState {
    if c == '(' {
        SplitState { buffer: state.buffer.push(c), depth: state.depth + 1, ..state }
    } else if c == ')' {
        SplitState { buffer: state.buffer.push(c), depth: state.depth - 1, ..state }
    } else if state.depth == 0 && c == separator {
        SplitState { list: state.list.push(state.buffer), buffer: Seq::empty(), ..state }
    } else if state.depth == 0 && keep.contains(c) {
        SplitState {
            list: (if state.buffer.len() > 0 {
                state.list.push(state.buffer)
            } else {
                state.list
            }).push(seq![c]),
            buffer: Seq::empty(),
            ..state
        }
    } else {
        SplitState { buffer: state.buffer.push(c), ..state }
    }
}

pub open spec fn split_state(s: Seq<char>, separator: char, keep: Seq<char>) -> SplitState
    decreases s.len(),
{
    if s.len() == 0 {
        SplitState { list: Seq::empty(), buffer: Seq::empty(), depth: 0 }
    } else {
        split_step(split_state(s.drop_last(), separator, keep), s.last(), separator, keep)
    }
}

/// The pieces of a text between separators that stand outside of parentheses. A kept character
/// outside of parentheses ends a piece too and is a piece itself. An empty piece before a separator
/// counts; an empty rest does not.
pub open spec fn split_outside(s: Seq<char>, separator: char, keep: Seq<char>) -> Seq<Seq<char>> {
    let end = split_state(s, separator, keep);
    if end.buffer.len() > 0 {
        end.list.push(end.buffer)
    } else {
        end.list
    }
}

fn is_kept(keep: &[char], c: char) -> (r: bool)
    ensures
        r == keep@.contains(c),
{
    let mut at: usize = 0;
    while at < keep.len()
        invariant
            at <= keep@.len(),
            forall|i: int| 0 <= i < at ==> keep@[i] != c,
        decreases keep@.len() - at,
    {
        if keep[at] == c {
            assert(keep@[at as int] == c);
            return true;
        }
        at = at + 1;
    }
    false
}

/// Splits a text at separators that stand outside of parentheses.
pub fn split_ignoring_parentheses(input: &str, separator: char, keep: &[char]) -> (r: Vec<String>)
    ensures
        texts_of(r@) == split_outside(input@, separator, keep@),
{
    let chars = to_chars(input);
    let len: usize = chars.len();
    let mut list: Vec<String> = Vec::new();
    let mut buffer: Vec<char> = Vec::new();
    let mut depth: i128 = 0;
    let mut at: usize = 0;
    assert(texts_of(list@) =~= Seq::empty());
    assert(buffer@ =~= Seq::empty());
    while at < len
        invariant
            at <= len,
            len == chars@.len(),
            -at <= depth <= at,
            split_state(chars@.take(at as int), separator, keep@) == (SplitState {
                list: texts_of(list@),
                buffer: buffer@,
                depth: depth as int,
            }),
        decreases len - at,
    {
        let c: char = chars[at];
        let ghost before = texts_of(list@);
        assert(chars@.take(at + 1).drop_last() =~= chars@.take(at as int));
        if c == '(' {
            depth = depth + 1;
            buffer.push(c);
        } else if c == ')' {
            depth = depth - 1;
            buffer.push(c);
        } else if depth == 0 && c == separator {
            list.push(from_chars(&buffer));
            assert(texts_of(list@) =~= before.push(buffer@));
            buffer = Vec::new();
            assert(buffer@ =~= Seq::empty());
        } else if depth == 0 && is_kept(keep, c) {
            if buffer.len() > 0 {
                list.push(from_chars(&buffer));
                assert(texts_of(list@) =~= before.push(buffer@));
                buffer = Vec::new();
            }
            let ghost ended = texts_of(list@);
            let mut kept: Vec<char> = Vec::new();
            kept.push(c);
            assert(kept@ =~= seq![c]);
            list.push(from_chars(&kept));
            assert(texts_of(list@) =~= ended.push(seq![c]));
            assert(buffer@ =~= Seq::empty());
        } else {
            buffer.push(c);
        }
        at = at + 1;
    }
    assert(chars@.take(len as int) =~= chars@);
    if buffer.len() > 0 {
        let ghost before = texts_of(list@);
        list.push(from_chars(&buffer));
        assert(texts_of(list@) =~= before.push(buffer@));
    }
    list
}

/// The nearest multiple of `unit`, the even one of two.
pub open spec fn rounded_to(value: int, unit: int) -> int {
    let whole = value / unit;
    let rest = value % unit;
    if 2 * rest > unit || (2 * rest == unit && whole % 2 == 1) {
        (whole + 1) * unit
    } else {
        whole * unit
    }
}

/// The distance of neighbouring numbers of single precision at a positive whole number.
pub open spec fn single_unit(value: int) -> int
    decreases value,
{
    if value < 0x100_0000 {
        1
    } else {
        2 * single_unit(value / 2)
    }
}

/// The nearest whole number that single precision can hold.
pub open spec fn to_single(value: int) -> int {
    if value < 0 {
        -rounded_to(-value, single_unit(-value))
    } else {
        rounded_to(value, single_unit(value))
    }
}

/// A whole number held in the range of `i32`.
pub open spec fn clamp_i32(value: int) -> int {
    if value < i32::MIN {
        i32::MIN as int
    } else if value > i32::MAX {
        i32::MAX as int
    } else {
        value
    }
}

pub proof fn lemma_single_unit(value: int)
    requires
        0 <= value,
    ensures
        1 <= single_unit(value) <= value + 1,
        value >= 1 ==> single_unit(value) <= value,
    decreases value,
{
    if value >= 0x100_0000 {
        lemma_single_unit(value / 2);
    }
}

/// Numbers that single precision holds exactly stay as they are.
pub proof fn lemma_small_numbers_are_exact(value: int)
    requires
        -0x100_0000 < value < 0x100_0000,
    ensures
        to_single(value) == value,
{
}

fn single_magnitude(value: u128) -> (r: u128)
    requires
        value <= MAX_ROUNDED,
    ensures
        r == rounded_to(value as int, single_unit(value as int)),
        r <= 2 * value + 1,
{
    let mut unit: u128 = 1;
    let mut rest: u128 = value;
    while rest >= 0x100_0000
        invariant
            value <= MAX_ROUNDED,
            1 <= unit,
            rest <= value,
            unit * rest <= value,
            unit * single_unit(rest as int) == single_unit(value as int),
        decreases rest,
    {
        let ghost before = unit;
        assert(unit <= value) by (nonlinear_arith)
            requires
                unit * rest <= value,
                rest >= 1,
        ;
        assert((2 * unit) * (rest / 2) <= value) by (nonlinear_arith)
            requires
                unit * rest <= value,
                unit >= 1,
        ;
        assert((2 * unit) * single_unit((rest / 2) as int) == unit * (2 * single_unit(
            (rest / 2) as int,
        ))) by (nonlinear_arith);
        unit = unit * 2;
        rest = rest / 2;
    }
    assert(single_unit(rest as int) == 1);
    assert(unit * 1 == unit) by (nonlinear_arith);
    let whole: u128 = value / unit;
    let over: u128 = value % unit;
    proof {
        lemma_single_unit(value as int);
        assert(whole * unit <= value) by (nonlinear_arith)
            requires
                whole == value / unit,
                unit >= 1,
        ;
        assert(unit <= value + 1);
        assert((whole + 1) * unit == whole * unit + unit) by (nonlinear_arith);
    }
    if 2 * over > unit || (2 * over == unit && whole % 2 == 1) {
        (whole + 1) * unit
    } else {
        whole * unit
    }
}

/// The largest number that is rounded here.
pub const MAX_ROUNDED: u128 = 0xfff_ffff_ffff_ffff_ffff_ffff_ffff_ffff;

/// The nearest whole number that single precision can hold.
pub fn round_to_single(value: i128) -> (r: i128)
    requires
        -MAX_ROUNDED <= value <= MAX_ROUNDED,
    ensures
        r == to_single(value as int),
        value >= 0 ==> 0 <= r <= 2 * value + 1,
        value < 0 ==> 2 * value - 1 <= r <= 0,
{
    if value < 0 {
        let magnitude: u128 = single_magnitude((-value) as u128);
        -(magnitude as i128)
    } else {
        let magnitude: u128 = single_magnitude(value as u128);
        magnitude as i128
    }
}

fn saturate(value: i128) -> (r: i32)
    ensures
        r == clamp_i32(value as int),
{
    if value < i32::MIN as i128 {
        i32::MIN
    } else if value > i32::MAX as i128 {
        i32::MAX
    } else {
        value as i32
    }
}

#[derive(Debug, Clone, Copy, PartialEq, Eq, Structural)]
pub enum StyleCalcOperator {
    Plus,
    Minus,
    Divide,
    Multiply,
}

/// The part `numerator / 2^halvings` of something, which is how single precision holds the
/// hundredth of a percentage.
#[derive(Debug, Clone, Copy, PartialEq, Eq, Structural)]
pub struct Share {
    pub numerator: i32,
    pub halvings: u8,
}

/// A number halved several times, each time without its fraction.
pub open spec fn halved(value: int, times: nat) -> int
    decreases times,
{
    if times == 0 {
        value
    } else {
        halved(truncated_quotient(value, 2), (times - 1) as nat)
    }
}

/// A share of a size in pixels: the product in single precision, without its fraction.
pub open spec fn share_value(available: u32, share: Share) -> int {
    clamp_i32(
        halved(
            to_single(to_single(available as int) * share.numerator),
            share.halvings as nat,
        ),
    )
}

/// A size with its numbers resolved to pixels as far as they do not depend on the container.
#[derive(Debug)]
pub enum SizeTerm {
    Auto,
    /// Pixels, with the fraction cut off.
    Px(i32),
    /// Another length in pixels; nothing where it cannot be known.
    Resolved(Option<i32>),
    /// A share of the available size.
    Share(Share),
    /// Hundredths of the height of the window.
    ViewportHeight(i32),
    /// Hundredths of the width of the window.
    ViewportWidth(i32),
    Clamp { min: Box<SizeTerm>, value: Box<SizeTerm>, max: Box<SizeTerm> },
    Calc(Vec<CalcTerm>),
    /// The size is the one of the content.
    Content,
}

#[derive(Debug)]
pub enum CalcTerm {
    Size(SizeTerm),
    Operator(StyleCalcOperator),
    Nesting(Vec<CalcTerm>),
    /// A number without a unit, or an intermediate result.
    Solved(i32),
}

#[derive(Debug, Clone, Copy, PartialEq, Eq, Structural)]
pub enum SizeUnit {
    Px,
    Em,
}

/// What sizes depend on.
#[derive(Debug, Clone, Copy, PartialEq, Eq, Structural)]
pub struct SizeContext {
    pub font_size: u32,
    pub available_size: Option<u32>,
    pub auto_size: Option<i32>,
    pub window_width: u32,
    pub window_height: u32,
    pub default_unit: SizeUnit,
}

#[derive(Debug, Clone, Copy, PartialEq, Eq, Structural)]
pub enum CalcError {
    /// A number left the range of `i32`.
    Overflow,
    /// An operator stands where a value is expected.
    NotAValue,
}

/// A term of the list that is being solved: one of the given terms, or an intermediate result.
#[derive(Debug, Clone, Copy, PartialEq, Eq, Structural)]
pub enum CalcSlot {
    Term(usize),
    Solved(i32),
}

/// The quotient without its fraction.
pub open spec fn truncated_quotient(value: int, divisor: int) -> int {
    if value < 0 {
        -((-value) / divisor)
    } else {
        value / divisor
    }
}

pub open spec fn applied(operator: StyleCalcOperator, a: int, b: int) -> int {
    match operator {
        StyleCalcOperator::Plus => a + b,
        StyleCalcOperator::Minus => a - b,
        StyleCalcOperator::Divide => truncated_quotient(
            a,
            if b < 1 {
                1
            } else {
                b
            },
        ),
        StyleCalcOperator::Multiply => a * b,
    }
}

pub open spec fn slot_operator(terms: Seq<CalcTerm>, slot: CalcSlot) -> Option<StyleCalcOperator> {
    match slot {
        CalcSlot::Term(k) => if k < terms.len() {
            match terms[k as int] {
                CalcTerm::Operator(operator) => Some(operator),
                _ => None,
            }
        } else {
            None
        },
        CalcSlot::Solved(_) => None,
    }
}

/// Whether a slot is a multiplication or division, or, where `strong` is not set, an addition or
/// subtraction.
pub open spec fn is_operator(terms: Seq<CalcTerm>, slot: CalcSlot, strong: bool) -> bool {
    match slot_operator(terms, slot) {
        Some(StyleCalcOperator::Multiply) | Some(StyleCalcOperator::Divide) => strong,
        Some(StyleCalcOperator::Plus) | Some(StyleCalcOperator::Minus) => !strong,
        None => false,
    }
}

/// The first operator of a strength from a place on; the length where there is none.
pub open spec fn operator_from(
    terms: Seq<CalcTerm>,
    slots: Seq<CalcSlot>,
    strong: bool,
    from: int,
) -> int
    decreases slots.len() - from,
{
    if from < 0 || from >= slots.len() {
        slots.len() as int
    } else if is_operator(terms, slots[from], strong) {
        from
    } else {
        operator_from(terms, slots, strong, from + 1)
    }
}

/// The operator to solve next: the first multiplication or division, else the first addition or
/// subtraction; the length where there is none.
pub open spec fn next_operator(terms: Seq<CalcTerm>, slots: Seq<CalcSlot>) -> int {
    let strong = operator_from(terms, slots, true, 0);
    if strong < slots.len() {
        strong
    } else {
        operator_from(terms, slots, false, 0)
    }
}

/// An operator and its neighbours are replaced by their value.
pub open spec fn spliced(slots: Seq<CalcSlot>, at: int, value: int) -> Seq<CalcSlot> {
    slots.take(at - 1).push(CalcSlot::Solved(clamp_i32(to_single(value)) as i32)) + slots.skip(
        at + 2,
    )
}

/// The value of a size in pixels; nothing where it cannot be known.
pub open spec fn size_value(size: SizeTerm, context: SizeContext) -> Result<
    Option<int>,
    CalcError,
>
    decreases size, 0int, 0nat,
{
    match size {
        SizeTerm::Auto => Ok(
            match context.auto_size {
                Some(value) => Some(value as int),
                None => None,
            },
        ),
        SizeTerm::Px(value) => Ok(Some(value as int)),
        SizeTerm::Resolved(value) => Ok(
            match value {
                Some(value) => Some(value as int),
                None => None,
            },
        ),
        SizeTerm::Share(share) => Ok(
            match context.available_size {
                Some(available) => Some(share_value(available, share)),
                None => None,
            },
        ),
        SizeTerm::ViewportHeight(value) => viewport_share(context.window_height, value),
        SizeTerm::ViewportWidth(value) => viewport_share(context.window_width, value),
        SizeTerm::Clamp { min, value, max } => match size_value(*min, context) {
            Err(error) => Err(error),
            Ok(None) => Ok(None),
            Ok(Some(low)) => match size_value(*value, context) {
                Err(error) => Err(error),
                Ok(None) => Ok(None),
                Ok(Some(wanted)) => match size_value(*max, context) {
                    Err(error) => Err(error),
                    Ok(None) => Ok(None),
                    Ok(Some(high)) => Ok(
                        Some(
                            {
                                let capped = if wanted < high {
                                    wanted
                                } else {
                                    high
                                };
                                if capped < low {
                                    low
                                } else {
                                    capped
                                }
                            },
                        ),
                    ),
                },
            },
        },
        SizeTerm::Calc(terms) => solved(terms@, context),
        SizeTerm::Content => Ok(None),
    }
}

/// A share of the window in hundredths.
pub open spec fn viewport_share(extent: u32, hundredths: i32) -> Result<Option<int>, CalcError> {
    let product = (extent as i32) * hundredths;
    if in_i32(product) {
        Ok(Some(truncated_quotient(product, 100)))
    } else {
        Err(CalcError::Overflow)
    }
}

/// The value of a term.
pub open spec fn term_value(term: CalcTerm, context: SizeContext) -> Result<Option<int>, CalcError>
    decreases term, 1int, 0nat,
{
    match term {
        CalcTerm::Size(size) => size_value(size, context),
        CalcTerm::Nesting(terms) => solved(terms@, context),
        CalcTerm::Solved(value) => Ok(Some(value as int)),
        CalcTerm::Operator(_) => Err(CalcError::NotAValue),
    }
}

pub open spec fn slot_value(
    terms: Seq<CalcTerm>,
    slot: CalcSlot,
    context: SizeContext,
) -> Result<Option<int>, CalcError>
    decreases terms, 1int, 0nat,
{
    match slot {
        CalcSlot::Term(k) => if k < terms.len() {
            term_value(terms[k as int], context)
        } else {
            Err(CalcError::NotAValue)
        },
        CalcSlot::Solved(value) => Ok(Some(value as int)),
    }
}

/// What is left when no operator stands between two terms any more. Nothing where a value cannot
/// be known.
pub open spec fn reduced(
    terms: Seq<CalcTerm>,
    slots: Seq<CalcSlot>,
    context: SizeContext,
) -> Result<Option<Seq<CalcSlot>>, CalcError>
    decreases terms, 2int, slots.len(),
{
    let at = next_operator(terms, slots);
    if slots.len() <= 1 || at <= 0 || at >= slots.len() - 1 {
        Ok(Some(slots))
    } else {
        match slot_value(terms, slots[at - 1], context) {
            Err(error) => Err(error),
            Ok(None) => Ok(None),
            Ok(Some(a)) => match slot_value(terms, slots[at + 1], context) {
                Err(error) => Err(error),
                Ok(None) => Ok(None),
                Ok(Some(b)) => {
                    let value = applied(slot_operator(terms, slots[at])->0, a, b);
                    if in_i32(value) {
                        reduced(terms, spliced(slots, at, value), context)
                    } else {
                        Err(CalcError::Overflow)
                    }
                },
            },
        }
    }
}

pub open spec fn all_slots(count: nat) -> Seq<CalcSlot> {
    Seq::new(count, |i: int| CalcSlot::Term(i as usize))
}

/// Whether one of the terms has a unit.
pub open spec fn has_unit(terms: Seq<CalcTerm>) -> bool {
    exists|i: int| 0 <= i < terms.len() && (#[trigger] terms[i]) is Size
}

/// The value of what is left: a number, or pixels.
pub open spec fn single_value(terms: Seq<CalcTerm>, slots: Seq<CalcSlot>) -> Option<int> {
    if slots.len() != 1 {
        None
    } else {
        match slots[0] {
            CalcSlot::Solved(value) => Some(value as int),
            CalcSlot::Term(k) => if k < terms.len() {
                match terms[k as int] {
                    CalcTerm::Solved(value) => Some(value as int),
                    CalcTerm::Size(SizeTerm::Px(value)) => Some(value as int),
                    _ => None,
                }
            } else {
                None
            },
        }
    }
}

/// A number without a unit in pixels.
pub open spec fn unit_to_px(value: int, context: SizeContext) -> int {
    match context.default_unit {
        SizeUnit::Px => clamp_i32(to_single(value)),
        SizeUnit::Em => clamp_i32(
            to_single(to_single(value) * to_single(context.font_size as int)),
        ),
    }
}

/// The value of a list of terms in pixels; nothing where it cannot be known. Multiplications and
/// divisions are solved before additions and subtractions, each from left to right. Every result
/// goes through single precision.
pub open spec fn solved(terms: Seq<CalcTerm>, context: SizeContext) -> Result<
    Option<int>,
    CalcError,
>
    decreases terms, 3int, 0nat,
{
    match reduced(terms, all_slots(terms.len()), context) {
        Err(error) => Err(error),
        Ok(None) => Ok(None),
        Ok(Some(slots)) => match single_value(terms, slots) {
            None => Ok(None),
            Some(value) => Ok(
                Some(
                    if has_unit(terms) {
                        value
                    } else {
                        unit_to_px(value, context)
                    },
                ),
            ),
        },
    }
}

fn truncate_quotient(value: i64, divisor: i64) -> (r: i64)
    requires
        -0x8000_0000_0000 <= value <= 0x8000_0000_0000,
        1 <= divisor,
    ensures
        r == truncated_quotient(value as int, divisor as int),
{
    if value < 0 {
        let magnitude: i64 = -value;
        let quotient: i64 = magnitude / divisor;
        assert(0 <= quotient <= magnitude) by (nonlinear_arith)
            requires
                quotient == magnitude / divisor,
                divisor >= 1,
                magnitude >= 0,
        ;
        -quotient
    } else {
        value / divisor
    }
}

/// Whether a result agrees with its model.
pub open spec fn same_value(
    r: Result<Option<i32>, CalcError>,
    model: Result<Option<int>, CalcError>,
) -> bool {
    match (r, model) {
        (Err(a), Err(b)) => a == b,
        (Ok(None), Ok(None)) => true,
        (Ok(Some(a)), Ok(Some(b))) => a == b,
        _ => false,
    }
}

/// A share of a size in pixels.
pub fn share_of(available: u32, share: Share) -> (r: i32)
    ensures
        r == share_value(available, share),
{
    let whole: i128 = round_to_single(available as i128);
    proof {
        lemma_single_bound(available as int);
        assert(-0x1_0000_0000 * 0x8000_0000 <= whole * share.numerator <= 0x1_0000_0000
            * 0x8000_0000) by (nonlinear_arith)
            requires
                0 <= whole <= 0x1_0000_0000,
                -0x8000_0000 <= share.numerator <= 0x7fff_ffff,
        ;
    }
    let mut value: i128 = round_to_single(whole * share.numerator as i128);
    let ghost product = value as int;
    let mut left: u8 = share.halvings;
    while left > 0
        invariant
            halved(value as int, left as nat) == halved(product, share.halvings as nat),
            -0x1_ffff_ffff_ffff_ffff <= value <= 0x1_ffff_ffff_ffff_ffff,
        decreases left,
    {
        value = if value < 0 {
            -((-value) / 2)
        } else {
            value / 2
        };
        left = left - 1;
    }
    saturate(value)
}

fn share_of_viewport(extent: u32, hundredths: i32) -> (r: Result<Option<i32>, CalcError>)
    ensures
        same_value(r, viewport_share(extent, hundredths)),
{
    let extent: i32 = extent as i32;
    match extent.checked_mul(hundredths) {
        None => Err(CalcError::Overflow),
        Some(product) => {
            let share: i64 = truncate_quotient(product as i64, 100);
            Ok(Some(share as i32))
        },
    }
}

/// The value of a size in pixels; nothing where it cannot be known.
pub fn get_specified_size(size: &SizeTerm, context: &SizeContext) -> (r: Result<
    Option<i32>,
    CalcError,
>)
    ensures
        same_value(r, size_value(*size, *context)),
    decreases *size, 0int,
{
    match size {
        SizeTerm::Auto => Ok(context.auto_size),
        SizeTerm::Px(value) => Ok(Some(*value)),
        SizeTerm::Resolved(value) => Ok(*value),
        SizeTerm::Share(share) => match context.available_size {
            Some(available) => Ok(Some(share_of(available, *share))),
            None => Ok(None),
        },
        SizeTerm::ViewportHeight(value) => share_of_viewport(context.window_height, *value),
        SizeTerm::ViewportWidth(value) => share_of_viewport(context.window_width, *value),
        SizeTerm::Clamp { min, value, max } => {
            let low: i32 = match get_specified_size(&**min, context) {
                Ok(Some(low)) => low,
                other => {
                    return other;
                },
            };
            let wanted: i32 = match get_specified_size(&**value, context) {
                Ok(Some(wanted)) => wanted,
                other => {
                    return other;
                },
            };
            let high: i32 = match get_specified_size(&**max, context) {
                Ok(Some(high)) => high,
                other => {
                    return other;
                },
            };
            let capped: i32 = if wanted < high {
                wanted
            } else {
                high
            };
            Ok(
                Some(
                    if capped < low {
                        low
                    } else {
                        capped
                    },
                ),
            )
        },
        SizeTerm::Calc(terms) => solve_calc(terms, context),
        SizeTerm::Content => Ok(None),
    }
}

/// The value of a term.
pub fn get_calc_exp_value(term: &CalcTerm, context: &SizeContext) -> (r: Result<
    Option<i32>,
    CalcError,
>)
    ensures
        same_value(r, term_value(*term, *context)),
    decreases *term, 1int,
{
    match term {
        CalcTerm::Size(size) => get_specified_size(size, context),
        CalcTerm::Nesting(terms) => solve_calc(terms, context),
        CalcTerm::Solved(value) => Ok(Some(*value)),
        CalcTerm::Operator(_) => Err(CalcError::NotAValue),
    }
}

fn get_slot_operator(terms: &Vec<CalcTerm>, slot: CalcSlot) -> (r: Option<StyleCalcOperator>)
    ensures
        r == slot_operator(terms@, slot),
{
    match slot {
        CalcSlot::Term(k) => if k < terms.len() {
            match &terms[k] {
                CalcTerm::Operator(operator) => Some(*operator),
                _ => None,
            }
        } else {
            None
        },
        CalcSlot::Solved(_) => None,
    }
}

fn find_operator(terms: &Vec<CalcTerm>, slots: &Vec<CalcSlot>, strong: bool) -> (r: usize)
    ensures
        r == operator_from(terms@, slots@, strong, 0),
        r <= slots@.len(),
        r < slots@.len() ==> slot_operator(terms@, slots@[r as int]) is Some,
{
    let mut at: usize = 0;
    while at < slots.len()
        invariant
            at <= slots@.len(),
            operator_from(terms@, slots@, strong, 0) == operator_from(
                terms@,
                slots@,
                strong,
                at as int,
            ),
        decreases slots@.len() - at,
    {
        let found = match get_slot_operator(terms, slots[at]) {
            Some(StyleCalcOperator::Multiply) | Some(StyleCalcOperator::Divide) => strong,
            Some(StyleCalcOperator::Plus) | Some(StyleCalcOperator::Minus) => !strong,
            None => false,
        };
        if found {
            return at;
        }
        at = at + 1;
    }
    at
}

fn splice(slots: &Vec<CalcSlot>, at: usize, value: i32) -> (r: Vec<CalcSlot>)
    requires
        0 < at < slots@.len() - 1,
    ensures
        r@ == spliced(slots@, at as int, value as int),
{
    let len: usize = slots.len();
    let rounded: i128 = round_to_single(value as i128);
    let mut result: Vec<CalcSlot> = Vec::new();
    let mut i: usize = 0;
    while i < at - 1
        invariant
            0 < at < len - 1,
            len == slots@.len(),
            i <= at - 1,
            result@ =~= slots@.take(i as int),
        decreases at - i,
    {
        result.push(slots[i]);
        i = i + 1;
    }
    result.push(CalcSlot::Solved(saturate(rounded)));
    let ghost head = result@;
    let mut i: usize = at + 2;
    while i < len
        invariant
            0 < at < len - 1,
            at + 2 <= i <= len,
            len == slots@.len(),
            result@ =~= head + slots@.subrange(at + 2, i as int),
        decreases len - i,
    {
        result.push(slots[i]);
        i = i + 1;
    }
    assert(slots@.subrange(at + 2, len as int) =~= slots@.skip(at + 2));
    result
}

fn any_unit(terms: &Vec<CalcTerm>) -> (r: bool)
    ensures
        r == has_unit(terms@),
{
    let mut at: usize = 0;
    while at < terms.len()
        invariant
            at <= terms@.len(),
            forall|i: int| 0 <= i < at ==> !((#[trigger] terms@[i]) is Size),
        decreases terms@.len() - at,
    {
        match &terms[at] {
            CalcTerm::Size(_) => {
                return true;
            },
            _ => {},
        }
        at = at + 1;
    }
    false
}

fn convert_unit(value: i32, context: &SizeContext) -> (r: i32)
    ensures
        r == unit_to_px(value as int, *context),
{
    let single: i128 = round_to_single(value as i128);
    match context.default_unit {
        SizeUnit::Px => saturate(single),
        SizeUnit::Em => {
            let font: i128 = round_to_single(context.font_size as i128);
            proof {
                lemma_single_bound(value as int);
                lemma_single_bound(context.font_size as int);
                assert(-0x8000_0000 * 0x1_0000_0000 <= single * font <= 0x8000_0000 * 0x1_0000_0000)
                    by (nonlinear_arith)
                    requires
                        -0x8000_0000 <= single <= 0x8000_0000,
                        0 <= font <= 0x1_0000_0000,
                ;
            }
            saturate(round_to_single(single * font))
        },
    }
}

/// Rounding to single precision does not leave a range whose bounds single precision holds.
pub proof fn lemma_single_bound(value: int)
    requires
        -0x8000_0000 <= value <= 0xffff_ffff,
    ensures
        -0x8000_0000 <= to_single(value) <= 0x1_0000_0000,
        value >= 0 ==> to_single(value) >= 0,
        value <= 0x8000_0000 ==> to_single(value) <= 0x8000_0000,
{
    let magnitude = if value < 0 {
        -value
    } else {
        value
    };
    reveal_with_fuel(single_unit, 10);
    let unit = single_unit(magnitude);
    assert(unit == 1 || unit == 2 || unit == 4 || unit == 8 || unit == 16 || unit == 32 || unit == 64
        || unit == 128 || unit == 256);
    assert(rounded_to(magnitude, unit) <= 0x1_0000_0000);
}

/// The value of a list of terms in pixels; nothing where it cannot be known.
pub fn solve_calc(terms: &Vec<CalcTerm>, context: &SizeContext) -> (r: Result<
    Option<i32>,
    CalcError,
>)
    ensures
        same_value(r, solved(terms@, *context)),
    decreases terms@, 2int,
{
    let len: usize = terms.len();
    let mut slots: Vec<CalcSlot> = Vec::new();
    let mut i: usize = 0;
    while i < len
        invariant
            i <= len,
            slots@ =~= all_slots(i as nat),
        decreases len - i,
    {
        slots.push(CalcSlot::Term(i));
        i = i + 1;
    }
    loop
        invariant
            reduced(terms@, slots@, *context) == reduced(terms@, all_slots(len as nat), *context),
            len == terms@.len(),
        ensures
            reduced(terms@, all_slots(len as nat), *context) == Ok::<
                Option<Seq<CalcSlot>>,
                CalcError,
            >(Some(slots@)),
        decreases slots@.len(),
    {
        if slots.len() <= 1 {
            break;
        }
        let strong: usize = find_operator(terms, &slots, true);
        let at: usize = if strong < slots.len() {
            strong
        } else {
            find_operator(terms, &slots, false)
        };
        if at == 0 || at >= slots.len() - 1 {
            break;
        }
        let a: i32 = match value_of_slot(terms, slots[at - 1], context) {
            Ok(Some(a)) => a,
            other => {
                return other;
            },
        };
        let b: i32 = match value_of_slot(terms, slots[at + 1], context) {
            Ok(Some(b)) => b,
            other => {
                return other;
            },
        };
        let operator: Option<StyleCalcOperator> = get_slot_operator(terms, slots[at]);
        let value: Option<i32> = match operator {
            Some(StyleCalcOperator::Plus) => a.checked_add(b),
            Some(StyleCalcOperator::Minus) => a.checked_sub(b),
            Some(StyleCalcOperator::Multiply) => a.checked_mul(b),
            _ => {
                let divisor: i32 = if b < 1 {
                    1
                } else {
                    b
                };
                let quotient: i64 = truncate_quotient(a as i64, divisor as i64);
                proof {
                    lemma_quotient_bound(a as int, divisor as int);
                }
                Some(quotient as i32)
            },
        };
        match value {
            None => {
                return Err(CalcError::Overflow);
            },
            Some(value) => {
                slots = splice(&slots, at, value);
            },
        }
    }
    let value: Option<i32> = if slots.len() != 1 {
        None
    } else {
        match slots[0] {
            CalcSlot::Solved(value) => Some(value),
            CalcSlot::Term(k) => if k < terms.len() {
                match &terms[k] {
                    CalcTerm::Solved(value) => Some(*value),
                    CalcTerm::Size(SizeTerm::Px(value)) => Some(*value),
                    _ => None,
                }
            } else {
                None
            },
        }
    };
    match value {
        None => Ok(None),
        Some(value) => if any_unit(terms) {
            Ok(Some(value))
        } else {
            Ok(Some(convert_unit(value, context)))
        },
    }
}

proof fn lemma_quotient_bound(a: int, divisor: int)
    requires
        in_i32(a),
        1 <= divisor,
    ensures
        in_i32(truncated_quotient(a, divisor)),
{
    let magnitude = if a < 0 {
        -a
    } else {
        a
    };
    assert(0 <= magnitude / divisor <= magnitude) by (nonlinear_arith)
        requires
            magnitude >= 0,
            divisor >= 1,
    ;
}

fn value_of_slot(terms: &Vec<CalcTerm>, slot: CalcSlot, context: &SizeContext) -> (r: Result<
    Option<i32>,
    CalcError,
>)
    ensures
        same_value(r, slot_value(terms@, slot, *context)),
    decreases terms@, 1int,
{
    match slot {
        CalcSlot::Term(k) => if k < terms.len() {
            get_calc_exp_value(&terms[k], context)
        } else {
            Err(CalcError::NotAValue)
        },
        CalcSlot::Solved(value) => Ok(Some(value)),
    }
}

} // verus!
