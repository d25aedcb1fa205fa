//! Sizes as style sheets write them.
use vstd::prelude::*;

use crate::calc::split_ignoring_parentheses;
use crate::calc::split_outside;
use crate::calc::split_state;
use crate::calc::StyleCalcOperator;
use crate::numbers::is_float;
use crate::numbers::is_float_text;
use crate::text::ends;
use crate::text::ends_with;
use crate::text::from_range;
use crate::text::same_text;
use crate::text::starts;
use crate::text::starts_with;
use crate::text::strip_suffix;
use crate::text::texts_of;
use crate::text::to_chars;
use crate::text::trim;
use crate::text::trimmed;
use crate::text::trimmed_end;
use crate::text::trimmed_start;

verus! {

/// A size as written. Numbers are kept as text.
#[derive(Debug, PartialEq)]
pub enum StyleSize {
    Auto,
    FitContent,
    MinContent,
    MaxContent,
    Percent(String),
    Px(String),
    Vh(String),
    Svh(String),
    Vw(String),
    Em(String),
    Rem(String),
    Clamp { min: Box<StyleSize>, value: Box<StyleSize>, max: Box<StyleSize> },
    Calc(Vec<CalcExpression>),
}

#[derive(Debug, PartialEq)]
pub enum CalcExpression {
    Size(StyleSize),
    Operator(StyleCalcOperator),
    Nesting(Vec<CalcExpression>),
    /// A number without a unit.
    Solved(String),
}

#[derive(Debug, Clone, Copy, PartialEq, Eq, Structural)]
pub enum LengthUnit {
    Percent,
    Px,
    Vh,
    Svh,
    Vw,
    Em,
    Rem,
}

/// A text is no size.
#[derive(Debug, Clone, Copy, PartialEq, Eq, Structural)]
pub struct InvalidSize;

/// What a [`StyleSize`] holds.
pub enum SizeModel {
    Auto,
    FitContent,
    MinContent,
    MaxContent,
    Length(LengthUnit, Seq<char>),
    Clamp(Box<SizeModel>, Box<SizeModel>, Box<SizeModel>),
    Calc(Seq<CalcModel>),
}

/// What a [`CalcExpression`] holds.
pub enum CalcModel {
    Size(SizeModel),
    Operator(StyleCalcOperator),
    Nesting(Seq<CalcModel>),
    Solved(Seq<char>),
}

pub open spec fn size_model(size: StyleSize) -> SizeModel
    decreases size, 0nat,
{
    match size {
        StyleSize::Auto => SizeModel::Auto,
        StyleSize::FitContent => SizeModel::FitContent,
        StyleSize::MinContent => SizeModel::MinContent,
        StyleSize::MaxContent => SizeModel::MaxContent,
        StyleSize::Percent(number) => SizeModel::Length(LengthUnit::Percent, number@),
        StyleSize::Px(number) => SizeModel::Length(LengthUnit::Px, number@),
        StyleSize::Vh(number) => SizeModel::Length(LengthUnit::Vh, number@),
        StyleSize::Svh(number) => SizeModel::Length(LengthUnit::Svh, number@),
        StyleSize::Vw(number) => SizeModel::Length(LengthUnit::Vw, number@),
        StyleSize::Em(number) => SizeModel::Length(LengthUnit::Em, number@),
        StyleSize::Rem(number) => SizeModel::Length(LengthUnit::Rem, number@),
        StyleSize::Clamp { min, value, max } => SizeModel::Clamp(
            Box::new(size_model(*min)),
            Box::new(size_model(*value)),
            Box::new(size_model(*max)),
        ),
        StyleSize::Calc(list) => SizeModel::Calc(calc_models(list@, list@.len())),
    }
}

pub open spec fn calc_model(expression: CalcExpression) -> CalcModel
    decreases expression, 0nat,
{
    match expression {
        CalcExpression::Size(size) => CalcModel::Size(size_model(size)),
        CalcExpression::Operator(operator) => CalcModel::Operator(operator),
        CalcExpression::Nesting(list) => CalcModel::Nesting(calc_models(list@, list@.len())),
        CalcExpression::Solved(number) => CalcModel::Solved(number@),
    }
}

/// What the first expressions of a list hold.
pub open spec fn calc_models(list: Seq<CalcExpression>, count: nat) -> Seq<CalcModel>
    decreases list, count,
{
    if count == 0 || count > list.len() {
        Seq::empty()
    } else {
        calc_models(list, (count - 1) as nat).push(calc_model(list[count - 1]))
    }
}

proof fn lemma_calc_models_prefix(a: Seq<CalcExpression>, b: Seq<CalcExpression>, count: nat)
    requires
        count <= a.len(),
        count <= b.len(),
        forall|i: int| 0 <= i < count ==> a[i] == b[i],
    ensures
        calc_models(a, count) == calc_models(b, count),
    decreases count,
{
    if count > 0 {
        lemma_calc_models_prefix(a, b, (count - 1) as nat);
    }
}

/// The unit at the end of a text and the number before it.
pub open spec fn length_of_text(s: Seq<char>) -> Option<(LengthUnit, Seq<char>)> {
    let found = if ends(s, "%"@) {
        Some((LengthUnit::Percent, 1int))
    } else if ends(s, "px"@) {
        Some((LengthUnit::Px, 2int))
    } else if ends(s, "svh"@) {
        Some((LengthUnit::Svh, 3int))
    } else if ends(s, "vh"@) {
        Some((LengthUnit::Vh, 2int))
    } else if ends(s, "vw"@) {
        Some((LengthUnit::Vw, 2int))
    } else if ends(s, "rem"@) {
        Some((LengthUnit::Rem, 3int))
    } else if ends(s, "em"@) {
        Some((LengthUnit::Em, 2int))
    } else {
        None
    };
    match found {
        Some((unit, length)) => if is_float_text(s.take(s.len() - length)) {
            Some((unit, s.take(s.len() - length)))
        } else {
            None
        },
        None => None,
    }
}

/// What stands between a prefix and the closing parenthesis at the end.
pub open spec fn inside(s: Seq<char>, prefix: Seq<char>) -> Option<Seq<char>> {
    if prefix.len() < s.len() && starts(s, prefix) && ends(s, ")"@) {
        Some(s.subrange(prefix.len() as int, s.len() - 1))
    } else {
        None
    }
}

/// The size that a text writes.
pub open spec fn size_of_text(s: Seq<char>) -> Option<SizeModel>
    decreases s.len(), 2nat, 0nat,
    via size_of_text_decreases
{
    if s == "auto"@ {
        Some(SizeModel::Auto)
    } else if s == "fit-content"@ {
        Some(SizeModel::FitContent)
    } else if s == "min-content"@ {
        Some(SizeModel::MinContent)
    } else if s == "max-content"@ {
        Some(SizeModel::MaxContent)
    } else if let Some(inner) = inside(s, "calc("@) {
        match calc_of_text(inner) {
            Some(list) => Some(SizeModel::Calc(list)),
            None => None,
        }
    } else if let Some(inner) = inside(s, "clamp("@) {
        let parts = split_outside(inner, ',', Seq::empty());
        if parts.len() != 3 {
            None
        } else {
            match (
                size_of_text(trimmed(parts[0])),
                size_of_text(trimmed(parts[1])),
                size_of_text(trimmed(parts[2])),
            ) {
                (Some(min), Some(value), Some(max)) => Some(
                    SizeModel::Clamp(Box::new(min), Box::new(value), Box::new(max)),
                ),
                _ => None,
            }
        }
    } else {
        match length_of_text(s) {
            Some((unit, number)) => Some(SizeModel::Length(unit, number)),
            None => None,
        }
    }
}

#[via_fn]
proof fn size_of_text_decreases(s: Seq<char>) {
    reveal_strlit("calc(");
    reveal_strlit("clamp(");
    if let Some(inner) = inside(s, "clamp("@) {
        lemma_pieces_are_shorter(inner, ',', Seq::empty());
        let parts = split_outside(inner, ',', Seq::empty());
        if parts.len() == 3 {
            lemma_trimmed_is_shorter(parts[0]);
            lemma_trimmed_is_shorter(parts[1]);
            lemma_trimmed_is_shorter(parts[2]);
        }
    }
}

pub proof fn lemma_trimmed_is_shorter(s: Seq<char>)
    ensures
        trimmed(s).len() <= s.len(),
{
    lemma_trimmed_start_is_shorter(s);
    lemma_trimmed_end_is_shorter(trimmed_start(s));
}

proof fn lemma_trimmed_start_is_shorter(s: Seq<char>)
    ensures
        trimmed_start(s).len() <= s.len(),
    decreases s.len(),
{
    if s.len() > 0 {
        lemma_trimmed_start_is_shorter(s.drop_first());
    }
}

proof fn lemma_trimmed_end_is_shorter(s: Seq<char>)
    ensures
        trimmed_end(s).len() <= s.len(),
    decreases s.len(),
{
    if s.len() > 0 {
        lemma_trimmed_end_is_shorter(s.drop_last());
    }
}

/// No piece of a text is longer than the text.
pub proof fn lemma_pieces_are_shorter(s: Seq<char>, separator: char, keep: Seq<char>)
    ensures
        forall|i: int|
            0 <= i < split_outside(s, separator, keep).len() ==> (#[trigger] split_outside(
                s,
                separator,
                keep,
            )[i]).len() <= s.len(),
        split_state(s, separator, keep).buffer.len() <= s.len(),
        forall|i: int|
            0 <= i < split_state(s, separator, keep).list.len() ==> (#[trigger] split_state(
                s,
                separator,
                keep,
            ).list[i]).len() <= s.len(),
    decreases s.len(),
{
    if s.len() > 0 {
        lemma_pieces_are_shorter(s.drop_last(), separator, keep);
        let before = split_state(s.drop_last(), separator, keep);
        let after = split_state(s, separator, keep);
        assert forall|i: int| 0 <= i < after.list.len() implies (#[trigger] after.list[i]).len()
            <= s.len() by {
            if i < before.list.len() {
                assert(after.list[i] == before.list[i]);
                assert(before.list[i].len() <= s.drop_last().len());
            }
        }
    }
    let end = split_state(s, separator, keep);
    let all = split_outside(s, separator, keep);
    assert forall|i: int| 0 <= i < all.len() implies (#[trigger] all[i]).len() <= s.len() by {
        if i < end.list.len() {
            assert(all[i] == end.list[i]);
        }
    }
}

/// The expressions that a text writes, with spaces between them.
pub open spec fn calc_of_text(s: Seq<char>) -> Option<Seq<CalcModel>>
    decreases s.len(), 5nat, 0nat,
{
    calc_of_pieces(split_outside(s, ' ', Seq::empty()), s.len())
}

/// The expressions that the pieces of a text write. Empty pieces do not count.
pub open spec fn calc_of_pieces(pieces: Seq<Seq<char>>, bound: nat) -> Option<Seq<CalcModel>>
    decreases bound, 4nat, pieces.len(),
{
    if pieces.len() == 0 {
        Some(Seq::empty())
    } else {
        match calc_of_pieces(pieces.drop_last(), bound) {
            None => None,
            Some(before) => if pieces.last().len() == 0 {
                Some(before)
            } else if pieces.last().len() > bound {
                None
            } else {
                match calc_of_piece(pieces.last()) {
                    Some(expression) => Some(before.push(expression)),
                    None => None,
                }
            },
        }
    }
}

/// The expression that a piece writes: an operator, a list in parentheses, a number or a size.
pub open spec fn calc_of_piece(s: Seq<char>) -> Option<CalcModel>
    decreases s.len(), 3nat, 0nat,
    via calc_of_piece_decreases
{
    if s == "+"@ {
        Some(CalcModel::Operator(StyleCalcOperator::Plus))
    } else if s == "-"@ {
        Some(CalcModel::Operator(StyleCalcOperator::Minus))
    } else if s == "*"@ {
        Some(CalcModel::Operator(StyleCalcOperator::Multiply))
    } else if s == "/"@ {
        Some(CalcModel::Operator(StyleCalcOperator::Divide))
    } else if let Some(inner) = inside(s, "("@) {
        match calc_of_text(inner) {
            Some(list) => Some(CalcModel::Nesting(list)),
            None => None,
        }
    } else if is_float_text(s) {
        Some(CalcModel::Solved(s))
    } else {
        match size_of_text(s) {
            Some(size) => Some(CalcModel::Size(size)),
            None => None,
        }
    }
}

#[via_fn]
proof fn calc_of_piece_decreases(s: Seq<char>) {
    reveal_strlit("(");
}

proof fn lemma_failed_pieces(pieces: Seq<Seq<char>>, bound: nat, at: int)
    requires
        0 <= at <= pieces.len(),
        calc_of_pieces(pieces.take(at), bound) is None,
    ensures
        calc_of_pieces(pieces, bound) is None,
    decreases pieces.len(),
{
    if at == pieces.len() {
        assert(pieces.take(at) =~= pieces);
    } else {
        assert(pieces.drop_last().take(at) =~= pieces.take(at));
        lemma_failed_pieces(pieces.drop_last(), bound, at);
    }
}

fn parse_inside(s: &str, prefix: &str) -> (r: Option<String>)
    ensures
        match (r, inside(s@, prefix@)) {
            (Some(inner), Some(model)) => inner@ == model,
            (None, None) => true,
            _ => false,
        },
{
    let chars = to_chars(s);
    let other = to_chars(prefix);
    if other.len() < chars.len() && starts_with(s, prefix) && ends_with(s, ")") {
        Some(from_range(&chars, other.len(), chars.len() - 1))
    } else {
        None
    }
}

fn parse_length(s: &str) -> (r: Option<(LengthUnit, String)>)
    ensures
        match (r, length_of_text(s@)) {
            (Some(length), Some(model)) => length.0 == model.0 && length.1@ == model.1,
            (None, None) => true,
            _ => false,
        },
{
    proof {
        reveal_strlit("%");
        reveal_strlit("px");
        reveal_strlit("svh");
        reveal_strlit("vh");
        reveal_strlit("vw");
        reveal_strlit("rem");
        reveal_strlit("em");
    }
    let (unit, number): (LengthUnit, String) = if let Some(number) = strip_suffix(s, "%") {
        (LengthUnit::Percent, number)
    } else if let Some(number) = strip_suffix(s, "px") {
        (LengthUnit::Px, number)
    } else if let Some(number) = strip_suffix(s, "svh") {
        (LengthUnit::Svh, number)
    } else if let Some(number) = strip_suffix(s, "vh") {
        (LengthUnit::Vh, number)
    } else if let Some(number) = strip_suffix(s, "vw") {
        (LengthUnit::Vw, number)
    } else if let Some(number) = strip_suffix(s, "rem") {
        (LengthUnit::Rem, number)
    } else if let Some(number) = strip_suffix(s, "em") {
        (LengthUnit::Em, number)
    } else {
        return None;
    };
    if is_float(number.as_str()) {
        Some((unit, number))
    } else {
        None
    }
}

/// The size that a text writes.
pub fn parse_size(s: &str) -> (r: Result<StyleSize, InvalidSize>)
    ensures
        match (r, size_of_text(s@)) {
            (Ok(size), Some(model)) => size_model(size) == model,
            (Err(_), None) => true,
            _ => false,
        },
    decreases s@.len(), 2nat,
{
    proof {
        reveal_strlit("calc(");
        reveal_strlit("clamp(");
    }
    if same_text(s, "auto") {
        return Ok(StyleSize::Auto);
    }
    if same_text(s, "fit-content") {
        return Ok(StyleSize::FitContent);
    }
    if same_text(s, "min-content") {
        return Ok(StyleSize::MinContent);
    }
    if same_text(s, "max-content") {
        return Ok(StyleSize::MaxContent);
    }
    match parse_inside(s, "calc(") {
        Some(inner) => {
            return match parse_expressions(inner.as_str()) {
                Some(list) => Ok(StyleSize::Calc(list)),
                None => Err(InvalidSize),
            };
        },
        None => {},
    }
    match parse_inside(s, "clamp(") {
        Some(inner) => {
            let no_chars: [char; 0] = [];
            assert(no_chars@ =~= Seq::<char>::empty());
            let parts = split_ignoring_parentheses(inner.as_str(), ',', &no_chars);
            let ghost models = split_outside(inner@, ',', Seq::empty());
            if parts.len() != 3 {
                return Err(InvalidSize);
            }
            let first = trim(parts[0].as_str());
            let second = trim(parts[1].as_str());
            let third = trim(parts[2].as_str());
            proof {
                lemma_pieces_are_shorter(inner@, ',', Seq::empty());
                assert(texts_of(parts@)[0] == models[0]);
                assert(texts_of(parts@)[1] == models[1]);
                assert(texts_of(parts@)[2] == models[2]);
                lemma_trimmed_is_shorter(models[0]);
                lemma_trimmed_is_shorter(models[1]);
                lemma_trimmed_is_shorter(models[2]);
            }
            let min = parse_size(first.as_str());
            let value = parse_size(second.as_str());
            let max = parse_size(third.as_str());
            return match (min, value, max) {
                (Ok(min), Ok(value), Ok(max)) => Ok(
                    StyleSize::Clamp {
                        min: Box::new(min),
                        value: Box::new(value),
                        max: Box::new(max),
                    },
                ),
                _ => Err(InvalidSize),
            };
        },
        None => {},
    }
    match parse_length(s) {
        Some((unit, number)) => Ok(
            match unit {
                LengthUnit::Percent => StyleSize::Percent(number),
                LengthUnit::Px => StyleSize::Px(number),
                LengthUnit::Vh => StyleSize::Vh(number),
                LengthUnit::Svh => StyleSize::Svh(number),
                LengthUnit::Vw => StyleSize::Vw(number),
                LengthUnit::Em => StyleSize::Em(number),
                LengthUnit::Rem => StyleSize::Rem(number),
            },
        ),
        None => Err(InvalidSize),
    }
}

fn parse_expressions(s: &str) -> (r: Option<Vec<CalcExpression>>)
    ensures
        match (r, calc_of_text(s@)) {
            (Some(list), Some(model)) => calc_models(list@, list@.len()) == model,
            (None, None) => true,
            _ => false,
        },
    decreases s@.len(), 5nat,
{
    let no_chars: [char; 0] = [];
    assert(no_chars@ =~= Seq::<char>::empty());
    let pieces = split_ignoring_parentheses(s, ' ', &no_chars);
    let ghost models = split_outside(s@, ' ', Seq::empty());
    proof {
        lemma_pieces_are_shorter(s@, ' ', Seq::empty());
    }
    let mut list: Vec<CalcExpression> = Vec::new();
    let mut at: usize = 0;
    while at < pieces.len()
        invariant
            at <= pieces@.len(),
            texts_of(pieces@) == models,
            models == split_outside(s@, ' ', Seq::empty()),
            forall|i: int| 0 <= i < models.len() ==> (#[trigger] models[i]).len() <= s@.len(),
            calc_of_pieces(models.take(at as int), s@.len()) == Some(
                calc_models(list@, list@.len()),
            ),
        decreases pieces@.len() - at,
    {
        proof {
            assert(models.take(at + 1).drop_last() =~= models.take(at as int));
            assert(texts_of(pieces@)[at as int] == models[at as int]);
        }
        let piece = pieces[at].as_str();
        let chars = to_chars(piece);
        if chars.len() > 0 {
            match parse_expression(piece) {
                None => {
                    proof {
                        lemma_failed_pieces(models, s@.len(), at + 1);
                    }
                    return None;
                },
                Some(expression) => {
                    let ghost before = list@;
                    list.push(expression);
                    proof {
                        lemma_calc_models_prefix(before, list@, before.len());
                    }
                },
            }
        }
        at = at + 1;
    }
    assert(models.take(models.len() as int) =~= models);
    Some(list)
}

fn parse_expression(s: &str) -> (r: Option<CalcExpression>)
    ensures
        match (r, calc_of_piece(s@)) {
            (Some(expression), Some(model)) => calc_model(expression) == model,
            (None, None) => true,
            _ => false,
        },
    decreases s@.len(), 3nat,
{
    proof {
        reveal_strlit("(");
    }
    if same_text(s, "+") {
        return Some(CalcExpression::Operator(StyleCalcOperator::Plus));
    }
    if same_text(s, "-") {
        return Some(CalcExpression::Operator(StyleCalcOperator::Minus));
    }
    if same_text(s, "*") {
        return Some(CalcExpression::Operator(StyleCalcOperator::Multiply));
    }
    if same_text(s, "/") {
        return Some(CalcExpression::Operator(StyleCalcOperator::Divide));
    }
    match parse_inside(s, "(") {
        Some(inner) => {
            return match parse_expressions(inner.as_str()) {
                Some(list) => Some(CalcExpression::Nesting(list)),
                None => None,
            };
        },
        None => {},
    }
    if is_float(s) {
        return Some(CalcExpression::Solved(s.to_owned()));
    }
    match parse_size(s) {
        Ok(size) => Some(CalcExpression::Size(size)),
        Err(_) => None,
    }
}

/// The expressions that a text writes, as a size.
pub fn parse_calc(s: &str) -> (r: Result<StyleSize, InvalidSize>)
    ensures
        match (r, calc_of_text(s@)) {
            (Ok(size), Some(model)) => size_model(size) == SizeModel::Calc(model),
            (Err(_), None) => true,
            _ => false,
        },
{
    match parse_expressions(s) {
        Some(list) => Ok(StyleSize::Calc(list)),
        None => Err(InvalidSize),
    }
}

} // verus!
