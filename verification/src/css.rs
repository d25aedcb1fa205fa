//! Style sheets: their selectors, conditions and declarations, and the parser that reads them.
use vstd::prelude::*;

use crate::calc::split_ignoring_parentheses;
use crate::calc::split_outside;
use crate::sizes::lemma_pieces_are_shorter;
use crate::text::ends;
use crate::text::find_char;
use crate::text::from_chars;
use crate::text::from_range;
use crate::text::index_of;
use crate::text::lemma_index_of;
use crate::text::less_prefix;
use crate::text::less_suffix;
use crate::text::pieces;
use crate::text::same_text;
use crate::text::split;
use crate::text::starts;
use crate::text::strip_prefix;
use crate::text::strip_suffix;
use crate::text::texts_of;
use crate::text::to_chars;
use crate::text::trim;
use crate::text::trimmed;
use crate::text::without_prefix;
use crate::text::without_suffix;

verus! {

/// A condition on an attribute: that it has a value, or that it is there.
#[derive(Debug, PartialEq)]
pub enum ClassNamePartAttribute {
    KeyValue((String, String)),
    Key(String),
}

#[derive(Debug, PartialEq)]
pub enum PseudoClass {
    Root,
    Hover,
    Active,
    Focus,
    Before,
    After,
    Host,
    Has(Vec<ClassNamePart>),
    Not(Vec<ClassNamePart>),
}

/// A step of a selector.
#[derive(Debug, PartialEq)]
pub enum ClassNamePart {
    Class(String),
    Id(String),
    PseudoClass(PseudoClass),
    Attributes(Vec<ClassNamePartAttribute>),
    Tag(String),
    Combined(Vec<ClassNamePart>),
    ArrowRight,
    Ampersand,
}

/// What a [`ClassNamePartAttribute`] holds.
pub enum AttributeModel {
    KeyValue(Seq<char>, Seq<char>),
    Key(Seq<char>),
}

/// What a [`PseudoClass`] holds.
pub enum PseudoModel {
    Root,
    Hover,
    Active,
    Focus,
    Before,
    After,
    Host,
    Has(Seq<PartModel>),
    Not(Seq<PartModel>),
}

/// What a [`ClassNamePart`] holds.
pub enum PartModel {
    Class(Seq<char>),
    Id(Seq<char>),
    Pseudo(PseudoModel),
    Attributes(Seq<AttributeModel>),
    Tag(Seq<char>),
    Combined(Seq<PartModel>),
    ArrowRight,
    Ampersand,
}

pub open spec fn attribute_model(attribute: ClassNamePartAttribute) -> AttributeModel {
    match attribute {
        ClassNamePartAttribute::KeyValue((key, value)) => AttributeModel::KeyValue(key@, value@),
        ClassNamePartAttribute::Key(key) => AttributeModel::Key(key@),
    }
}

pub open spec fn attribute_models(list: Seq<ClassNamePartAttribute>) -> Seq<AttributeModel> {
    Seq::new(list.len(), |i: int| attribute_model(list[i]))
}

pub open spec fn pseudo_model(class: PseudoClass) -> PseudoModel
    decreases class, 0nat,
{
    match class {
        PseudoClass::Root => PseudoModel::Root,
        PseudoClass::Hover => PseudoModel::Hover,
        PseudoClass::Active => PseudoModel::Active,
        PseudoClass::Focus => PseudoModel::Focus,
        PseudoClass::Before => PseudoModel::Before,
        PseudoClass::After => PseudoModel::After,
        PseudoClass::Host => PseudoModel::Host,
        PseudoClass::Has(parts) => PseudoModel::Has(part_models(parts@, parts@.len())),
        PseudoClass::Not(parts) => PseudoModel::Not(part_models(parts@, parts@.len())),
    }
}

pub open spec fn part_model(part: ClassNamePart) -> PartModel
    decreases part, 0nat,
{
    match part {
        ClassNamePart::Class(name) => PartModel::Class(name@),
        ClassNamePart::Id(name) => PartModel::Id(name@),
        ClassNamePart::PseudoClass(class) => PartModel::Pseudo(pseudo_model(class)),
        ClassNamePart::Attributes(list) => PartModel::Attributes(attribute_models(list@)),
        ClassNamePart::Tag(name) => PartModel::Tag(name@),
        ClassNamePart::Combined(parts) => PartModel::Combined(part_models(parts@, parts@.len())),
        ClassNamePart::ArrowRight => PartModel::ArrowRight,
        ClassNamePart::Ampersand => PartModel::Ampersand,
    }
}

/// What the first parts of a list hold.
pub open spec fn part_models(list: Seq<ClassNamePart>, count: nat) -> Seq<PartModel>
    decreases list, count,
{
    if count == 0 || count > list.len() {
        Seq::empty()
    } else {
        part_models(list, (count - 1) as nat).push(part_model(list[count - 1]))
    }
}

proof fn lemma_part_models_prefix(a: Seq<ClassNamePart>, b: Seq<ClassNamePart>, count: nat)
    requires
        count <= a.len(),
        count <= b.len(),
        forall|i: int| 0 <= i < count ==> a[i] == b[i],
    ensures
        part_models(a, count) == part_models(b, count),
        part_models(a, count).len() == count,
    decreases count,
{
    if count > 0 {
        lemma_part_models_prefix(a, b, (count - 1) as nat);
    }
}

/// A text without the quotes around it: one single quote at either end, then one double quote.
pub open spec fn unquoted(s: Seq<char>) -> Seq<char> {
    less_suffix(less_prefix(less_suffix(less_prefix(s, "'"@), "'"@), "\""@), "\""@)
}

/// A text without the quotes around it.
pub fn unquote(value: &str) -> (r: String)
    ensures
        r@ == unquoted(value@),
{
    let value = without_prefix(value.to_owned(), "'");
    let value = without_suffix(value, "'");
    let value = without_prefix(value, "\"");
    without_suffix(value, "\"")
}

/// The condition that one attribute writes: a name, or a name and a value around an equals sign.
pub open spec fn attribute_of_text(s: Seq<char>) -> Option<AttributeModel> {
    let parts = pieces(s, '=');
    if parts.len() == 2 {
        Some(AttributeModel::KeyValue(parts[0], unquoted(trimmed(parts[1]))))
    } else if parts.len() == 1 {
        Some(AttributeModel::Key(parts[0]))
    } else {
        None
    }
}

/// The conditions of attributes. Each ends with a bracket; one character after it is passed over.
pub open spec fn attributes_of_text(s: Seq<char>) -> Seq<AttributeModel>
    decreases s.len(),
    via attributes_of_text_decreases
{
    let end = index_of(s, ']');
    if end >= s.len() {
        Seq::empty()
    } else {
        let rest = attributes_of_text(
            s.skip(
                if end + 2 < s.len() {
                    end + 2
                } else {
                    s.len() as int
                },
            ),
        );
        match attribute_of_text(s.take(end)) {
            Some(attribute) => seq![attribute] + rest,
            None => rest,
        }
    }
}

#[via_fn]
proof fn attributes_of_text_decreases(s: Seq<char>) {
    lemma_index_of(s, ']');
}

fn parse_attribute(s: &str) -> (r: Option<ClassNamePartAttribute>)
    ensures
        match (r, attribute_of_text(s@)) {
            (Some(attribute), Some(model)) => attribute_model(attribute) == model,
            (None, None) => true,
            _ => false,
        },
{
    let parts = split(s, '=');
    let ghost models = pieces(s@, '=');
    assert(models == texts_of(parts@));
    if parts.len() == 2 {
        assert(models[0] == parts@[0]@ && models[1] == parts@[1]@);
        let value = trim(parts[1].as_str());
        Some(
            ClassNamePartAttribute::KeyValue((parts[0].clone(), unquote(value.as_str()))),
        )
    } else if parts.len() == 1 {
        assert(models[0] == parts@[0]@);
        Some(ClassNamePartAttribute::Key(parts[0].clone()))
    } else {
        None
    }
}

fn parse_attributes(s: &str) -> (r: Vec<ClassNamePartAttribute>)
    ensures
        attribute_models(r@) == attributes_of_text(s@),
{
    let chars = to_chars(s);
    let len: usize = chars.len();
    let mut list: Vec<ClassNamePartAttribute> = Vec::new();
    let mut start: usize = 0;
    assert(chars@.skip(0) =~= chars@);
    assert(attribute_models(list@) + attributes_of_text(chars@) =~= attributes_of_text(chars@));
    loop
        invariant
            start <= len,
            len == chars@.len(),
            attribute_models(list@) + attributes_of_text(chars@.skip(start as int))
                == attributes_of_text(chars@),
        ensures
            attribute_models(list@) == attributes_of_text(chars@),
        decreases len - start,
    {
        let end: usize = find_char(&chars, start, ']');
        let ghost rest = chars@.skip(start as int);
        let ghost before = attribute_models(list@);
        proof {
            lemma_index_of(rest, ']');
        }
        if end == len {
            assert(attribute_models(list@) + Seq::<AttributeModel>::empty() =~= attribute_models(
                list@,
            ));
            break;
        }
        let text = from_range(&chars, start, end);
        assert(text@ =~= rest.take(end - start));
        let next: usize = if len - end > 2 {
            end + 2
        } else {
            len
        };
        assert(rest.skip(next - start) =~= chars@.skip(next as int));
        let ghost after = attributes_of_text(chars@.skip(next as int));
        match parse_attribute(text.as_str()) {
            Some(attribute) => {
                list.push(attribute);
                proof {
                    assert(attribute_models(list@) =~= before.push(attribute_model(attribute)));
                    assert(before + (seq![attribute_model(attribute)] + after) =~= attribute_models(
                        list@,
                    ) + after);
                }
            },
            None => {},
        }
        start = next;
    }
    list
}

/// Splitting a step of a selector into its conditions: those that have ended, the one that goes on,
/// the depth of open parentheses, and whether the next character stands for itself.
pub struct ConditionState {
    pub list: Seq<Seq<char>>,
    pub buffer: Seq<char>,
    pub depth: int,
    pub escaped: bool,
}

/// Whether a character starts another condition.
pub open spec fn starts_condition(c: char) -> bool {
    c == '.' || c == '#' || c == '[' || c == '>' || c == ':'
}

pub open spec fn condition_step(state: ConditionState, c: char) -> ConditionState {
    if c == '(' {
        ConditionState { buffer: state.buffer.push(c), depth: state.depth + 1, ..state }
    } else if c == ')' {
        ConditionState { buffer: state.buffer.push(c), depth: state.depth - 1, ..state }
    } else if c == '\\' && !state.escaped {
        ConditionState { escaped: true, ..state }
    } else if state.buffer.len() > 0 && starts_condition(c) && state.depth == 0 && !state.escaped
        && !(state.buffer == seq![':'] && c == ':') {
        ConditionState {
            list: state.list.push(state.buffer),
            buffer: seq![c],
            depth: state.depth,
            escaped: false,
        }
    } else {
        ConditionState { buffer: state.buffer.push(c), escaped: false, ..state }
    }
}

pub open spec fn condition_state(s: Seq<char>) -> ConditionState
    decreases s.len(),
{
    if s.len() == 0 {
        ConditionState { list: Seq::empty(), buffer: Seq::empty(), depth: 0, escaped: false }
    } else {
        condition_step(condition_state(s.drop_last()), s.last())
    }
}

/// The conditions of a step of a selector.
pub open spec fn conditions_of(s: Seq<char>) -> Seq<Seq<char>> {
    let end = condition_state(s);
    if end.buffer.len() > 0 {
        end.list.push(end.buffer)
    } else {
        end.list
    }
}

proof fn lemma_condition_state(s: Seq<char>)
    ensures
        condition_state(s).buffer.len() <= s.len(),
        forall|i: int|
            0 <= i < condition_state(s).list.len() ==> 0 < (#[trigger] condition_state(
                s,
            ).list[i]).len() <= s.len(),
    decreases s.len(),
{
    if s.len() > 0 {
        lemma_condition_state(s.drop_last());
        let before = condition_state(s.drop_last());
        let after = condition_state(s);
        assert forall|i: int| 0 <= i < after.list.len() implies 0 < (#[trigger] after.list[i]).len()
            <= s.len() by {
            if i < before.list.len() {
                assert(after.list[i] == before.list[i]);
            }
        }
    }
}

/// No condition is empty or longer than the step.
proof fn lemma_conditions_are_shorter(s: Seq<char>)
    ensures
        forall|i: int|
            0 <= i < conditions_of(s).len() ==> 0 < (#[trigger] conditions_of(s)[i]).len()
                <= s.len(),
{
    lemma_condition_state(s);
    let end = condition_state(s);
    let all = conditions_of(s);
    assert forall|i: int| 0 <= i < all.len() implies 0 < (#[trigger] all[i]).len() <= s.len() by {
        if i < end.list.len() {
            assert(all[i] == end.list[i]);
        }
    }
}

fn split_conditions(s: &str) -> (r: Vec<String>)
    ensures
        texts_of(r@) == conditions_of(s@),
{
    let chars = to_chars(s);
    let len: usize = chars.len();
    let mut list: Vec<String> = Vec::new();
    let mut buffer: Vec<char> = Vec::new();
    let mut depth: i128 = 0;
    let mut escaped = false;
    let mut at: usize = 0;
    assert(texts_of(list@) =~= Seq::empty());
    assert(buffer@ =~= Seq::empty());
    while at < len
        invariant
            at <= len,
            len == chars@.len(),
            -at <= depth <= at,
            condition_state(chars@.take(at as int)) == (ConditionState {
                list: texts_of(list@),
                buffer: buffer@,
                depth: depth as int,
                escaped,
            }),
        decreases len - at,
    {
        let c: char = chars[at];
        let ghost before = texts_of(list@);
        assert(chars@.take(at + 1).drop_last() =~= chars@.take(at as int));
        let lone_colon = buffer.len() == 1 && buffer[0] == ':' && c == ':';
        proof {
            assert(lone_colon == (buffer@ == seq![':'] && c == ':')) by {
                if buffer@.len() == 1 && buffer@[0] == ':' {
                    assert(buffer@ =~= seq![':']);
                }
            }
        }
        let starts_new = c == '.' || c == '#' || c == '[' || c == '>' || c == ':';
        if c == '(' {
            depth = depth + 1;
            buffer.push(c);
        } else if c == ')' {
            depth = depth - 1;
            buffer.push(c);
        } else if c == '\\' && !escaped {
            escaped = true;
        } else if buffer.len() > 0 && starts_new && depth == 0 && !escaped && !lone_colon {
            list.push(from_chars(&buffer));
            assert(texts_of(list@) =~= before.push(buffer@));
            buffer = Vec::new();
            buffer.push(c);
            assert(buffer@ =~= seq![c]);
        } else {
            buffer.push(c);
            escaped = false;
        }
        at = at + 1;
    }
    assert(chars@.take(len as int) =~= chars@);
    if buffer.len() > 0 {
        let ghost before = texts_of(list@);
        list.push(from_chars(&buffer));
        assert(texts_of(list@) =~= before.push(buffer@));
    }
    list
}

/// What stands between a prefix and a closing parenthesis at the end; `prefix` ends with the
/// opening one.
pub open spec fn argument_of(s: Seq<char>, prefix: Seq<char>) -> Option<Seq<char>> {
    if starts(s, prefix) && ends(s.skip(prefix.len() as int), ")"@) {
        Some(s.subrange(prefix.len() as int, s.len() - 1))
    } else {
        None
    }
}

/// The pseudo class that a text names.
pub open spec fn pseudo_of_text(s: Seq<char>) -> Option<PseudoModel>
    decreases s.len(), 0nat, 0nat,
    via pseudo_of_text_decreases
{
    if let Some(inner) = argument_of(s, "not("@) {
        Some(PseudoModel::Not(parts_of_text(inner)))
    } else if let Some(inner) = argument_of(s, "has("@) {
        Some(PseudoModel::Has(parts_of_text(inner)))
    } else if s == "hover"@ {
        Some(PseudoModel::Hover)
    } else if s == "active"@ {
        Some(PseudoModel::Active)
    } else if s == "before"@ {
        Some(PseudoModel::Before)
    } else if s == "after"@ {
        Some(PseudoModel::After)
    } else if s == "focus"@ {
        Some(PseudoModel::Focus)
    } else if s == "host"@ {
        Some(PseudoModel::Host)
    } else if s == "root"@ {
        Some(PseudoModel::Root)
    } else {
        None
    }
}

#[via_fn]
proof fn pseudo_of_text_decreases(s: Seq<char>) {
    reveal_strlit("not(");
    reveal_strlit("has(");
    reveal_strlit(")");
}

/// The part that one condition writes. Nothing for a pseudo class without a known name.
pub open spec fn part_of_condition(s: Seq<char>) -> Option<PartModel>
    decreases s.len(), 1nat, 0nat,
    via part_of_condition_decreases
{
    if s.len() == 0 {
        None
    } else if s[0] == '.' {
        Some(PartModel::Class(s.drop_first()))
    } else if s[0] == '#' {
        Some(PartModel::Id(s.drop_first()))
    } else if s[0] == ':' {
        match pseudo_of_text(less_prefix(s.drop_first(), ":"@)) {
            Some(class) => Some(PartModel::Pseudo(class)),
            None => None,
        }
    } else if s[0] == '[' {
        Some(PartModel::Attributes(attributes_of_text(s.drop_first())))
    } else if s[0] == '>' {
        Some(PartModel::ArrowRight)
    } else if s[0] == '&' {
        Some(PartModel::Ampersand)
    } else {
        Some(PartModel::Tag(s))
    }
}

#[via_fn]
proof fn part_of_condition_decreases(s: Seq<char>) {
    reveal_strlit(":");
}

/// The parts that conditions write. Nothing where one of them writes none.
pub open spec fn parts_of_conditions(list: Seq<Seq<char>>, bound: nat) -> Option<Seq<PartModel>>
    decreases bound, 2nat, list.len(),
{
    if list.len() == 0 {
        Some(Seq::empty())
    } else {
        match parts_of_conditions(list.drop_last(), bound) {
            None => None,
            Some(before) => if list.last().len() > bound {
                None
            } else {
                match part_of_condition(list.last()) {
                    Some(part) => Some(before.push(part)),
                    None => None,
                }
            },
        }
    }
}

/// The part that one step of a selector writes. Nothing for an empty step or an unknown one.
pub open spec fn part_of_piece(s: Seq<char>) -> Option<PartModel>
    decreases s.len(), 3nat, 0nat,
{
    match parts_of_conditions(conditions_of(s), s.len()) {
        None => None,
        Some(parts) => if parts.len() > 1 {
            Some(PartModel::Combined(parts))
        } else if parts.len() == 1 {
            Some(parts[0])
        } else {
            None
        },
    }
}

/// The parts that the steps of a selector write. Steps that write none are left out.
pub open spec fn parts_of_pieces(list: Seq<Seq<char>>, bound: nat) -> Seq<PartModel>
    decreases bound, 4nat, list.len(),
{
    if list.len() == 0 {
        Seq::empty()
    } else {
        let before = parts_of_pieces(list.drop_last(), bound);
        if list.last().len() > bound {
            before
        } else {
            match part_of_piece(list.last()) {
                Some(part) => before.push(part),
                None => before,
            }
        }
    }
}

/// The parts of a selector, whose steps are separated by spaces and arrows.
pub open spec fn parts_of_text(s: Seq<char>) -> Seq<PartModel>
    decreases s.len(), 5nat, 0nat,
{
    parts_of_pieces(split_outside(s, ' ', seq!['>']), s.len())
}

fn parse_argument(s: &str, prefix: &str) -> (r: Option<String>)
    ensures
        match (r, argument_of(s@, prefix@)) {
            (Some(inner), Some(model)) => inner@ == model,
            (None, None) => true,
            _ => false,
        },
{
    proof {
        reveal_strlit(")");
    }
    match strip_prefix(s, prefix) {
        None => None,
        Some(rest) => match strip_suffix(rest.as_str(), ")") {
            None => None,
            Some(inner) => {
                assert(inner@ =~= s@.subrange(prefix@.len() as int, s@.len() - 1));
                Some(inner)
            },
        },
    }
}

fn parse_pseudo_class(value: &str) -> (r: Option<PseudoClass>)
    ensures
        match (r, pseudo_of_text(value@)) {
            (Some(class), Some(model)) => pseudo_model(class) == model,
            (None, None) => true,
            _ => false,
        },
    decreases value@.len(), 0nat,
{
    proof {
        reveal_strlit("not(");
        reveal_strlit("has(");
        reveal_strlit(")");
    }
    match parse_argument(value, "not(") {
        Some(inner) => {
            return Some(PseudoClass::Not(selector_to_parts(inner.as_str())));
        },
        None => {},
    }
    match parse_argument(value, "has(") {
        Some(inner) => {
            return Some(PseudoClass::Has(selector_to_parts(inner.as_str())));
        },
        None => {},
    }
    if same_text(value, "hover") {
        return Some(PseudoClass::Hover);
    }
    if same_text(value, "active") {
        return Some(PseudoClass::Active);
    }
    if same_text(value, "before") {
        return Some(PseudoClass::Before);
    }
    if same_text(value, "after") {
        return Some(PseudoClass::After);
    }
    if same_text(value, "focus") {
        return Some(PseudoClass::Focus);
    }
    if same_text(value, "host") {
        return Some(PseudoClass::Host);
    }
    if same_text(value, "root") {
        return Some(PseudoClass::Root);
    }
    None
}

fn parse_condition(condition: &str) -> (r: Option<ClassNamePart>)
    ensures
        match (r, part_of_condition(condition@)) {
            (Some(part), Some(model)) => part_model(part) == model,
            (None, None) => true,
            _ => false,
        },
    decreases condition@.len(), 1nat,
{
    proof {
        reveal_strlit(":");
    }
    let chars = to_chars(condition);
    if chars.len() == 0 {
        return None;
    }
    let rest = from_range(&chars, 1, chars.len());
    assert(rest@ =~= condition@.drop_first());
    match chars[0] {
        '.' => Some(ClassNamePart::Class(rest)),
        '#' => Some(ClassNamePart::Id(rest)),
        ':' => {
            let name = without_prefix(rest, ":");
            match parse_pseudo_class(name.as_str()) {
                Some(class) => Some(ClassNamePart::PseudoClass(class)),
                None => None,
            }
        },
        '[' => Some(ClassNamePart::Attributes(parse_attributes(rest.as_str()))),
        '>' => Some(ClassNamePart::ArrowRight),
        '&' => Some(ClassNamePart::Ampersand),
        _ => Some(ClassNamePart::Tag(condition.to_owned())),
    }
}

proof fn lemma_failed_conditions(list: Seq<Seq<char>>, bound: nat, at: int)
    requires
        0 <= at <= list.len(),
        parts_of_conditions(list.take(at), bound) is None,
    ensures
        parts_of_conditions(list, bound) is None,
    decreases list.len(),
{
    if at == list.len() {
        assert(list.take(at) =~= list);
    } else {
        assert(list.drop_last().take(at) =~= list.take(at));
        lemma_failed_conditions(list.drop_last(), bound, at);
    }
}

fn parse_piece(piece: &str) -> (r: Option<ClassNamePart>)
    ensures
        match (r, part_of_piece(piece@)) {
            (Some(part), Some(model)) => part_model(part) == model,
            (None, None) => true,
            _ => false,
        },
    decreases piece@.len(), 3nat,
{
    let conditions = split_conditions(piece);
    let ghost models = conditions_of(piece@);
    proof {
        lemma_conditions_are_shorter(piece@);
    }
    let mut parts: Vec<ClassNamePart> = Vec::new();
    let mut at: usize = 0;
    while at < conditions.len()
        invariant
            at <= conditions@.len(),
            models == texts_of(conditions@),
            models == conditions_of(piece@),
            forall|i: int|
                0 <= i < models.len() ==> 0 < (#[trigger] models[i]).len() <= piece@.len(),
            parts_of_conditions(models.take(at as int), piece@.len()) == Some(
                part_models(parts@, parts@.len()),
            ),
        decreases conditions@.len() - at,
    {
        proof {
            assert(models.take(at + 1).drop_last() =~= models.take(at as int));
            assert(models[at as int] == conditions@[at as int]@);
        }
        match parse_condition(conditions[at].as_str()) {
            None => {
                proof {
                    lemma_failed_conditions(models, piece@.len(), at + 1);
                }
                return None;
            },
            Some(part) => {
                let ghost before = parts@;
                parts.push(part);
                proof {
                    lemma_part_models_prefix(before, parts@, before.len());
                }
            },
        }
        at = at + 1;
    }
    assert(models.take(models.len() as int) =~= models);
    proof {
        lemma_part_models_prefix(parts@, parts@, parts@.len());
    }
    if parts.len() > 1 {
        Some(ClassNamePart::Combined(parts))
    } else {
        proof {
            if parts@.len() == 1 {
                assert(part_models(parts@, 1) == part_models(parts@, 0).push(part_model(parts@[0])));
                assert(part_models(parts@, 1)[0] == part_model(parts@[0]));
            }
        }
        parts.pop()
    }
}

/// The parts of a selector, whose steps are separated by spaces and arrows. Steps that name an
/// unknown pseudo class are left out.
pub fn selector_to_parts(selector: &str) -> (r: Vec<ClassNamePart>)
    ensures
        part_models(r@, r@.len()) == parts_of_text(selector@),
    decreases selector@.len(), 5nat,
{
    let arrow: [char; 1] = ['>'];
    assert(arrow@ =~= seq!['>']);
    let steps = split_ignoring_parentheses(selector, ' ', &arrow);
    let ghost models = split_outside(selector@, ' ', seq!['>']);
    proof {
        lemma_pieces_are_shorter(selector@, ' ', seq!['>']);
    }
    let mut parts: Vec<ClassNamePart> = Vec::new();
    let mut at: usize = 0;
    while at < steps.len()
        invariant
            at <= steps@.len(),
            models == texts_of(steps@),
            models == split_outside(selector@, ' ', seq!['>']),
            forall|i: int| 0 <= i < models.len() ==> (#[trigger] models[i]).len() <= selector@.len(),
            parts_of_pieces(models.take(at as int), selector@.len()) == part_models(
                parts@,
                parts@.len(),
            ),
        decreases steps@.len() - at,
    {
        proof {
            assert(models.take(at + 1).drop_last() =~= models.take(at as int));
            assert(models[at as int] == steps@[at as int]@);
        }
        match parse_piece(steps[at].as_str()) {
            None => {},
            Some(part) => {
                let ghost before = parts@;
                parts.push(part);
                proof {
                    lemma_part_models_prefix(before, parts@, before.len());
                }
            },
        }
        at = at + 1;
    }
    assert(models.take(models.len() as int) =~= models);
    parts
}

} // verus!
