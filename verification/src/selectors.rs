//! Selectors in the form in which elements are matched against them.
use vstd::prelude::*;

use crate::css::attribute_model;
use crate::css::attribute_models;
use crate::css::AttributeModel;
use crate::css::ClassNamePartAttribute;
use crate::text::same_text;

verus! {

/// A pseudo class. Nested selectors are matched beforehand: the indexed forms name the places of
/// the results.
#[derive(Debug, PartialEq)]
pub enum SelectorPseudo {
    Root,
    Hover,
    FirstChild,
    NthChild(String),
    FirstOfType,
    NthOfType(String),
    NthLastChild(String),
    LastChild,
    OnlyChild,
    Empty,
    Link,
    Visited,
    Disabled,
    Checked,
    Lang(String),
    Not(Vec<SelectorPart>),
    Is(Vec<Vec<SelectorPart>>),
    Where(Vec<Vec<SelectorPart>>),
    IndexedNot(usize),
    IndexedIs(Vec<usize>),
    IndexedWhere(Vec<usize>),
    /// One that no element has.
    Other,
}

/// A step of a selector. Classes are named by number.
#[derive(Debug, PartialEq)]
pub enum SelectorPart {
    Class(usize),
    Id(String),
    Pseudo(SelectorPseudo),
    Attributes(Vec<ClassNamePartAttribute>),
    Tag(String),
    Combined(Vec<SelectorPart>),
    ArrowRight,
    Ampersand,
    Tilde,
    AdjacentSibling,
}

/// What a [`SelectorPseudo`] holds.
pub enum PseudoSpec {
    Root,
    Hover,
    FirstChild,
    NthChild(Seq<char>),
    FirstOfType,
    NthOfType(Seq<char>),
    NthLastChild(Seq<char>),
    LastChild,
    OnlyChild,
    Empty,
    Link,
    Visited,
    Disabled,
    Checked,
    Lang(Seq<char>),
    Not(Seq<PartSpec>),
    Is(Seq<Seq<PartSpec>>),
    Where(Seq<Seq<PartSpec>>),
    IndexedNot(usize),
    IndexedIs(Seq<usize>),
    IndexedWhere(Seq<usize>),
    Other,
}

/// What a [`SelectorPart`] holds.
pub enum PartSpec {
    Class(usize),
    Id(Seq<char>),
    Pseudo(PseudoSpec),
    Attributes(Seq<AttributeModel>),
    Tag(Seq<char>),
    Combined(Seq<PartSpec>),
    ArrowRight,
    Ampersand,
    Tilde,
    AdjacentSibling,
}

pub open spec fn pseudo_spec(class: SelectorPseudo) -> PseudoSpec
    decreases class, 0nat,
{
    match class {
        SelectorPseudo::Root => PseudoSpec::Root,
        SelectorPseudo::Hover => PseudoSpec::Hover,
        SelectorPseudo::FirstChild => PseudoSpec::FirstChild,
        SelectorPseudo::NthChild(n) => PseudoSpec::NthChild(n@),
        SelectorPseudo::FirstOfType => PseudoSpec::FirstOfType,
        SelectorPseudo::NthOfType(n) => PseudoSpec::NthOfType(n@),
        SelectorPseudo::NthLastChild(n) => PseudoSpec::NthLastChild(n@),
        SelectorPseudo::LastChild => PseudoSpec::LastChild,
        SelectorPseudo::OnlyChild => PseudoSpec::OnlyChild,
        SelectorPseudo::Empty => PseudoSpec::Empty,
        SelectorPseudo::Link => PseudoSpec::Link,
        SelectorPseudo::Visited => PseudoSpec::Visited,
        SelectorPseudo::Disabled => PseudoSpec::Disabled,
        SelectorPseudo::Checked => PseudoSpec::Checked,
        SelectorPseudo::Lang(target) => PseudoSpec::Lang(target@),
        SelectorPseudo::Not(parts) => PseudoSpec::Not(part_specs(parts@, parts@.len())),
        SelectorPseudo::Is(list) => PseudoSpec::Is(selector_specs(list@, list@.len())),
        SelectorPseudo::Where(list) => PseudoSpec::Where(selector_specs(list@, list@.len())),
        SelectorPseudo::IndexedNot(place) => PseudoSpec::IndexedNot(place),
        SelectorPseudo::IndexedIs(places) => PseudoSpec::IndexedIs(places@),
        SelectorPseudo::IndexedWhere(places) => PseudoSpec::IndexedWhere(places@),
        SelectorPseudo::Other => PseudoSpec::Other,
    }
}

pub open spec fn part_spec(part: SelectorPart) -> PartSpec
    decreases part, 0nat,
{
    match part {
        SelectorPart::Class(class) => PartSpec::Class(class),
        SelectorPart::Id(id) => PartSpec::Id(id@),
        SelectorPart::Pseudo(class) => PartSpec::Pseudo(pseudo_spec(class)),
        SelectorPart::Attributes(list) => PartSpec::Attributes(attribute_models(list@)),
        SelectorPart::Tag(tag) => PartSpec::Tag(tag@),
        SelectorPart::Combined(parts) => PartSpec::Combined(part_specs(parts@, parts@.len())),
        SelectorPart::ArrowRight => PartSpec::ArrowRight,
        SelectorPart::Ampersand => PartSpec::Ampersand,
        SelectorPart::Tilde => PartSpec::Tilde,
        SelectorPart::AdjacentSibling => PartSpec::AdjacentSibling,
    }
}

/// What the first parts of a list hold.
pub open spec fn part_specs(list: Seq<SelectorPart>, count: nat) -> Seq<PartSpec>
    decreases list, count,
{
    if count == 0 || count > list.len() {
        Seq::empty()
    } else {
        part_specs(list, (count - 1) as nat).push(part_spec(list[count - 1]))
    }
}

/// What the first selectors of a list hold.
pub open spec fn selector_specs(list: Seq<Vec<SelectorPart>>, count: nat) -> Seq<Seq<PartSpec>>
    decreases list, count,
{
    if count == 0 || count > list.len() {
        Seq::empty()
    } else {
        selector_specs(list, (count - 1) as nat).push(
            part_specs(list[count - 1]@, list[count - 1]@.len()),
        )
    }
}

pub open spec fn parts_of(list: Seq<SelectorPart>) -> Seq<PartSpec> {
    part_specs(list, list.len())
}

pub open spec fn selectors_of(list: Seq<Vec<SelectorPart>>) -> Seq<Seq<PartSpec>> {
    selector_specs(list, list.len())
}

pub proof fn lemma_part_specs(list: Seq<SelectorPart>, count: nat)
    requires
        count <= list.len(),
    ensures
        part_specs(list, count).len() == count,
        forall|i: int| 0 <= i < count ==> #[trigger] part_specs(list, count)[i] == part_spec(list[i]),
    decreases count,
{
    if count > 0 {
        lemma_part_specs(list, (count - 1) as nat);
    }
}

pub proof fn lemma_selector_specs(list: Seq<Vec<SelectorPart>>, count: nat)
    requires
        count <= list.len(),
    ensures
        selector_specs(list, count).len() == count,
        forall|i: int|
            0 <= i < count ==> #[trigger] selector_specs(list, count)[i] == parts_of(list[i]@),
    decreases count,
{
    if count > 0 {
        lemma_selector_specs(list, (count - 1) as nat);
    }
}

pub(crate) proof fn lemma_part_specs_push(list: Seq<SelectorPart>, part: SelectorPart)
    ensures
        parts_of(list.push(part)) == parts_of(list).push(part_spec(part)),
{
    lemma_part_specs(list, list.len());
    lemma_part_specs(list.push(part), list.push(part).len());
    assert(parts_of(list.push(part)) =~= parts_of(list).push(part_spec(part)));
}

pub(crate) proof fn lemma_selector_specs_push(
    list: Seq<Vec<SelectorPart>>,
    selector: Vec<SelectorPart>,
)
    ensures
        selectors_of(list.push(selector)) == selectors_of(list).push(parts_of(selector@)),
{
    lemma_selector_specs(list, list.len());
    lemma_selector_specs(list.push(selector), list.push(selector).len());
    assert(selectors_of(list.push(selector)) =~= selectors_of(list).push(parts_of(selector@)));
}

fn copy_attributes(list: &Vec<ClassNamePartAttribute>) -> (r: Vec<ClassNamePartAttribute>)
    ensures
        attribute_models(r@) == attribute_models(list@),
{
    let mut copy: Vec<ClassNamePartAttribute> = Vec::new();
    let mut at: usize = 0;
    while at < list.len()
        invariant
            at <= list@.len(),
            copy@.len() == at,
            forall|i: int|
                0 <= i < at ==> attribute_model(#[trigger] copy@[i]) == attribute_model(list@[i]),
        decreases list@.len() - at,
    {
        let attribute = match &list[at] {
            ClassNamePartAttribute::KeyValue((key, value)) => ClassNamePartAttribute::KeyValue(
                (key.clone(), value.clone()),
            ),
            ClassNamePartAttribute::Key(key) => ClassNamePartAttribute::Key(key.clone()),
        };
        copy.push(attribute);
        at = at + 1;
    }
    assert(attribute_models(copy@) =~= attribute_models(list@));
    copy
}

fn copy_numbers(list: &Vec<usize>) -> (r: Vec<usize>)
    ensures
        r@ == list@,
{
    let copy = list.clone();
    assert(copy@ =~= list@);
    copy
}

/// A copy that holds the same.
pub fn copy_part(part: &SelectorPart) -> (r: SelectorPart)
    ensures
        part_spec(r) == part_spec(*part),
    decreases *part, 0nat,
{
    match part {
        SelectorPart::Class(class) => SelectorPart::Class(*class),
        SelectorPart::Id(id) => SelectorPart::Id(id.clone()),
        SelectorPart::Pseudo(class) => SelectorPart::Pseudo(copy_pseudo(class)),
        SelectorPart::Attributes(list) => SelectorPart::Attributes(copy_attributes(list)),
        SelectorPart::Tag(tag) => SelectorPart::Tag(tag.clone()),
        SelectorPart::Combined(parts) => SelectorPart::Combined(copy_parts(parts)),
        SelectorPart::ArrowRight => SelectorPart::ArrowRight,
        SelectorPart::Ampersand => SelectorPart::Ampersand,
        SelectorPart::Tilde => SelectorPart::Tilde,
        SelectorPart::AdjacentSibling => SelectorPart::AdjacentSibling,
    }
}

fn copy_pseudo(class: &SelectorPseudo) -> (r: SelectorPseudo)
    ensures
        pseudo_spec(r) == pseudo_spec(*class),
    decreases *class, 0nat,
{
    match class {
        SelectorPseudo::Root => SelectorPseudo::Root,
        SelectorPseudo::Hover => SelectorPseudo::Hover,
        SelectorPseudo::FirstChild => SelectorPseudo::FirstChild,
        SelectorPseudo::NthChild(n) => SelectorPseudo::NthChild(n.clone()),
        SelectorPseudo::FirstOfType => SelectorPseudo::FirstOfType,
        SelectorPseudo::NthOfType(n) => SelectorPseudo::NthOfType(n.clone()),
        SelectorPseudo::NthLastChild(n) => SelectorPseudo::NthLastChild(n.clone()),
        SelectorPseudo::LastChild => SelectorPseudo::LastChild,
        SelectorPseudo::OnlyChild => SelectorPseudo::OnlyChild,
        SelectorPseudo::Empty => SelectorPseudo::Empty,
        SelectorPseudo::Link => SelectorPseudo::Link,
        SelectorPseudo::Visited => SelectorPseudo::Visited,
        SelectorPseudo::Disabled => SelectorPseudo::Disabled,
        SelectorPseudo::Checked => SelectorPseudo::Checked,
        SelectorPseudo::Lang(target) => SelectorPseudo::Lang(target.clone()),
        SelectorPseudo::Not(parts) => SelectorPseudo::Not(copy_parts(parts)),
        SelectorPseudo::Is(list) => SelectorPseudo::Is(copy_selectors(list)),
        SelectorPseudo::Where(list) => SelectorPseudo::Where(copy_selectors(list)),
        SelectorPseudo::IndexedNot(place) => SelectorPseudo::IndexedNot(*place),
        SelectorPseudo::IndexedIs(places) => SelectorPseudo::IndexedIs(copy_numbers(places)),
        SelectorPseudo::IndexedWhere(places) => SelectorPseudo::IndexedWhere(copy_numbers(places)),
        SelectorPseudo::Other => SelectorPseudo::Other,
    }
}

/// A copy that holds the same.
pub fn copy_parts(parts: &Vec<SelectorPart>) -> (r: Vec<SelectorPart>)
    ensures
        parts_of(r@) == parts_of(parts@),
    decreases parts@, 1nat,
{
    let mut copy: Vec<SelectorPart> = Vec::new();
    let mut at: usize = 0;
    while at < parts.len()
        invariant
            at <= parts@.len(),
            parts_of(copy@) == part_specs(parts@, at as nat),
        decreases parts@.len() - at,
    {
        let part = copy_part(&parts[at]);
        proof {
            lemma_part_specs_push(copy@, part);
        }
        copy.push(part);
        at = at + 1;
    }
    copy
}

/// A copy that holds the same.
pub fn copy_selectors(list: &Vec<Vec<SelectorPart>>) -> (r: Vec<Vec<SelectorPart>>)
    ensures
        selectors_of(r@) == selectors_of(list@),
    decreases list@, 2nat,
{
    let mut copy: Vec<Vec<SelectorPart>> = Vec::new();
    let mut at: usize = 0;
    while at < list.len()
        invariant
            at <= list@.len(),
            selectors_of(copy@) == selector_specs(list@, at as nat),
        decreases list@.len() - at,
    {
        let selector = copy_parts(&list[at]);
        proof {
            lemma_selector_specs_push(copy@, selector);
        }
        copy.push(selector);
        at = at + 1;
    }
    copy
}

fn same_attributes(a: &Vec<ClassNamePartAttribute>, b: &Vec<ClassNamePartAttribute>) -> (r: bool)
    ensures
        r == (attribute_models(a@) == attribute_models(b@)),
{
    if a.len() != b.len() {
        assert(attribute_models(a@).len() != attribute_models(b@).len());
        return false;
    }
    let mut at: usize = 0;
    while at < a.len()
        invariant
            at <= a@.len(),
            a@.len() == b@.len(),
            forall|i: int|
                0 <= i < at ==> attribute_model(#[trigger] a@[i]) == attribute_model(b@[i]),
        decreases a@.len() - at,
    {
        let same = match (&a[at], &b[at]) {
            (
                ClassNamePartAttribute::KeyValue((key, value)),
                ClassNamePartAttribute::KeyValue((other, other_value)),
            ) => same_text(key.as_str(), other.as_str()) && same_text(
                value.as_str(),
                other_value.as_str(),
            ),
            (ClassNamePartAttribute::Key(key), ClassNamePartAttribute::Key(other)) => same_text(
                key.as_str(),
                other.as_str(),
            ),
            _ => false,
        };
        if !same {
            assert(attribute_models(a@)[at as int] != attribute_models(b@)[at as int]);
            return false;
        }
        at = at + 1;
    }
    assert(attribute_models(a@) =~= attribute_models(b@));
    true
}

fn same_numbers(a: &Vec<usize>, b: &Vec<usize>) -> (r: bool)
    ensures
        r == (a@ == b@),
{
    if a.len() != b.len() {
        return false;
    }
    let mut at: usize = 0;
    while at < a.len()
        invariant
            at <= a@.len(),
            a@.len() == b@.len(),
            forall|i: int| 0 <= i < at ==> a@[i] == b@[i],
        decreases a@.len() - at,
    {
        if a[at] != b[at] {
            return false;
        }
        at = at + 1;
    }
    assert(a@ =~= b@);
    true
}

/// Whether two parts hold the same.
pub fn same_part(a: &SelectorPart, b: &SelectorPart) -> (r: bool)
    ensures
        r == (part_spec(*a) == part_spec(*b)),
    decreases *a, 0nat,
{
    match (a, b) {
        (SelectorPart::Class(a), SelectorPart::Class(b)) => *a == *b,
        (SelectorPart::Id(a), SelectorPart::Id(b)) => same_text(a.as_str(), b.as_str()),
        (SelectorPart::Pseudo(a), SelectorPart::Pseudo(b)) => same_pseudo(a, b),
        (SelectorPart::Attributes(a), SelectorPart::Attributes(b)) => same_attributes(a, b),
        (SelectorPart::Tag(a), SelectorPart::Tag(b)) => same_text(a.as_str(), b.as_str()),
        (SelectorPart::Combined(a), SelectorPart::Combined(b)) => same_parts(a, b),
        (SelectorPart::ArrowRight, SelectorPart::ArrowRight) => true,
        (SelectorPart::Ampersand, SelectorPart::Ampersand) => true,
        (SelectorPart::Tilde, SelectorPart::Tilde) => true,
        (SelectorPart::AdjacentSibling, SelectorPart::AdjacentSibling) => true,
        _ => false,
    }
}

fn same_pseudo(a: &SelectorPseudo, b: &SelectorPseudo) -> (r: bool)
    ensures
        r == (pseudo_spec(*a) == pseudo_spec(*b)),
    decreases *a, 0nat,
{
    match (a, b) {
        (SelectorPseudo::Root, SelectorPseudo::Root) => true,
        (SelectorPseudo::Hover, SelectorPseudo::Hover) => true,
        (SelectorPseudo::FirstChild, SelectorPseudo::FirstChild) => true,
        (SelectorPseudo::NthChild(a), SelectorPseudo::NthChild(b)) => same_text(
            a.as_str(),
            b.as_str(),
        ),
        (SelectorPseudo::FirstOfType, SelectorPseudo::FirstOfType) => true,
        (SelectorPseudo::NthOfType(a), SelectorPseudo::NthOfType(b)) => same_text(
            a.as_str(),
            b.as_str(),
        ),
        (SelectorPseudo::NthLastChild(a), SelectorPseudo::NthLastChild(b)) => same_text(
            a.as_str(),
            b.as_str(),
        ),
        (SelectorPseudo::LastChild, SelectorPseudo::LastChild) => true,
        (SelectorPseudo::OnlyChild, SelectorPseudo::OnlyChild) => true,
        (SelectorPseudo::Empty, SelectorPseudo::Empty) => true,
        (SelectorPseudo::Link, SelectorPseudo::Link) => true,
        (SelectorPseudo::Visited, SelectorPseudo::Visited) => true,
        (SelectorPseudo::Disabled, SelectorPseudo::Disabled) => true,
        (SelectorPseudo::Checked, SelectorPseudo::Checked) => true,
        (SelectorPseudo::Lang(a), SelectorPseudo::Lang(b)) => same_text(a.as_str(), b.as_str()),
        (SelectorPseudo::Not(a), SelectorPseudo::Not(b)) => same_parts(a, b),
        (SelectorPseudo::Is(a), SelectorPseudo::Is(b)) => same_selectors(a, b),
        (SelectorPseudo::Where(a), SelectorPseudo::Where(b)) => same_selectors(a, b),
        (SelectorPseudo::IndexedNot(a), SelectorPseudo::IndexedNot(b)) => *a == *b,
        (SelectorPseudo::IndexedIs(a), SelectorPseudo::IndexedIs(b)) => same_numbers(a, b),
        (SelectorPseudo::IndexedWhere(a), SelectorPseudo::IndexedWhere(b)) => same_numbers(a, b),
        (SelectorPseudo::Other, SelectorPseudo::Other) => true,
        _ => false,
    }
}

/// Whether two selectors hold the same.
pub fn same_parts(a: &Vec<SelectorPart>, b: &Vec<SelectorPart>) -> (r: bool)
    ensures
        r == (parts_of(a@) == parts_of(b@)),
    decreases a@, 1nat,
{
    proof {
        lemma_part_specs(a@, a@.len());
        lemma_part_specs(b@, b@.len());
    }
    if a.len() != b.len() {
        return false;
    }
    let mut at: usize = 0;
    while at < a.len()
        invariant
            at <= a@.len(),
            a@.len() == b@.len(),
            parts_of(a@).len() == a@.len(),
            parts_of(b@).len() == b@.len(),
            forall|i: int|
                0 <= i < a@.len() ==> #[trigger] parts_of(a@)[i] == part_spec(a@[i]),
            forall|i: int|
                0 <= i < b@.len() ==> #[trigger] parts_of(b@)[i] == part_spec(b@[i]),
            forall|i: int| 0 <= i < at ==> #[trigger] parts_of(a@)[i] == parts_of(b@)[i],
        decreases a@.len() - at,
    {
        if !same_part(&a[at], &b[at]) {
            assert(parts_of(a@)[at as int] != parts_of(b@)[at as int]);
            return false;
        }
        at = at + 1;
    }
    assert(parts_of(a@) =~= parts_of(b@));
    true
}

fn same_selectors(a: &Vec<Vec<SelectorPart>>, b: &Vec<Vec<SelectorPart>>) -> (r: bool)
    ensures
        r == (selectors_of(a@) == selectors_of(b@)),
    decreases a@, 2nat,
{
    proof {
        lemma_selector_specs(a@, a@.len());
        lemma_selector_specs(b@, b@.len());
    }
    if a.len() != b.len() {
        return false;
    }
    let mut at: usize = 0;
    while at < a.len()
        invariant
            at <= a@.len(),
            a@.len() == b@.len(),
            selectors_of(a@).len() == a@.len(),
            selectors_of(b@).len() == b@.len(),
            forall|i: int|
                0 <= i < a@.len() ==> #[trigger] selectors_of(a@)[i] == parts_of(a@[i]@),
            forall|i: int|
                0 <= i < b@.len() ==> #[trigger] selectors_of(b@)[i] == parts_of(b@[i]@),
            forall|i: int| 0 <= i < at ==> #[trigger] selectors_of(a@)[i] == selectors_of(b@)[i],
        decreases a@.len() - at,
    {
        if !same_parts(&a[at], &b[at]) {
            assert(selectors_of(a@)[at as int] != selectors_of(b@)[at as int]);
            return false;
        }
        at = at + 1;
    }
    assert(selectors_of(a@) =~= selectors_of(b@));
    true
}

/// How many parts a part holds, with those of nested selectors.
pub open spec fn part_size(part: PartSpec) -> nat
    decreases part, 0nat,
{
    match part {
        PartSpec::Combined(parts) => 1 + parts_size(parts, parts.len()),
        PartSpec::Pseudo(PseudoSpec::Not(parts)) => 2 + parts_size(parts, parts.len()),
        PartSpec::Pseudo(PseudoSpec::Is(list)) => 1 + selectors_size(list, list.len()),
        PartSpec::Pseudo(PseudoSpec::Where(list)) => 1 + selectors_size(list, list.len()),
        _ => 1,
    }
}

pub open spec fn parts_size(parts: Seq<PartSpec>, count: nat) -> nat
    decreases parts, count,
{
    if count == 0 || count > parts.len() {
        0
    } else {
        parts_size(parts, (count - 1) as nat) + part_size(parts[count - 1])
    }
}

pub open spec fn selectors_size(list: Seq<Seq<PartSpec>>, count: nat) -> nat
    decreases list, count,
{
    if count == 0 || count > list.len() {
        0
    } else {
        selectors_size(list, (count - 1) as nat) + 1 + parts_size(
            list[count - 1],
            list[count - 1].len(),
        )
    }
}

/// The size of a selector.
pub open spec fn selector_size(parts: Seq<PartSpec>) -> nat {
    parts_size(parts, parts.len())
}

/// The first place of a selector in a list; the length where it does not occur.
pub open spec fn selector_place(list: Seq<Seq<PartSpec>>, selector: Seq<PartSpec>) -> int
    decreases list.len(),
{
    if list.len() == 0 || list[0] == selector {
        0
    } else {
        1 + selector_place(list.drop_first(), selector)
    }
}

/// The list after a selector has been given a place.
pub open spec fn with_selector(list: Seq<Seq<PartSpec>>, selector: Seq<PartSpec>) -> Seq<
    Seq<PartSpec>,
> {
    if selector_place(list, selector) < list.len() {
        list
    } else {
        list.push(selector)
    }
}

/// The place of a selector is the first where it stands.
pub proof fn lemma_selector_place(list: Seq<Seq<PartSpec>>, selector: Seq<PartSpec>)
    ensures
        0 <= selector_place(list, selector) <= list.len(),
        selector_place(list, selector) < list.len() ==> list[selector_place(list, selector)]
            == selector,
        forall|i: int| 0 <= i < selector_place(list, selector) ==> list[i] != selector,
    decreases list.len(),
{
    if list.len() > 0 && list[0] != selector {
        lemma_selector_place(list.drop_first(), selector);
        assert forall|i: int| 0 <= i < selector_place(list, selector) implies list[i]
            != selector by {
            if i > 0 {
                assert(list.drop_first()[i - 1] == list[i]);
            }
        }
    }
}

/// A part whose nested selectors are replaced by their places in a list, and the list with them.
pub open spec fn indexed_part(part: PartSpec, list: Seq<Seq<PartSpec>>) -> (
    PartSpec,
    Seq<Seq<PartSpec>>,
)
    decreases part, 0nat,
{
    match part {
        PartSpec::Pseudo(PseudoSpec::Not(selector)) => {
            let place = selector_place(list, selector);
            let (_, after) = indexed_parts(selector, selector.len(), with_selector(list, selector));
            (PartSpec::Pseudo(PseudoSpec::IndexedNot(place as usize)), after)
        },
        PartSpec::Pseudo(PseudoSpec::Is(selectors)) => {
            let (places, after) = indexed_selectors(selectors, selectors.len(), list);
            (PartSpec::Pseudo(PseudoSpec::IndexedIs(places)), after)
        },
        PartSpec::Pseudo(PseudoSpec::Where(selectors)) => {
            let (places, after) = indexed_selectors(selectors, selectors.len(), list);
            (PartSpec::Pseudo(PseudoSpec::IndexedWhere(places)), after)
        },
        PartSpec::Combined(parts) => {
            let (changed, after) = indexed_parts(parts, parts.len(), list);
            (PartSpec::Combined(changed), after)
        },
        _ => (part, list),
    }
}

/// The first parts of a selector, with nested selectors replaced by places.
pub open spec fn indexed_parts(parts: Seq<PartSpec>, count: nat, list: Seq<Seq<PartSpec>>) -> (
    Seq<PartSpec>,
    Seq<Seq<PartSpec>>,
)
    decreases parts, count,
{
    if count == 0 || count > parts.len() {
        (Seq::empty(), list)
    } else {
        let (before, between) = indexed_parts(parts, (count - 1) as nat, list);
        let (part, after) = indexed_part(parts[count - 1], between);
        (before.push(part), after)
    }
}

/// The places of the first selectors of a list.
pub open spec fn indexed_selectors(
    selectors: Seq<Seq<PartSpec>>,
    count: nat,
    list: Seq<Seq<PartSpec>>,
) -> (Seq<usize>, Seq<Seq<PartSpec>>)
    decreases selectors, count,
{
    if count == 0 || count > selectors.len() {
        (Seq::empty(), list)
    } else {
        let (before, between) = indexed_selectors(selectors, (count - 1) as nat, list);
        let selector = selectors[count - 1];
        let (_, after) = indexed_parts(selector, selector.len(), with_selector(between, selector));
        (before.push(selector_place(between, selector) as usize), after)
    }
}

/// All selectors of a list are smaller than a bound, other than those of an earlier list.
pub open spec fn new_are_smaller(
    before: Seq<Seq<PartSpec>>,
    after: Seq<Seq<PartSpec>>,
    bound: nat,
) -> bool {
    &&& before.len() <= after.len()
    &&& forall|i: int|
        before.len() <= i < after.len() ==> 1 + selector_size(#[trigger] after[i]) < bound
}

proof fn lemma_with_selector(list: Seq<Seq<PartSpec>>, selector: Seq<PartSpec>, bound: nat)
    requires
        1 + selector_size(selector) < bound,
    ensures
        new_are_smaller(list, with_selector(list, selector), bound),
{
}

/// Every selector that indexing collects from a part is smaller than the part.
pub proof fn lemma_collected_are_smaller(part: PartSpec, list: Seq<Seq<PartSpec>>)
    ensures
        new_are_smaller(list, indexed_part(part, list).1, part_size(part)),
    decreases part, 0nat,
{
    match part {
        PartSpec::Pseudo(PseudoSpec::Not(selector)) => {
            lemma_with_selector(list, selector, part_size(part));
            let placed = with_selector(list, selector);
            lemma_collected_from_parts(selector, selector.len(), placed, part_size(part));
            lemma_indexing_parts_extends(selector, selector.len(), placed);
            let after = indexed_parts(selector, selector.len(), placed).1;
            assert forall|i: int| list.len() <= i < after.len() implies 1 + selector_size(
                #[trigger] after[i],
            ) < part_size(part) by {
                if i < placed.len() {
                    assert(after[i] == placed[i]);
                }
            }
        },
        PartSpec::Pseudo(PseudoSpec::Is(selectors)) => {
            lemma_collected_from_selectors(selectors, selectors.len(), list, part_size(part));
        },
        PartSpec::Pseudo(PseudoSpec::Where(selectors)) => {
            lemma_collected_from_selectors(selectors, selectors.len(), list, part_size(part));
        },
        PartSpec::Combined(parts) => {
            lemma_collected_from_parts(parts, parts.len(), list, part_size(part));
        },
        _ => {},
    }
}

pub proof fn lemma_collected_from_parts(
    parts: Seq<PartSpec>,
    count: nat,
    list: Seq<Seq<PartSpec>>,
    bound: nat,
)
    requires
        count <= parts.len(),
        parts_size(parts, count) <= bound,
    ensures
        new_are_smaller(list, indexed_parts(parts, count, list).1, bound),
    decreases parts, count,
{
    if count > 0 {
        lemma_collected_from_parts(parts, (count - 1) as nat, list, bound);
        let between = indexed_parts(parts, (count - 1) as nat, list).1;
        lemma_collected_are_smaller(parts[count - 1], between);
        let after = indexed_part(parts[count - 1], between).1;
        assert forall|i: int| list.len() <= i < after.len() implies 1 + selector_size(
            #[trigger] after[i],
        ) < bound by {
            lemma_indexing_extends(parts[count - 1], between);
            if i < between.len() {
                assert(after[i] == between[i]);
            }
        }
    }
}

proof fn lemma_collected_from_selectors(
    selectors: Seq<Seq<PartSpec>>,
    count: nat,
    list: Seq<Seq<PartSpec>>,
    bound: nat,
)
    requires
        count <= selectors.len(),
        selectors_size(selectors, count) < bound,
    ensures
        new_are_smaller(list, indexed_selectors(selectors, count, list).1, bound),
    decreases selectors, count,
{
    if count > 0 {
        lemma_collected_from_selectors(selectors, (count - 1) as nat, list, bound);
        let between = indexed_selectors(selectors, (count - 1) as nat, list).1;
        let selector = selectors[count - 1];
        let placed = with_selector(between, selector);
        lemma_with_selector(between, selector, bound);
        lemma_collected_from_parts(selector, selector.len(), placed, bound);
        lemma_indexing_parts_extends(selector, selector.len(), placed);
        let after = indexed_parts(selector, selector.len(), placed).1;
        assert forall|i: int| list.len() <= i < after.len() implies 1 + selector_size(
            #[trigger] after[i],
        ) < bound by {
            if i < placed.len() {
                assert(after[i] == placed[i]);
                if i < between.len() {
                    assert(placed[i] == between[i]);
                }
            }
        }
    }
}

/// Indexing only adds to the list.
pub proof fn lemma_indexing_extends(part: PartSpec, list: Seq<Seq<PartSpec>>)
    ensures
        list.is_prefix_of(indexed_part(part, list).1),
    decreases part, 0nat,
{
    match part {
        PartSpec::Pseudo(PseudoSpec::Not(selector)) => {
            lemma_indexing_parts_extends(selector, selector.len(), with_selector(list, selector));
        },
        PartSpec::Pseudo(PseudoSpec::Is(selectors)) => {
            lemma_indexing_selectors_extends(selectors, selectors.len(), list);
        },
        PartSpec::Pseudo(PseudoSpec::Where(selectors)) => {
            lemma_indexing_selectors_extends(selectors, selectors.len(), list);
        },
        PartSpec::Combined(parts) => {
            lemma_indexing_parts_extends(parts, parts.len(), list);
        },
        _ => {},
    }
}

pub proof fn lemma_indexing_parts_extends(
    parts: Seq<PartSpec>,
    count: nat,
    list: Seq<Seq<PartSpec>>,
)
    requires
        count <= parts.len(),
    ensures
        list.is_prefix_of(indexed_parts(parts, count, list).1),
    decreases parts, count,
{
    if count > 0 {
        lemma_indexing_parts_extends(parts, (count - 1) as nat, list);
        lemma_indexing_extends(
            parts[count - 1],
            indexed_parts(parts, (count - 1) as nat, list).1,
        );
    }
}

proof fn lemma_indexing_selectors_extends(
    selectors: Seq<Seq<PartSpec>>,
    count: nat,
    list: Seq<Seq<PartSpec>>,
)
    requires
        count <= selectors.len(),
    ensures
        list.is_prefix_of(indexed_selectors(selectors, count, list).1),
    decreases selectors, count,
{
    if count > 0 {
        lemma_indexing_selectors_extends(selectors, (count - 1) as nat, list);
        let between = indexed_selectors(selectors, (count - 1) as nat, list).1;
        let selector = selectors[count - 1];
        lemma_indexing_parts_extends(
            selector,
            selector.len(),
            with_selector(between, selector),
        );
    }
}

/// The place of a selector, which is given one where it has none.
pub fn selector_index(list: &mut Vec<Vec<SelectorPart>>, selector: &Vec<SelectorPart>) -> (r: usize)
    ensures
        r == selector_place(selectors_of(old(list)@), parts_of(selector@)),
        selectors_of(final(list)@) == with_selector(
            selectors_of(old(list)@),
            parts_of(selector@),
        ),
{
    let mut at: usize = 0;
    proof {
        lemma_selector_specs(list@, list@.len());
        lemma_selector_place(selectors_of(list@), parts_of(selector@));
    }
    while at < list.len()
        invariant
            at <= list@.len(),
            list == old(list),
            selectors_of(list@).len() == list@.len(),
            forall|i: int|
                0 <= i < list@.len() ==> #[trigger] selectors_of(list@)[i] == parts_of(list@[i]@),
            forall|i: int| 0 <= i < at ==> selectors_of(list@)[i] != parts_of(selector@),
        decreases list@.len() - at,
    {
        if same_parts(&list[at], selector) {
            proof {
                lemma_selector_place(selectors_of(list@), parts_of(selector@));
                assert(selectors_of(list@)[at as int] == parts_of(selector@));
            }
            return at;
        }
        assert(selectors_of(list@)[at as int] != parts_of(selector@));
        at = at + 1;
    }
    let copy = copy_parts(selector);
    proof {
        lemma_selector_specs_push(list@, copy);
    }
    list.push(copy);
    at
}

/// Replaces the nested selectors of a part by their places in a list, to which they are added.
pub fn walk_selectors(list: &mut Vec<Vec<SelectorPart>>, part: &SelectorPart) -> (r: SelectorPart)
    ensures
        (part_spec(r), selectors_of(final(list)@)) == indexed_part(
            part_spec(*part),
            selectors_of(old(list)@),
        ),
    decreases *part, 0nat,
{
    match part {
        SelectorPart::Pseudo(class) => match class {
            SelectorPseudo::Not(selector) => {
                let place: usize = selector_index(list, selector);
                let _changed = walk_parts(list, selector);
                SelectorPart::Pseudo(SelectorPseudo::IndexedNot(place))
            },
            SelectorPseudo::Is(selectors) => {
                let places = walk_selector_list(list, selectors);
                SelectorPart::Pseudo(SelectorPseudo::IndexedIs(places))
            },
            SelectorPseudo::Where(selectors) => {
                let places = walk_selector_list(list, selectors);
                SelectorPart::Pseudo(SelectorPseudo::IndexedWhere(places))
            },
            _ => copy_part(part),
        },
        SelectorPart::Combined(parts) => SelectorPart::Combined(walk_parts(list, parts)),
        _ => copy_part(part),
    }
}

/// Replaces the nested selectors of a selector by their places in a list.
pub fn walk_parts(list: &mut Vec<Vec<SelectorPart>>, parts: &Vec<SelectorPart>) -> (r: Vec<
    SelectorPart,
>)
    ensures
        (parts_of(r@), selectors_of(final(list)@)) == indexed_parts(
            parts_of(parts@),
            parts_of(parts@).len(),
            selectors_of(old(list)@),
        ),
    decreases parts@, 1nat,
{
    let mut changed: Vec<SelectorPart> = Vec::new();
    let mut at: usize = 0;
    proof {
        lemma_part_specs(parts@, parts@.len());
    }
    let ghost specs = parts_of(parts@);
    let ghost start = selectors_of(list@);
    while at < parts.len()
        invariant
            at <= parts@.len(),
            specs == parts_of(parts@),
            specs.len() == parts@.len(),
            forall|i: int| 0 <= i < parts@.len() ==> #[trigger] specs[i] == part_spec(parts@[i]),
            (parts_of(changed@), selectors_of(list@)) == indexed_parts(specs, at as nat, start),
        decreases parts@.len() - at,
    {
        let part = walk_selectors(list, &parts[at]);
        proof {
            lemma_part_specs_push(changed@, part);
            assert(specs[at as int] == part_spec(parts@[at as int]));
        }
        changed.push(part);
        at = at + 1;
    }
    changed
}

fn walk_selector_list(list: &mut Vec<Vec<SelectorPart>>, selectors: &Vec<Vec<SelectorPart>>) -> (r:
    Vec<usize>)
    ensures
        (r@, selectors_of(final(list)@)) == indexed_selectors(
            selectors_of(selectors@),
            selectors_of(selectors@).len(),
            selectors_of(old(list)@),
        ),
    decreases selectors@, 2nat,
{
    let mut places: Vec<usize> = Vec::new();
    let mut at: usize = 0;
    proof {
        lemma_selector_specs(selectors@, selectors@.len());
    }
    let ghost specs = selectors_of(selectors@);
    let ghost start = selectors_of(list@);
    assert(places@ =~= Seq::empty());
    while at < selectors.len()
        invariant
            at <= selectors@.len(),
            specs == selectors_of(selectors@),
            specs.len() == selectors@.len(),
            forall|i: int|
                0 <= i < selectors@.len() ==> #[trigger] specs[i] == parts_of(selectors@[i]@),
            (places@, selectors_of(list@)) == indexed_selectors(specs, at as nat, start),
        decreases selectors@.len() - at,
    {
        assert(specs[at as int] == parts_of(selectors@[at as int]@));
        let place: usize = selector_index(list, &selectors[at]);
        let _changed = walk_parts(list, &selectors[at]);
        places.push(place);
        at = at + 1;
    }
    places
}

/// How much a selector weighs: ids before classes, attributes and pseudo classes, those before
/// tags. A count stops at the largest number.
#[derive(Debug, Clone, Copy, PartialEq, Eq, Structural)]
pub struct Specificity {
    pub ids: i32,
    pub classes: i32,
    pub tags: i32,
}

pub open spec fn capped_sum(a: i32, b: i32) -> i32 {
    if a + b > i32::MAX {
        i32::MAX
    } else {
        (a + b) as i32
    }
}

/// The weight of the first parts of a selector.
pub open spec fn specificity_of(parts: Seq<PartSpec>, count: nat) -> Specificity
    decreases parts, count,
{
    if count == 0 || count > parts.len() {
        Specificity { ids: 0, classes: 0, tags: 0 }
    } else {
        let before = specificity_of(parts, (count - 1) as nat);
        match parts[count - 1] {
            PartSpec::Id(_) => Specificity { ids: capped_sum(before.ids, 1), ..before },
            PartSpec::Attributes(_) | PartSpec::Pseudo(_) | PartSpec::Class(_) => Specificity {
                classes: capped_sum(before.classes, 1),
                ..before
            },
            PartSpec::Tag(tag) => if tag == "*"@ {
                before
            } else {
                Specificity { tags: capped_sum(before.tags, 1), ..before }
            },
            PartSpec::Combined(inner) => {
                let own = specificity_of(inner, inner.len());
                Specificity {
                    ids: capped_sum(before.ids, own.ids),
                    classes: capped_sum(before.classes, own.classes),
                    tags: capped_sum(before.tags, own.tags),
                }
            },
            _ => before,
        }
    }
}

fn cap_sum(a: i32, b: i32) -> (r: i32)
    requires
        a >= 0,
        b >= 0,
    ensures
        r == capped_sum(a, b),
        r >= 0,
{
    if a > i32::MAX - b {
        i32::MAX
    } else {
        a + b
    }
}

/// The weight of a selector.
pub fn get_specificity_tuple(parts: &Vec<SelectorPart>) -> (r: Specificity)
    ensures
        r == specificity_of(parts_of(parts@), parts_of(parts@).len()),
        r.ids >= 0,
        r.classes >= 0,
        r.tags >= 0,
    decreases parts@,
{
    let mut total = Specificity { ids: 0, classes: 0, tags: 0 };
    let mut at: usize = 0;
    proof {
        lemma_part_specs(parts@, parts@.len());
    }
    let ghost specs = parts_of(parts@);
    while at < parts.len()
        invariant
            at <= parts@.len(),
            specs.len() == parts@.len(),
            forall|i: int| 0 <= i < parts@.len() ==> #[trigger] specs[i] == part_spec(parts@[i]),
            total == specificity_of(specs, at as nat),
            total.ids >= 0,
            total.classes >= 0,
            total.tags >= 0,
        decreases parts@.len() - at,
    {
        assert(specs[at as int] == part_spec(parts@[at as int]));
        match &parts[at] {
            SelectorPart::Id(_) => {
                total.ids = cap_sum(total.ids, 1);
            },
            SelectorPart::Attributes(_) | SelectorPart::Pseudo(_) | SelectorPart::Class(_) => {
                total.classes = cap_sum(total.classes, 1);
            },
            SelectorPart::Tag(tag) => {
                if !same_text(tag.as_str(), "*") {
                    total.tags = cap_sum(total.tags, 1);
                }
            },
            SelectorPart::Combined(inner) => {
                let own = get_specificity_tuple(inner);
                total = Specificity {
                    ids: cap_sum(total.ids, own.ids),
                    classes: cap_sum(total.classes, own.classes),
                    tags: cap_sum(total.tags, own.tags),
                };
            },
            _ => {},
        }
        at = at + 1;
    }
    total
}

} // verus!
