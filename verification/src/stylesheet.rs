//! The nodes of a style sheet and the parser that reads them.
use vstd::prelude::*;

use crate::boxes::StyleBackground;
use crate::boxes::StyleBorderStyle;
use crate::calc::split_ignoring_parentheses;
use crate::calc::split_outside;
use crate::css::part_models;
use crate::css::parts_of_text;
use crate::css::selector_to_parts;
use crate::css::ClassNamePart;
use crate::css::PartModel;
use crate::flex::StyleFlexDirection;
use crate::flex::StyleJustifyContent;
use crate::margins::StyleAlign;
use crate::numbers::is_float;
use crate::numbers::is_float_text;
use crate::paint::StylePosition;
use crate::sizes::StyleSize;
use crate::text::ends;
use crate::text::ends_with;
use crate::text::find_char;
use crate::text::from_range;
use crate::text::index_of;
use crate::text::lemma_index_of;
use crate::text::less_prefix;
use crate::text::less_suffix;
use crate::text::pieces_by;
use crate::text::split_by;
use crate::text::starts;
use crate::text::starts_with;
use crate::text::strip_prefix;
use crate::text::strip_suffix;
use crate::text::texts_of;
use crate::text::to_chars;
use crate::text::trim;
use crate::text::trimmed;
use crate::text::without_prefix;
use crate::text::without_suffix;

verus! {

/// What happens to content that is larger than its box.
#[derive(Debug, Clone, Copy, PartialEq, Eq, Structural)]
pub enum Overflow {
    Hidden,
    Visible,
    Auto,
    Scroll,
    Clip,
}

impl Overflow {
    /// Whether content outside of the box is shown.
    pub fn visible(&self) -> (r: bool)
        ensures
            r == (*self == Overflow::Visible || *self == Overflow::Auto),
    {
        *self == Overflow::Visible || *self == Overflow::Auto
    }
}

#[derive(Debug, Clone, Copy, PartialEq, Eq, Structural)]
pub enum StyleDisplay {
    Block,
    InlineBlock,
    Inline,
    Flex,
    InlineFlex,
    Grid,
    Absent,
}

#[derive(Debug, Clone, Copy, PartialEq, Eq, Structural)]
pub enum StyleZIndex {
    Auto,
    Number(i32),
}

#[derive(Debug, Clone, Copy, PartialEq, Eq, Structural)]
pub enum StylePointerEvents {
    Auto,
    Absent,
}

#[derive(Debug, Clone, Copy, PartialEq, Eq, Structural)]
pub enum StyleVisibility {
    Visible,
    Hidden,
}

/// The width of a column or the height of a row, as written.
#[derive(Debug, PartialEq)]
pub enum GridColumnSize {
    Px(i32),
    Rem(String),
    Percent(String),
    Fraction(String),
    Auto,
}

#[derive(Debug, PartialEq)]
pub enum GridTemplateColumnsValue {
    Size(GridColumnSize),
    MinMax((GridColumnSize, GridColumnSize)),
}

#[derive(Debug, PartialEq)]
pub enum GridTemplateColumns {
    Values(Vec<GridTemplateColumnsValue>),
    Absent,
}

#[derive(Debug, PartialEq)]
pub struct BorderSideValue {
    pub size: Option<StyleSize>,
    pub color: Option<StyleBackground>,
    pub style: Option<StyleBorderStyle>,
}

#[derive(Debug, PartialEq)]
pub struct StyleComplexBackground {
    pub background: StyleBackground,
}

/// A piece of a value that names variables.
#[derive(Debug, PartialEq)]
pub enum VariableTemplatePart {
    Text(String),
    Var(String),
}

/// The value of a declaration. The parser keeps values as they are written.
#[derive(Debug, PartialEq)]
pub enum PropertyValue {
    Raw(String),
    Size(StyleSize),
    Color(StyleBackground),
    Display(StyleDisplay),
    Position(StylePosition),
    Align(StyleAlign),
    Int(u32),
    JustifyContent(StyleJustifyContent),
    FlexDirection(StyleFlexDirection),
    Flex { grow: Option<u32>, shrink: Option<u32>, basis: Option<StyleSize> },
    BorderStyle(StyleBorderStyle),
    BorderSide(BorderSideValue),
    CombinedSize((StyleSize, StyleSize, StyleSize, StyleSize)),
    CombinedColor((StyleBackground, StyleBackground, StyleBackground, StyleBackground)),
    VerticalCombinedSize((StyleSize, StyleSize)),
    HorizontalCombinedSize((StyleSize, StyleSize)),
    GridTemplateColumns(GridTemplateColumns),
    ComplexBackground(StyleComplexBackground),
    Overflow(Overflow),
    VariableTemplate(Vec<VariableTemplatePart>),
    ZIndex(StyleZIndex),
    PointerEvents(StylePointerEvents),
}

/// The text of a value that is kept as written.
pub open spec fn raw_text(value: PropertyValue) -> Option<Seq<char>> {
    match value {
        PropertyValue::Raw(text) => Some(text@),
        _ => None,
    }
}

#[derive(Debug)]
pub struct Property {
    pub property: String,
    pub value: PropertyValue,
    pub parent: Option<usize>,
    pub important: bool,
}

#[derive(Debug)]
pub struct Variable {
    pub variable: String,
    pub value: PropertyValue,
    pub parent: Option<usize>,
}

#[derive(Debug)]
pub struct Layer {
    pub name: String,
    pub parent: Option<usize>,
}

#[derive(Debug)]
pub struct PropertyDefinition {
    pub name: String,
    pub parent: Option<usize>,
}

/// A rule: its selectors as written and as parts.
#[derive(Debug)]
pub struct ClassName {
    pub name: Vec<String>,
    pub name_parts: Vec<Vec<ClassNamePart>>,
    pub parent: Option<usize>,
}

#[derive(Debug, Clone, Copy, PartialEq, Eq, Structural)]
pub enum MediaQueryCriteriaComparison {
    Is,
    MoreOrEqual,
    LessOrEqual,
}

/// The value that a media query compares with. Numbers are kept as text.
#[derive(Debug, PartialEq)]
pub enum MediaQueryCriteriaValue {
    Px(String),
    Rem(String),
    String(String),
}

#[derive(Debug, PartialEq)]
pub struct MediaQueryCriteria {
    pub property: String,
    pub value: MediaQueryCriteriaValue,
    pub comparison: MediaQueryCriteriaComparison,
}

#[derive(Debug)]
pub struct MediaQuery {
    pub criterias: Vec<MediaQueryCriteria>,
    pub parent: Option<usize>,
}

#[derive(Debug)]
pub enum Node {
    MediaQuery(MediaQuery),
    Layer(Layer),
    ClassName(ClassName),
    Variable(Variable),
    Property(Property),
    PropertyDefinition(PropertyDefinition),
}

/// What a [`MediaQueryCriteriaValue`] holds.
pub enum CriteriaValueModel {
    Px(Seq<char>),
    Rem(Seq<char>),
    String(Seq<char>),
}

/// What a [`MediaQueryCriteria`] holds.
pub struct CriteriaModel {
    pub property: Seq<char>,
    pub value: CriteriaValueModel,
    pub comparison: MediaQueryCriteriaComparison,
}

impl View for MediaQueryCriteria {
    type V = CriteriaModel;

    open spec fn view(&self) -> CriteriaModel {
        CriteriaModel {
            property: self.property@,
            value: match self.value {
                MediaQueryCriteriaValue::Px(number) => CriteriaValueModel::Px(number@),
                MediaQueryCriteriaValue::Rem(number) => CriteriaValueModel::Rem(number@),
                MediaQueryCriteriaValue::String(text) => CriteriaValueModel::String(text@),
            },
            comparison: self.comparison,
        }
    }
}

pub open spec fn criteria_models(list: Seq<MediaQueryCriteria>) -> Seq<CriteriaModel> {
    Seq::new(list.len(), |i: int| list[i]@)
}

/// What a [`Node`] holds.
pub enum CssNodeModel {
    MediaQuery { criterias: Seq<CriteriaModel>, parent: Option<usize> },
    Layer { name: Seq<char>, parent: Option<usize> },
    ClassName { names: Seq<Seq<char>>, parts: Seq<Seq<PartModel>>, parent: Option<usize> },
    Variable { name: Seq<char>, value: Option<Seq<char>>, parent: Option<usize> },
    Property { name: Seq<char>, value: Option<Seq<char>>, important: bool, parent: Option<usize> },
    PropertyDefinition { name: Seq<char>, parent: Option<usize> },
}

pub open spec fn parts_view(list: Seq<Vec<ClassNamePart>>) -> Seq<Seq<PartModel>> {
    Seq::new(list.len(), |i: int| part_models(list[i]@, list[i]@.len()))
}

impl View for Node {
    type V = CssNodeModel;

    open spec fn view(&self) -> CssNodeModel {
        match *self {
            Node::MediaQuery(node) => CssNodeModel::MediaQuery {
                criterias: criteria_models(node.criterias@),
                parent: node.parent,
            },
            Node::Layer(node) => CssNodeModel::Layer { name: node.name@, parent: node.parent },
            Node::ClassName(node) => CssNodeModel::ClassName {
                names: texts_of(node.name@),
                parts: parts_view(node.name_parts@),
                parent: node.parent,
            },
            Node::Variable(node) => CssNodeModel::Variable {
                name: node.variable@,
                value: raw_text(node.value),
                parent: node.parent,
            },
            Node::Property(node) => CssNodeModel::Property {
                name: node.property@,
                value: raw_text(node.value),
                important: node.important,
                parent: node.parent,
            },
            Node::PropertyDefinition(node) => CssNodeModel::PropertyDefinition {
                name: node.name@,
                parent: node.parent,
            },
        }
    }
}

impl CssNodeModel {
    pub open spec fn parent_idx(self) -> Option<usize> {
        match self {
            CssNodeModel::MediaQuery { criterias, parent } => parent,
            CssNodeModel::Layer { name, parent } => parent,
            CssNodeModel::ClassName { names, parts, parent } => parent,
            CssNodeModel::Variable { name, value, parent } => parent,
            CssNodeModel::Property { name, value, important, parent } => parent,
            CssNodeModel::PropertyDefinition { name, parent } => parent,
        }
    }

    pub open spec fn with_parent(self, new_parent: Option<usize>) -> CssNodeModel {
        match self {
            CssNodeModel::MediaQuery { criterias, parent } => CssNodeModel::MediaQuery {
                criterias,
                parent: new_parent,
            },
            CssNodeModel::Layer { name, parent } => CssNodeModel::Layer {
                name,
                parent: new_parent,
            },
            CssNodeModel::ClassName { names, parts, parent } => CssNodeModel::ClassName {
                names,
                parts,
                parent: new_parent,
            },
            CssNodeModel::Variable { name, value, parent } => CssNodeModel::Variable {
                name,
                value,
                parent: new_parent,
            },
            CssNodeModel::Property { name, value, important, parent } => CssNodeModel::Property {
                name,
                value,
                important,
                parent: new_parent,
            },
            CssNodeModel::PropertyDefinition { name, parent } => CssNodeModel::PropertyDefinition {
                name,
                parent: new_parent,
            },
        }
    }
}

impl Node {
    /// The same node below another parent: nothing else of it changes.
    pub open spec fn below(self, parent: Option<usize>) -> Node {
        match self {
            Node::MediaQuery(node) => Node::MediaQuery(MediaQuery { parent, ..node }),
            Node::Layer(node) => Node::Layer(Layer { parent, ..node }),
            Node::ClassName(node) => Node::ClassName(ClassName { parent, ..node }),
            Node::Variable(node) => Node::Variable(Variable { parent, ..node }),
            Node::Property(node) => Node::Property(Property { parent, ..node }),
            Node::PropertyDefinition(node) => Node::PropertyDefinition(
                PropertyDefinition { parent, ..node },
            ),
        }
    }

    /// The same node with its parent counted from another place.
    pub open spec fn shifted(self, offset: nat) -> Node {
        match self@.parent_idx() {
            Some(parent) => self.below(Some((parent + offset) as usize)),
            None => self,
        }
    }

    pub fn get_parent(&self) -> (r: Option<usize>)
        ensures
            r == self@.parent_idx(),
    {
        match self {
            Node::ClassName(node) => node.parent,
            Node::Variable(node) => node.parent,
            Node::Property(node) => node.parent,
            Node::MediaQuery(node) => node.parent,
            Node::Layer(node) => node.parent,
            Node::PropertyDefinition(node) => node.parent,
        }
    }

    pub fn set_parent(&mut self, parent: Option<usize>)
        ensures
            *final(self) == old(self).below(parent),
            final(self)@ == old(self)@.with_parent(parent),
    {
        match self {
            Node::ClassName(node) => {
                node.parent = parent;
            },
            Node::Variable(node) => {
                node.parent = parent;
            },
            Node::Property(node) => {
                node.parent = parent;
            },
            Node::MediaQuery(node) => {
                node.parent = parent;
            },
            Node::Layer(node) => {
                node.parent = parent;
            },
            Node::PropertyDefinition(node) => {
                node.parent = parent;
            },
        }
    }

    /// Counts the parent from another place.
    pub fn offset_parent(&mut self, offset: usize)
        requires
            old(self)@.parent_idx() matches Some(parent) ==> parent + offset <= usize::MAX,
        ensures
            *final(self) == old(self).shifted(offset as nat),
            final(self)@ == (match old(self)@.parent_idx() {
                Some(parent) => old(self)@.with_parent(Some((parent + offset) as usize)),
                None => old(self)@,
            }),
    {
        match self.get_parent() {
            Some(parent) => {
                self.set_parent(Some(parent + offset));
            },
            None => {},
        }
    }
}

/// The value of a condition: a number of pixels or root font sizes, else a text.
pub open spec fn criteria_value(s: Seq<char>) -> CriteriaValueModel {
    if ends(s, "rem"@) && is_float_text(s.take(s.len() - 3)) {
        CriteriaValueModel::Rem(s.take(s.len() - 3))
    } else if ends(s, "px"@) && is_float_text(s.take(s.len() - 2)) {
        CriteriaValueModel::Px(s.take(s.len() - 2))
    } else {
        CriteriaValueModel::String(s)
    }
}

/// The two sides of a condition around a separator that occurs once.
pub open spec fn criteria_around(
    s: Seq<char>,
    separator: Seq<char>,
    comparison: MediaQueryCriteriaComparison,
) -> Option<CriteriaModel> {
    let sides = pieces_by(s, separator);
    if sides.len() == 2 {
        Some(
            CriteriaModel {
                property: trimmed(sides[0]),
                value: criteria_value(trimmed(sides[1])),
                comparison,
            },
        )
    } else {
        None
    }
}

/// The condition that a text writes.
pub open spec fn criteria_of_text(s: Seq<char>) -> Option<CriteriaModel> {
    let inner = trimmed(less_suffix(less_prefix(s, "("@), ")"@));
    match criteria_around(inner, ":"@, MediaQueryCriteriaComparison::Is) {
        Some(criteria) => Some(criteria),
        None => match criteria_around(inner, ">="@, MediaQueryCriteriaComparison::MoreOrEqual) {
            Some(criteria) => Some(criteria),
            None => criteria_around(inner, "<="@, MediaQueryCriteriaComparison::LessOrEqual),
        },
    }
}

/// The conditions that texts write; those that write none are left out.
pub open spec fn criterias_of_texts(list: Seq<Seq<char>>) -> Seq<CriteriaModel>
    decreases list.len(),
{
    if list.len() == 0 {
        Seq::empty()
    } else {
        match criteria_of_text(list.last()) {
            Some(criteria) => criterias_of_texts(list.drop_last()).push(criteria),
            None => criterias_of_texts(list.drop_last()),
        }
    }
}

/// The conditions of a media query, which `and` separates.
pub open spec fn criterias_of_text(s: Seq<char>) -> Seq<CriteriaModel> {
    criterias_of_texts(pieces_by(s, "and"@))
}

fn parse_criteria_value(s: &str) -> (r: MediaQueryCriteriaValue)
    ensures
        (match r {
            MediaQueryCriteriaValue::Px(number) => CriteriaValueModel::Px(number@),
            MediaQueryCriteriaValue::Rem(number) => CriteriaValueModel::Rem(number@),
            MediaQueryCriteriaValue::String(text) => CriteriaValueModel::String(text@),
        }) == criteria_value(s@),
{
    proof {
        reveal_strlit("px");
        reveal_strlit("rem");
    }
    match strip_suffix(s, "rem") {
        Some(number) => {
            if is_float(number.as_str()) {
                return MediaQueryCriteriaValue::Rem(number);
            }
        },
        None => {},
    }
    match strip_suffix(s, "px") {
        Some(number) => {
            if is_float(number.as_str()) {
                return MediaQueryCriteriaValue::Px(number);
            }
        },
        None => {},
    }
    MediaQueryCriteriaValue::String(s.to_owned())
}

fn parse_criteria_around(s: &str, separator: &str, comparison: MediaQueryCriteriaComparison) -> (r:
    Option<MediaQueryCriteria>)
    requires
        separator@.len() > 0,
    ensures
        match (r, criteria_around(s@, separator@, comparison)) {
            (Some(criteria), Some(model)) => criteria@ == model,
            (None, None) => true,
            _ => false,
        },
{
    let sides = split_by(s, separator);
    let ghost models = pieces_by(s@, separator@);
    assert(models == texts_of(sides@));
    if sides.len() == 2 {
        assert(models[0] == sides@[0]@ && models[1] == sides@[1]@);
        let text = trim(sides[1].as_str());
        Some(
            MediaQueryCriteria {
                property: trim(sides[0].as_str()),
                value: parse_criteria_value(text.as_str()),
                comparison,
            },
        )
    } else {
        None
    }
}

fn parse_criteria(s: &str) -> (r: Option<MediaQueryCriteria>)
    ensures
        match (r, criteria_of_text(s@)) {
            (Some(criteria), Some(model)) => criteria@ == model,
            (None, None) => true,
            _ => false,
        },
{
    proof {
        reveal_strlit(":");
        reveal_strlit(">=");
        reveal_strlit("<=");
    }
    let opened = without_prefix(s.to_owned(), "(");
    let closed = without_suffix(opened, ")");
    let inner = trim(closed.as_str());
    match parse_criteria_around(inner.as_str(), ":", MediaQueryCriteriaComparison::Is) {
        Some(criteria) => {
            return Some(criteria);
        },
        None => {},
    }
    match parse_criteria_around(inner.as_str(), ">=", MediaQueryCriteriaComparison::MoreOrEqual) {
        Some(criteria) => {
            return Some(criteria);
        },
        None => {},
    }
    parse_criteria_around(inner.as_str(), "<=", MediaQueryCriteriaComparison::LessOrEqual)
}

/// The conditions of a media query. Those that cannot be read are left out.
pub fn parse_media_query_parts(name: &str) -> (r: Vec<MediaQueryCriteria>)
    ensures
        criteria_models(r@) == criterias_of_text(name@),
{
    proof {
        reveal_strlit("and");
    }
    let texts = split_by(name, "and");
    let ghost models = pieces_by(name@, "and"@);
    let mut list: Vec<MediaQueryCriteria> = Vec::new();
    let mut at: usize = 0;
    assert(criteria_models(list@) =~= Seq::empty());
    while at < texts.len()
        invariant
            at <= texts@.len(),
            models == texts_of(texts@),
            criteria_models(list@) == criterias_of_texts(models.take(at as int)),
        decreases texts@.len() - at,
    {
        proof {
            assert(models.take(at + 1).drop_last() =~= models.take(at as int));
            assert(models[at as int] == texts@[at as int]@);
        }
        let ghost before = criteria_models(list@);
        match parse_criteria(texts[at].as_str()) {
            Some(criteria) => {
                list.push(criteria);
                assert(criteria_models(list@) =~= before.push(criteria@));
            },
            None => {},
        }
        at = at + 1;
    }
    assert(models.take(models.len() as int) =~= models);
    list
}

#[derive(Debug, Clone, Copy, PartialEq, Eq, Structural)]
pub enum CssBuildPhase {
    Start,
    Specifier,
    MediaQuery,
}

/// A declaration holds no colon.
#[derive(Debug, Clone, Copy, PartialEq, Eq, Structural)]
pub struct InvalidDeclaration;

/// Reads a style sheet into nodes. A node that stands inside another names it as its parent.
#[derive(Debug)]
pub struct CssParser<'a> {
    pub input: &'a str,
    pub stage: CssBuildPhase,
    pub label: String,
    pub nodes: Vec<Node>,
    pub node: Option<usize>,
    pub in_url: bool,
}

/// The state of a [`CssParser`].
#[verifier::ext_equal]
pub struct CssModel {
    pub stage: CssBuildPhase,
    pub label: Seq<char>,
    pub nodes: Seq<CssNodeModel>,
    pub node: Option<usize>,
    pub in_url: bool,
}

impl<'a> View for CssParser<'a> {
    type V = CssModel;

    open spec fn view(&self) -> CssModel {
        CssModel {
            stage: self.stage,
            label: self.label@,
            nodes: Seq::new(self.nodes@.len(), |i: int| self.nodes@[i]@),
            node: self.node,
            in_url: self.in_url,
        }
    }
}

/// The texts without the white space around them.
pub open spec fn trimmed_texts(list: Seq<Seq<char>>) -> Seq<Seq<char>> {
    Seq::new(list.len(), |i: int| trimmed(list[i]))
}

/// The declared value of a text and whether it is marked as important.
pub open spec fn declared_value(s: Seq<char>) -> (Seq<char>, bool) {
    let value = less_suffix(less_prefix(trimmed(s), "'"@), "'"@);
    if ends(value, "!important"@) {
        (trimmed(value.take(value.len() - 10)), true)
    } else {
        (value, false)
    }
}

/// The declaration that a text with a colon writes.
pub open spec fn declaration_of_text(s: Seq<char>, parent: Option<usize>) -> CssNodeModel {
    let name = trimmed(s.take(index_of(s, ':')));
    let (value, important) = declared_value(s.skip(index_of(s, ':') + 1));
    if starts(name, "--"@) {
        CssNodeModel::Variable { name, value: Some(value), parent }
    } else {
        CssNodeModel::Property { name, value: Some(value), important, parent }
    }
}

/// The condition that a text before a block writes: a definition of a property, a layer or a media
/// query.
pub open spec fn condition_of_text(s: Seq<char>, parent: Option<usize>) -> CssNodeModel {
    if starts(trimmed(s), "@property"@) {
        CssNodeModel::PropertyDefinition { name: trimmed(trimmed(s).skip(9)), parent }
    } else if starts(trimmed(s), "@layer"@) {
        CssNodeModel::Layer { name: trimmed(trimmed(s).skip(6)), parent }
    } else {
        CssNodeModel::MediaQuery {
            criterias: criterias_of_text(
                trimmed(
                    if starts(trimmed(s), "@media"@) {
                        trimmed(s).skip(6)
                    } else {
                        s
                    },
                ),
            ),
            parent,
        }
    }
}

/// The rule that a text before a block writes: its selectors, separated by commas.
pub open spec fn rule_of_text(s: Seq<char>, parent: Option<usize>) -> CssNodeModel {
    let names = trimmed_texts(split_outside(s, ',', Seq::empty()));
    CssNodeModel::ClassName {
        names,
        parts: Seq::new(names.len(), |i: int| parts_of_text(names[i])),
        parent,
    }
}

/// Every parent is an earlier node.
pub open spec fn in_order(nodes: Seq<CssNodeModel>) -> bool {
    forall|i: int|
        0 <= i < nodes.len() ==> ((#[trigger] nodes[i]).parent_idx() matches Some(parent) ==> parent
            < i)
}

impl CssModel {
    pub open spec fn with_char(self, c: char) -> CssModel {
        CssModel { label: self.label.push(c), ..self }
    }

    pub open spec fn to_stage(self, stage: CssBuildPhase) -> CssModel {
        CssModel { stage, ..self }
    }

    pub open spec fn without_label(self) -> CssModel {
        CssModel { label: Seq::empty(), ..self }
    }

    /// A node is added.
    pub open spec fn with_css_node(self, node: CssNodeModel) -> CssModel {
        CssModel { nodes: self.nodes.push(node), ..self }
    }

    /// A node is added and open.
    pub open spec fn opened(self, node: CssNodeModel) -> CssModel {
        CssModel { node: Some(self.nodes.len() as usize), ..self.with_css_node(node) }
            .without_label()
    }

    /// The parent of the open node is open.
    pub open spec fn closed(self) -> CssModel {
        CssModel {
            node: match self.node {
                Some(idx) => if idx < self.nodes.len() {
                    self.nodes[idx as int].parent_idx()
                } else {
                    None
                },
                None => None,
            },
            ..self
        }
    }

    /// The collected text becomes a declaration.
    pub open spec fn declared(self) -> CssModel {
        self.with_css_node(declaration_of_text(self.label, self.node)).without_label()
    }

    /// The collected text becomes a declaration where it holds a colon.
    pub open spec fn flushed(self) -> CssModel {
        if self.label.contains(':') {
            self.declared()
        } else {
            self.without_label()
        }
    }

    /// The state after one more character; nothing where a declaration ends that holds no colon.
    pub open spec fn step(self, c: char) -> Option<CssModel> {
        let specifies = self.stage == CssBuildPhase::Specifier;
        let asks = self.stage == CssBuildPhase::MediaQuery;
        if c == '@' {
            Some(self.with_char(c).to_stage(CssBuildPhase::MediaQuery))
        } else if c == '.' || c == '#' {
            if asks {
                Some(self)
            } else {
                Some(self.to_stage(CssBuildPhase::Specifier).with_char(c))
            }
        } else if c == ' ' {
            if specifies || asks {
                Some(self.with_char(c))
            } else {
                Some(self)
            }
        } else if c == '{' {
            if specifies {
                Some(self.opened(rule_of_text(self.label, self.node)))
            } else if asks {
                Some(
                    self.opened(condition_of_text(self.label, self.node)).to_stage(
                        CssBuildPhase::Start,
                    ),
                )
            } else {
                Some(self)
            }
        } else if c == '}' {
            if specifies {
                Some(self.flushed().to_stage(CssBuildPhase::Start).closed())
            } else if asks {
                Some(self)
            } else {
                Some(self.closed())
            }
        } else if c == ':' {
            if asks {
                Some(self.with_char(c))
            } else {
                Some(self.to_stage(CssBuildPhase::Specifier).with_char(c))
            }
        } else if c == ';' {
            if specifies && !self.in_url {
                if self.label.contains(':') {
                    Some(self.declared())
                } else {
                    None
                }
            } else if asks {
                Some(self.with_char(c))
            } else {
                Some(self)
            }
        } else if c == '(' {
            if specifies {
                let added = self.with_char(c);
                Some(
                    CssModel { in_url: self.in_url || ends(added.label, "url("@), ..added },
                )
            } else {
                Some(self)
            }
        } else if c == ')' {
            if specifies {
                Some(CssModel { in_url: false, ..self.with_char(c) })
            } else {
                Some(self)
            }
        } else if c == '\n' || c == '\r' {
            Some(self)
        } else if specifies || asks {
            Some(self.with_char(c))
        } else {
            Some(self.to_stage(CssBuildPhase::Specifier).with_char(c))
        }
    }

    /// The state after a text; nothing where a declaration ends that holds no colon.
    pub open spec fn run(self, input: Seq<char>) -> Option<CssModel>
        decreases input.len(),
    {
        if input.len() == 0 {
            Some(self)
        } else {
            match self.run(input.drop_last()) {
                Some(before) => before.step(input.last()),
                None => None,
            }
        }
    }

    /// The state after a whole style sheet: what is collected at the end is a declaration too.
    pub open spec fn parsed(self, input: Seq<char>) -> Option<CssModel> {
        match self.run(trimmed(input)) {
            Some(end) => if end.stage == CssBuildPhase::Specifier {
                Some(end.flushed())
            } else {
                Some(end)
            },
            None => None,
        }
    }

    /// Every parent is an earlier node, and so is the open one.
    pub open spec fn wf(self) -> bool {
        &&& in_order(self.nodes)
        &&& self.node matches Some(idx) ==> idx < self.nodes.len()
    }
}

/// One character keeps the nodes in order: a parent is always an earlier node.
pub proof fn lemma_css_step(m: CssModel, c: char)
    requires
        m.wf(),
        m.nodes.len() < usize::MAX,
    ensures
        m.step(c) matches Some(after) ==> after.wf() && after.nodes.len() <= m.nodes.len() + 1,
{
    let declared = m.declared();
    assert(declared.nodes.last().parent_idx() == m.node);
    let ruled = m.opened(rule_of_text(m.label, m.node));
    assert(ruled.nodes.last().parent_idx() == m.node);
    let asked = m.opened(condition_of_text(m.label, m.node));
    assert(asked.nodes.last().parent_idx() == m.node);
    assert(declared.wf());
    assert(ruled.wf());
    assert(asked.wf());
    assert(m.flushed().wf());
    assert(m.closed().wf());
    assert(m.flushed().to_stage(CssBuildPhase::Start).closed().wf());
}

/// In what the parser builds, a parent is always an earlier node.
pub proof fn lemma_css_run(m: CssModel, input: Seq<char>)
    requires
        m.wf(),
        m.nodes.len() + input.len() <= usize::MAX,
    ensures
        m.run(input) matches Some(after) ==> after.wf() && after.nodes.len() <= m.nodes.len()
            + input.len(),
    decreases input.len(),
{
    if input.len() > 0 {
        lemma_css_run(m, input.drop_last());
        if let Some(before) = m.run(input.drop_last()) {
            lemma_css_step(before, input.last());
        }
    }
}

proof fn lemma_css_refused(m: CssModel, input: Seq<char>, at: int)
    requires
        0 <= at <= input.len(),
        m.run(input.take(at)) is None,
    ensures
        m.run(input) is None,
    decreases input.len(),
{
    if at == input.len() {
        assert(input.take(at) =~= input);
    } else {
        assert(input.drop_last().take(at) =~= input.take(at));
        lemma_css_refused(m, input.drop_last(), at);
    }
}

fn parse_declaration(label: &str, parent: Option<usize>) -> (r: Option<Node>)
    ensures
        match r {
            Some(node) => label@.contains(':') && node@ == declaration_of_text(label@, parent),
            None => !label@.contains(':'),
        },
{
    proof {
        reveal_strlit("!important");
    }
    let chars = to_chars(label);
    let colon: usize = find_char(&chars, 0, ':');
    proof {
        assert(chars@.skip(0) =~= chars@);
        lemma_index_of(chars@, ':');
    }
    if colon == chars.len() {
        proof {
            if label@.contains(':') {
                let k = choose|k: int| 0 <= k < label@.len() && label@[k] == ':';
                assert(chars@[k] == ':');
            }
        }
        return None;
    }
    assert(label@[colon as int] == ':');
    let before = from_range(&chars, 0, colon);
    assert(before@ =~= label@.take(colon as int));
    let after = from_range(&chars, colon + 1, chars.len());
    assert(after@ =~= label@.skip(colon + 1));
    let name = trim(before.as_str());
    let text = trim(after.as_str());
    let opened = without_prefix(text, "'");
    let value = without_suffix(opened, "'");
    let (value, important): (String, bool) = match strip_suffix(value.as_str(), "!important") {
        Some(rest) => (trim(rest.as_str()), true),
        None => (value, false),
    };
    if starts_with(name.as_str(), "--") {
        Some(Node::Variable(Variable { variable: name, value: PropertyValue::Raw(value), parent }))
    } else {
        Some(
            Node::Property(
                Property { property: name, value: PropertyValue::Raw(value), parent, important },
            ),
        )
    }
}

fn parse_condition_node(label: &str, parent: Option<usize>) -> (r: Node)
    ensures
        r@ == condition_of_text(label@, parent),
{
    proof {
        reveal_strlit("@property");
        reveal_strlit("@layer");
        reveal_strlit("@media");
    }
    let text = trim(label);
    match strip_prefix(text.as_str(), "@property") {
        Some(rest) => {
            return Node::PropertyDefinition(
                PropertyDefinition { name: trim(rest.as_str()), parent },
            );
        },
        None => {},
    }
    match strip_prefix(text.as_str(), "@layer") {
        Some(rest) => {
            return Node::Layer(Layer { name: trim(rest.as_str()), parent });
        },
        None => {},
    }
    let name = match strip_prefix(text.as_str(), "@media") {
        Some(rest) => trim(rest.as_str()),
        None => trim(label),
    };
    Node::MediaQuery(MediaQuery { criterias: parse_media_query_parts(name.as_str()), parent })
}

fn parse_rule(label: &str, parent: Option<usize>) -> (r: Node)
    ensures
        r@ == rule_of_text(label@, parent),
{
    let no_chars: [char; 0] = [];
    assert(no_chars@ =~= Seq::<char>::empty());
    let texts = split_ignoring_parentheses(label, ',', &no_chars);
    let ghost models = split_outside(label@, ',', Seq::empty());
    let ghost names = trimmed_texts(models);
    let mut name: Vec<String> = Vec::new();
    let mut name_parts: Vec<Vec<ClassNamePart>> = Vec::new();
    let mut at: usize = 0;
    while at < texts.len()
        invariant
            at <= texts@.len(),
            models == texts_of(texts@),
            names == trimmed_texts(models),
            name@.len() == at,
            name_parts@.len() == at,
            forall|i: int| 0 <= i < at ==> (#[trigger] name@[i])@ == names[i],
            forall|i: int|
                0 <= i < at ==> part_models(
                    (#[trigger] name_parts@[i])@,
                    name_parts@[i]@.len(),
                ) == parts_of_text(names[i]),
        decreases texts@.len() - at,
    {
        assert(models[at as int] == texts@[at as int]@);
        let text = trim(texts[at].as_str());
        let parts = selector_to_parts(text.as_str());
        name.push(text);
        name_parts.push(parts);
        at = at + 1;
    }
    let r = Node::ClassName(ClassName { name, name_parts, parent });
    assert(texts_of(name@) =~= names);
    assert(parts_view(name_parts@) =~= Seq::new(names.len(), |i: int| parts_of_text(names[i])));
    r
}

impl<'a> CssParser<'a> {
    /// A parser for a style sheet.
    pub fn new(input: &'a str) -> (r: CssParser<'a>)
        ensures
            r.input@ == input@,
            r@ == (CssModel {
                stage: CssBuildPhase::Start,
                label: Seq::empty(),
                nodes: Seq::empty(),
                node: None,
                in_url: false,
            }),
            r@.wf(),
    {
        let r = CssParser {
            input,
            stage: CssBuildPhase::Start,
            label: String::new(),
            nodes: Vec::new(),
            node: None,
            in_url: false,
        };
        assert(r@.nodes =~= Seq::empty());
        assert(r@.label =~= Seq::empty());
        r
    }

    /// A parser for the declarations of one element.
    pub fn new_inline(input: &'a str) -> (r: CssParser<'a>)
        ensures
            r.input@ == input@,
            r@ == (CssModel {
                stage: CssBuildPhase::Specifier,
                label: Seq::empty(),
                nodes: Seq::empty(),
                node: None,
                in_url: false,
            }),
            r@.wf(),
    {
        let r = CssParser {
            input,
            stage: CssBuildPhase::Specifier,
            label: String::new(),
            nodes: Vec::new(),
            node: None,
            in_url: false,
        };
        assert(r@.nodes =~= Seq::empty());
        assert(r@.label =~= Seq::empty());
        r
    }

    fn push_label(&mut self, c: char)
        ensures
            final(self)@ == old(self)@.with_char(c),
            final(self).input == old(self).input,
    {
        self.label.push(c);
        assert(self@ =~= old(self)@.with_char(c));
    }

    fn set_stage(&mut self, stage: CssBuildPhase)
        ensures
            final(self)@ == old(self)@.to_stage(stage),
            final(self).input == old(self).input,
    {
        self.stage = stage;
        assert(self@ =~= old(self)@.to_stage(stage));
    }

    fn open_node(&mut self, node: Node)
        ensures
            final(self)@ == old(self)@.opened(node@),
            final(self).input == old(self).input,
    {
        self.node = Some(self.nodes.len());
        self.nodes.push(node);
        self.label = String::new();
        assert(self@ =~= old(self)@.opened(node@));
    }

    fn close_node(&mut self)
        ensures
            final(self)@ == old(self)@.closed(),
            final(self).input == old(self).input,
    {
        let parent: Option<usize> = match self.node {
            Some(idx) => if idx < self.nodes.len() {
                self.nodes[idx].get_parent()
            } else {
                None
            },
            None => None,
        };
        self.node = parent;
        assert(self@ =~= old(self)@.closed());
    }

    fn create_property_from_state(&mut self) -> (r: Result<(), InvalidDeclaration>)
        ensures
            final(self).input == old(self).input,
            match r {
                Ok(_) => old(self)@.label.contains(':') && final(self)@ == old(self)@.declared(),
                Err(_) => !old(self)@.label.contains(':') && final(self)@ == old(self)@,
            },
    {
        match parse_declaration(self.label.as_str(), self.node) {
            Some(node) => {
                self.nodes.push(node);
                self.label = String::new();
                assert(self@ =~= old(self)@.declared());
                Ok(())
            },
            None => Err(InvalidDeclaration),
        }
    }

    fn create_specifier_from_state(&mut self)
        ensures
            final(self)@ == old(self)@.flushed(),
            final(self).input == old(self).input,
    {
        match self.create_property_from_state() {
            Ok(()) => {},
            Err(_) => {
                self.label = String::new();
                assert(self@ =~= old(self)@.flushed());
            },
        }
    }

    fn take_char(&mut self, c: char) -> (r: Result<(), InvalidDeclaration>)
        ensures
            final(self).input == old(self).input,
            match (r, old(self)@.step(c)) {
                (Ok(_), Some(after)) => final(self)@ == after,
                (Err(_), None) => final(self)@ == old(self)@,
                _ => false,
            },
    {
        let specifies = self.stage == CssBuildPhase::Specifier;
        let asks = self.stage == CssBuildPhase::MediaQuery;
        match c {
            '@' => {
                self.push_label(c);
                self.set_stage(CssBuildPhase::MediaQuery);
            },
            '.' | '#' => {
                if !asks {
                    self.set_stage(CssBuildPhase::Specifier);
                    self.push_label(c);
                }
            },
            ' ' => {
                if specifies || asks {
                    self.push_label(c);
                }
            },
            '{' => {
                if specifies {
                    let node = parse_rule(self.label.as_str(), self.node);
                    self.open_node(node);
                } else if asks {
                    let node = parse_condition_node(self.label.as_str(), self.node);
                    self.open_node(node);
                    self.set_stage(CssBuildPhase::Start);
                }
            },
            '}' => {
                if specifies {
                    self.create_specifier_from_state();
                    self.set_stage(CssBuildPhase::Start);
                    self.close_node();
                } else if !asks {
                    self.close_node();
                }
            },
            ':' => {
                if !asks {
                    self.set_stage(CssBuildPhase::Specifier);
                }
                self.push_label(c);
            },
            ';' => {
                if specifies && !self.in_url {
                    return self.create_property_from_state();
                } else if asks {
                    self.push_label(c);
                }
            },
            '(' => {
                if specifies {
                    self.push_label(c);
                    if ends_with(self.label.as_str(), "url(") {
                        self.in_url = true;
                    }
                    assert(self@ =~= old(self)@.step(c)->0);
                }
            },
            ')' => {
                if specifies {
                    self.in_url = false;
                    self.push_label(c);
                    assert(self@ =~= old(self)@.step(c)->0);
                }
            },
            _ => {
                if c != '\n' && c != '\r' {
                    if !specifies && !asks {
                        self.set_stage(CssBuildPhase::Specifier);
                    }
                    self.push_label(c);
                }
            },
        }
        Ok(())
    }

    /// Reads the style sheet. Where a declaration ends that holds no colon, reading ends there.
    pub fn parse(&mut self) -> (r: Result<(), InvalidDeclaration>)
        ensures
            final(self).input == old(self).input,
            match (r, old(self)@.parsed(old(self).input@)) {
                (Ok(_), Some(after)) => final(self)@ == after,
                (Err(_), None) => true,
                _ => false,
            },
    {
        let text = trim(self.input);
        let chars = to_chars(text.as_str());
        let ghost before = self@;
        let mut at: usize = 0;
        while at < chars.len()
            invariant
                at <= chars@.len(),
                chars@ == trimmed(old(self).input@),
                self.input == old(self).input,
                before == old(self)@,
                before.run(chars@.take(at as int)) == Some(self@),
            decreases chars@.len() - at,
        {
            assert(chars@.take(at + 1).drop_last() =~= chars@.take(at as int));
            match self.take_char(chars[at]) {
                Ok(()) => {},
                Err(error) => {
                    proof {
                        lemma_css_refused(before, chars@, at + 1);
                    }
                    return Err(error);
                },
            }
            at = at + 1;
        }
        assert(chars@.take(chars@.len() as int) =~= chars@);
        if self.stage == CssBuildPhase::Specifier {
            self.create_specifier_from_state();
        }
        Ok(())
    }
}

} // verus!
