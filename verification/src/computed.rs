//! The styles of a document as they come to be known: which node comes next, and what a script is
//! told about one.
use vstd::prelude::*;

use crate::calc::SizeTerm;
use crate::cascade::DefinitionModel;
use crate::cascade::VariableDefinitions;
use crate::dom::with_value;
use crate::dom::Attributes;
use crate::dom::AttributesModel;
use crate::lengths::font_size;
use crate::lengths::resolve_font_size;
use crate::lengths::Stop;
use crate::sizing::Size;
use crate::text::push_text;
use crate::urls::pairs_view;

verus! {

/// A node whose style is worked out next.
#[derive(Debug, Clone, Copy, PartialEq, Eq, Structural)]
pub struct StyleVisit {
    pub node_idx: usize,
    pub parent: Option<usize>,
    /// The font size of the parent.
    pub parent_font_size: Option<u32>,
    /// Whether something above it is not displayed.
    pub hidden: bool,
}

/// The nodes whose styles are still to be worked out, the next one last.
#[derive(Debug)]
pub struct StyleWalk {
    pub stack: Vec<StyleVisit>,
}

/// Whether the style of a node is known.
pub open spec fn is_known(known: Seq<bool>, node_idx: usize) -> bool {
    node_idx < known.len() && known[node_idx as int]
}

/// The next node, and what is left after it. Below something that is not displayed, a node whose
/// style is known keeps it, and so does all below it.
pub open spec fn next_visit(stack: Seq<StyleVisit>, known: Seq<bool>) -> (
    Option<StyleVisit>,
    Seq<StyleVisit>,
)
    decreases stack.len(),
{
    if stack.len() == 0 {
        (None, stack)
    } else if stack.last().hidden && is_known(known, stack.last().node_idx) {
        next_visit(stack.drop_last(), known)
    } else {
        (Some(stack.last()), stack.drop_last())
    }
}

/// The children of a node whose style is known, the first one last.
pub open spec fn child_visits(
    visit: StyleVisit,
    font_size: u32,
    displayed: bool,
    children: Seq<usize>,
) -> Seq<StyleVisit> {
    Seq::new(
        children.len(),
        |i: int|
            StyleVisit {
                node_idx: children[children.len() - 1 - i],
                parent: Some(visit.node_idx),
                parent_font_size: Some(font_size),
                hidden: visit.hidden || !displayed,
            },
    )
}

impl StyleWalk {
    /// A walk that starts at a root.
    pub fn new(root: usize) -> (r: StyleWalk)
        ensures
            r.stack@ == seq![
                StyleVisit { node_idx: root, parent: None, parent_font_size: None, hidden: false },
            ],
    {
        let mut stack: Vec<StyleVisit> = Vec::new();
        stack.push(
            StyleVisit { node_idx: root, parent: None, parent_font_size: None, hidden: false },
        );
        StyleWalk { stack }
    }

    /// The next node. Below something that is not displayed, nodes whose styles are known are
    /// passed over, with all below them.
    pub fn next(&mut self, known: &Vec<bool>) -> (r: Option<StyleVisit>)
        ensures
            (r, final(self).stack@) == next_visit(old(self).stack@, known@),
    {
        loop
            invariant
                next_visit(self.stack@, known@) == next_visit(old(self).stack@, known@),
            decreases self.stack@.len(),
        {
            match self.stack.pop() {
                None => {
                    return None;
                },
                Some(visit) => {
                    if !(visit.hidden && visit.node_idx < known.len() && known[visit.node_idx]) {
                        return Some(visit);
                    }
                },
            }
        }
    }

    /// Notes the style of a node. The result is its font size; its children come next.
    pub fn finish(
        &mut self,
        visit: StyleVisit,
        size: &SizeTerm,
        displayed: bool,
        children: &Vec<usize>,
        window: &Size,
    ) -> (r: Result<u32, Stop>)
        ensures
            r == font_size(*size, visit.parent_font_size, *window),
            final(self).stack@ == (match r {
                Ok(own) => old(self).stack@ + child_visits(visit, own, displayed, children@),
                Err(_) => old(self).stack@,
            }),
    {
        let own: u32 = match resolve_font_size(size, visit.parent_font_size, window) {
            Err(stop) => {
                return Err(stop);
            },
            Ok(own) => own,
        };
        let ghost all = child_visits(visit, own, displayed, children@);
        let mut at: usize = children.len();
        assert(self.stack@ =~= old(self).stack@ + all.take(0));
        while at > 0
            invariant
                at <= children@.len(),
                all == child_visits(visit, own, displayed, children@),
                self.stack@ == old(self).stack@ + all.take(children@.len() - at),
            decreases at,
        {
            at = at - 1;
            let next = StyleVisit {
                node_idx: children[at],
                parent: Some(visit.node_idx),
                parent_font_size: Some(own),
                hidden: visit.hidden || !displayed,
            };
            assert(all[children@.len() - 1 - at] == next);
            assert(all.take(children@.len() - at) =~= all.take(children@.len() - 1 - at).push(
                next,
            ));
            self.stack.push(next);
            assert(self.stack@ =~= old(self).stack@ + all.take(children@.len() - at));
        }
        assert(all.take(children@.len() as int) =~= all);
        Ok(own)
    }
}

/// A walk goes on from the parent of what it comes to: the children of the node that was finished
/// last come first, in their order, and before all else that is left.
pub proof fn lemma_children_come_next(
    stack: Seq<StyleVisit>,
    visit: StyleVisit,
    font_size: u32,
    displayed: bool,
    children: Seq<usize>,
    known: Seq<bool>,
)
    requires
        children.len() > 0,
        !(visit.hidden || !displayed) || !is_known(known, children[0]),
    ensures
        ({
            let (next, rest) = next_visit(
                stack + child_visits(visit, font_size, displayed, children),
                known,
            );
            &&& next == Some(
                StyleVisit {
                    node_idx: children[0],
                    parent: Some(visit.node_idx),
                    parent_font_size: Some(font_size),
                    hidden: visit.hidden || !displayed,
                },
            )
            &&& rest == stack + child_visits(
                visit,
                font_size,
                displayed,
                children.skip(1),
            )
        }),
{
    let all = child_visits(visit, font_size, displayed, children);
    let rest = child_visits(visit, font_size, displayed, children.skip(1));
    assert((stack + all).last() == all[children.len() - 1]);
    assert((stack + all).drop_last() =~= stack + rest) by {
        assert forall|i: int| 0 <= i < rest.len() implies all[i] == rest[i] by {
            assert(children.skip(1)[children.len() - 2 - i] == children[children.len() - 1 - i]);
        }
    }
}

/// The values of four sides, as a script reads them.
#[derive(Debug)]
pub struct SideTexts {
    pub left: String,
    pub right: String,
    pub top: String,
    pub bottom: String,
}

/// The values of one side of a border, as a script reads them.
#[derive(Debug)]
pub struct BorderTexts {
    pub width: String,
    pub color: String,
    pub style: String,
}

/// The values of a style, as a script reads them.
#[derive(Debug)]
pub struct StyleTexts {
    pub width: String,
    pub height: String,
    pub min_width: String,
    pub max_width: String,
    pub min_height: String,
    pub max_height: String,
    pub background_color: String,
    pub background_image: String,
    pub color: String,
    pub opacity: String,
    pub visibility: String,
    pub transform: String,
    pub pointer_events: String,
    pub overflow_x: String,
    pub overflow_y: String,
    pub z_index: String,
    pub display: String,
    pub flex_grow: String,
    pub flex_shrink: String,
    pub flex_basis: String,
    pub order: String,
    pub justify_content: String,
    pub justify_items: String,
    pub align_items: String,
    pub align_self: String,
    pub flex_direction: String,
    pub gap: String,
    pub position: String,
    pub radius_top_left: String,
    pub radius_top_right: String,
    pub radius_bottom_right: String,
    pub radius_bottom_left: String,
    pub text_align: String,
    pub font_size: String,
    /// None where the height of lines is automatic.
    pub line_height: Option<String>,
    pub margin: SideTexts,
    pub padding: SideTexts,
    pub inset: SideTexts,
    pub border_left: BorderTexts,
    pub border_top: BorderTexts,
    pub border_right: BorderTexts,
    pub border_bottom: BorderTexts,
}

fn add_pair(list: &mut Vec<(String, String)>, name: &str, value: &String)
    ensures
        pairs_view(final(list)@) == pairs_view(old(list)@).push((name@, value@)),
{
    list.push((name.to_owned(), value.clone()));
    assert(pairs_view(list@) =~= pairs_view(old(list)@).push((name@, value@)));
}

/// The sizes of an element.
pub open spec fn sizes_values(style: StyleTexts) -> Seq<(Seq<char>, Seq<char>)> {
    seq![
        ("width"@, style.width@),
        ("height"@, style.height@),
        ("min-width"@, style.min_width@),
        ("max-width"@, style.max_width@),
        ("min-height"@, style.min_height@),
        ("max-height"@, style.max_height@),
    ]
}

fn add_sizes(list: &mut Vec<(String, String)>, style: &StyleTexts)
    ensures
        pairs_view(final(list)@) == pairs_view(old(list)@) + sizes_values(*style),
{
    add_pair(list, "width", &style.width);
    add_pair(list, "height", &style.height);
    add_pair(list, "min-width", &style.min_width);
    add_pair(list, "max-width", &style.max_width);
    add_pair(list, "min-height", &style.min_height);
    add_pair(list, "max-height", &style.max_height);
    assert(pairs_view(list@) =~= pairs_view(old(list)@) + sizes_values(*style));
}

/// How an element is painted.
pub open spec fn looks_values(style: StyleTexts) -> Seq<(Seq<char>, Seq<char>)> {
    seq![
        ("background-color"@, style.background_color@),
        ("background-image"@, style.background_image@),
        ("color"@, style.color@),
        ("opacity"@, style.opacity@),
        ("visibility"@, style.visibility@),
        ("transform"@, style.transform@),
        ("pointer-events"@, style.pointer_events@),
        ("overflow-x"@, style.overflow_x@),
        ("overflow-y"@, style.overflow_y@),
        ("z-index"@, style.z_index@),
    ]
}

fn add_looks(list: &mut Vec<(String, String)>, style: &StyleTexts)
    ensures
        pairs_view(final(list)@) == pairs_view(old(list)@) + looks_values(*style),
{
    add_pair(list, "background-color", &style.background_color);
    add_pair(list, "background-image", &style.background_image);
    add_pair(list, "color", &style.color);
    add_pair(list, "opacity", &style.opacity);
    add_pair(list, "visibility", &style.visibility);
    add_pair(list, "transform", &style.transform);
    add_pair(list, "pointer-events", &style.pointer_events);
    add_pair(list, "overflow-x", &style.overflow_x);
    add_pair(list, "overflow-y", &style.overflow_y);
    add_pair(list, "z-index", &style.z_index);
    assert(pairs_view(list@) =~= pairs_view(old(list)@) + looks_values(*style));
}

/// How an element and its children are laid out.
pub open spec fn flow_values(style: StyleTexts) -> Seq<(Seq<char>, Seq<char>)> {
    seq![
        ("display"@, style.display@),
        ("flex-grow"@, style.flex_grow@),
        ("flex-shrink"@, style.flex_shrink@),
        ("flex-basis"@, style.flex_basis@),
        ("order"@, style.order@),
        ("justify-content"@, style.justify_content@),
        ("justify-items"@, style.justify_items@),
        ("align-items"@, style.align_items@),
        ("align-self"@, style.align_self@),
        ("flex-direction"@, style.flex_direction@),
        ("gap"@, style.gap@),
    ]
}

fn add_flow(list: &mut Vec<(String, String)>, style: &StyleTexts)
    ensures
        pairs_view(final(list)@) == pairs_view(old(list)@) + flow_values(*style),
{
    add_pair(list, "display", &style.display);
    add_pair(list, "flex-grow", &style.flex_grow);
    add_pair(list, "flex-shrink", &style.flex_shrink);
    add_pair(list, "flex-basis", &style.flex_basis);
    add_pair(list, "order", &style.order);
    add_pair(list, "justify-content", &style.justify_content);
    add_pair(list, "justify-items", &style.justify_items);
    add_pair(list, "align-items", &style.align_items);
    add_pair(list, "align-self", &style.align_self);
    add_pair(list, "flex-direction", &style.flex_direction);
    add_pair(list, "gap", &style.gap);
    assert(pairs_view(list@) =~= pairs_view(old(list)@) + flow_values(*style));
}

/// The space around an element and its content.
pub open spec fn edges_values(style: StyleTexts) -> Seq<(Seq<char>, Seq<char>)> {
    seq![
        ("margin-left"@, style.margin.left@),
        ("margin-right"@, style.margin.right@),
        ("margin-top"@, style.margin.top@),
        ("margin-bottom"@, style.margin.bottom@),
        ("padding-left"@, style.padding.left@),
        ("padding-right"@, style.padding.right@),
        ("padding-top"@, style.padding.top@),
        ("padding-bottom"@, style.padding.bottom@),
    ]
}

fn add_edges(list: &mut Vec<(String, String)>, style: &StyleTexts)
    ensures
        pairs_view(final(list)@) == pairs_view(old(list)@) + edges_values(*style),
{
    add_pair(list, "margin-left", &style.margin.left);
    add_pair(list, "margin-right", &style.margin.right);
    add_pair(list, "margin-top", &style.margin.top);
    add_pair(list, "margin-bottom", &style.margin.bottom);
    add_pair(list, "padding-left", &style.padding.left);
    add_pair(list, "padding-right", &style.padding.right);
    add_pair(list, "padding-top", &style.padding.top);
    add_pair(list, "padding-bottom", &style.padding.bottom);
    assert(pairs_view(list@) =~= pairs_view(old(list)@) + edges_values(*style));
}

/// Where an element stands.
pub open spec fn place_values(style: StyleTexts) -> Seq<(Seq<char>, Seq<char>)> {
    seq![
        ("position"@, style.position@),
        ("left"@, style.inset.left@),
        ("right"@, style.inset.right@),
        ("top"@, style.inset.top@),
        ("bottom"@, style.inset.bottom@),
    ]
}

fn add_place(list: &mut Vec<(String, String)>, style: &StyleTexts)
    ensures
        pairs_view(final(list)@) == pairs_view(old(list)@) + place_values(*style),
{
    add_pair(list, "position", &style.position);
    add_pair(list, "left", &style.inset.left);
    add_pair(list, "right", &style.inset.right);
    add_pair(list, "top", &style.inset.top);
    add_pair(list, "bottom", &style.inset.bottom);
    assert(pairs_view(list@) =~= pairs_view(old(list)@) + place_values(*style));
}

/// The corners of an element.
pub open spec fn corners_values(style: StyleTexts) -> Seq<(Seq<char>, Seq<char>)> {
    seq![
        ("border-top-left-radius"@, style.radius_top_left@),
        ("border-top-right-radius"@, style.radius_top_right@),
        ("border-bottom-right-radius"@, style.radius_bottom_right@),
        ("border-bottom-left-radius"@, style.radius_bottom_left@),
    ]
}

fn add_corners(list: &mut Vec<(String, String)>, style: &StyleTexts)
    ensures
        pairs_view(final(list)@) == pairs_view(old(list)@) + corners_values(*style),
{
    add_pair(list, "border-top-left-radius", &style.radius_top_left);
    add_pair(list, "border-top-right-radius", &style.radius_top_right);
    add_pair(list, "border-bottom-right-radius", &style.radius_bottom_right);
    add_pair(list, "border-bottom-left-radius", &style.radius_bottom_left);
    assert(pairs_view(list@) =~= pairs_view(old(list)@) + corners_values(*style));
}

/// How the text of an element is set.
pub open spec fn text_values(style: StyleTexts) -> Seq<(Seq<char>, Seq<char>)> {
    seq![
        ("text-align"@, style.text_align@),
        ("font-size"@, style.font_size@),
        (
            "line-height"@,
            match style.line_height {
                Some(height) => height@,
                None => "normal"@,
            },
        ),
    ]
}

fn add_text(list: &mut Vec<(String, String)>, style: &StyleTexts)
    ensures
        pairs_view(final(list)@) == pairs_view(old(list)@) + text_values(*style),
{
    add_pair(list, "text-align", &style.text_align);
    add_pair(list, "font-size", &style.font_size);
    match &style.line_height {
        Some(height) => add_pair(list, "line-height", height),
        None => {
            let normal = "normal".to_owned();
            add_pair(list, "line-height", &normal);
        },
    }
    assert(pairs_view(list@) =~= pairs_view(old(list)@) + text_values(*style));
}

/// One side of a border.
pub open spec fn border_values(side: Seq<char>, border: BorderTexts) -> Seq<(Seq<char>, Seq<char>)> {
    seq![
        ("border-"@ + side + "-width"@, border.width@),
        ("border-"@ + side + "-color"@, border.color@),
        ("border-"@ + side + "-style"@, border.style@),
    ]
}

fn border_name(side: &str, what: &str) -> (r: String)
    ensures
        r@ == "border-"@ + side@ + what@,
{
    let mut name = "border-".to_owned();
    push_text(&mut name, side);
    push_text(&mut name, what);
    name
}

/// Adds one side of a border.
pub fn style_border_to_properties(list: &mut Vec<(String, String)>, side: &str, border: &BorderTexts)
    ensures
        pairs_view(final(list)@) == pairs_view(old(list)@) + border_values(side@, *border),
{
    let width = border_name(side, "-width");
    add_pair(list, width.as_str(), &border.width);
    let color = border_name(side, "-color");
    add_pair(list, color.as_str(), &border.color);
    let style = border_name(side, "-style");
    add_pair(list, style.as_str(), &border.style);
    assert(pairs_view(list@) =~= pairs_view(old(list)@) + border_values(side@, *border));
}

/// The values of a style by their names.
pub open spec fn style_values(style: StyleTexts) -> Seq<(Seq<char>, Seq<char>)> {
    sizes_values(style) + looks_values(style) + flow_values(style) + edges_values(style)
        + place_values(style) + corners_values(style) + text_values(style) + border_values(
        "left"@,
        style.border_left,
    ) + border_values("top"@, style.border_top) + border_values("right"@, style.border_right)
        + border_values("bottom"@, style.border_bottom)
}

/// The values of the variables that have definitions, by their names.
pub open spec fn variable_values(
    variables: Seq<(usize, String)>,
    definitions: Seq<DefinitionModel>,
) -> Seq<(Seq<char>, Seq<char>)>
    decreases variables.len(),
{
    if variables.len() == 0 {
        Seq::empty()
    } else {
        let before = variable_values(variables.drop_last(), definitions);
        let (number, value) = variables.last();
        if number < definitions.len() {
            before.push((definitions[number as int].property, value@))
        } else {
            before
        }
    }
}

/// Values under their names; a later one takes the place of an earlier one.
pub open spec fn with_values(
    known: AttributesModel,
    pairs: Seq<(Seq<char>, Seq<char>)>,
) -> AttributesModel
    decreases pairs.len(),
{
    if pairs.len() == 0 {
        known
    } else {
        with_value(with_values(known, pairs.drop_last()), pairs.last().0, pairs.last().1)
    }
}

/// What a script is told about the style of a node: every value under its name, and every variable
/// that has a definition. The variables are taken in the order in which they are given. A node
/// without a style has no values.
pub fn computed_style_properties(
    style: &Option<StyleTexts>,
    variables: &Vec<(usize, String)>,
    definitions: &VariableDefinitions,
) -> (r: Attributes)
    ensures
        r@ == (match *style {
            None => AttributesModel::empty(),
            Some(style) => with_values(
                AttributesModel::empty(),
                style_values(style) + variable_values(variables@, definitions@),
            ),
        }),
{
    let style = match style {
        None => {
            return Attributes::new();
        },
        Some(style) => style,
    };
    let mut list: Vec<(String, String)> = Vec::new();
    assert(pairs_view(list@) =~= Seq::empty());
    add_sizes(&mut list, style);
    add_looks(&mut list, style);
    add_flow(&mut list, style);
    add_edges(&mut list, style);
    add_place(&mut list, style);
    add_corners(&mut list, style);
    add_text(&mut list, style);
    style_border_to_properties(&mut list, "left", &style.border_left);
    style_border_to_properties(&mut list, "top", &style.border_top);
    style_border_to_properties(&mut list, "right", &style.border_right);
    style_border_to_properties(&mut list, "bottom", &style.border_bottom);
    assert(pairs_view(list@) =~= style_values(*style));
    let mut at: usize = 0;
    assert(variables@.take(0) =~= Seq::empty());
    assert(pairs_view(list@) + Seq::<(Seq<char>, Seq<char>)>::empty() =~= pairs_view(list@));
    while at < variables.len()
        invariant
            at <= variables@.len(),
            pairs_view(list@) == style_values(*style) + variable_values(
                variables@.take(at as int),
                definitions@,
            ),
        decreases variables@.len() - at,
    {
        assert(variables@.take(at + 1).drop_last() =~= variables@.take(at as int));
        let number: usize = variables[at].0;
        if number < definitions.data.len() {
            assert(definitions@[number as int].property == definitions.data@[number as int].property@);
            add_pair(&mut list, definitions.data[number].property.as_str(), &variables[at].1);
            assert(pairs_view(list@) =~= style_values(*style) + variable_values(
                variables@.take(at + 1),
                definitions@,
            ));
        }
        at = at + 1;
    }
    assert(variables@.take(variables@.len() as int) =~= variables@);
    collect(&list)
}

fn collect(list: &Vec<(String, String)>) -> (r: Attributes)
    ensures
        r@ == with_values(AttributesModel::empty(), pairs_view(list@)),
{
    let mut r = Attributes::new();
    let ghost pairs = pairs_view(list@);
    let mut at: usize = 0;
    while at < list.len()
        invariant
            at <= list@.len(),
            pairs == pairs_view(list@),
            r@ == with_values(AttributesModel::empty(), pairs.take(at as int)),
        decreases list@.len() - at,
    {
        assert(pairs.take(at + 1).drop_last() =~= pairs.take(at as int));
        assert(pairs[at as int] == (list@[at as int].0@, list@[at as int].1@));
        r.insert(list[at].0.clone(), list[at].1.clone());
        at = at + 1;
    }
    assert(pairs.take(list@.len() as int) =~= pairs);
    r
}

} // verus!
