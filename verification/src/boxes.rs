//! The table of boxes that layout produces.
//!
//! Boxes are numbered from one, in the order in which they are registered. A box is registered
//! after its children, so every child has a smaller number than its parent.
use vstd::prelude::*;

use crate::raster::BorderRadius;

verus! {

pub open spec fn in_i32(value: int) -> bool {
    i32::MIN <= value <= i32::MAX
}

/// One side of a border, with its width in pixels.
#[derive(Debug, Clone, Copy, PartialEq, Eq, Structural)]
pub struct RectBorderSide {
    pub size: u32,
    pub color: u32,
}

/// The four sides of a border.
#[derive(Debug, Clone, Copy, PartialEq, Eq, Structural)]
pub struct RectBorder {
    pub left: Option<RectBorderSide>,
    pub top: Option<RectBorderSide>,
    pub right: Option<RectBorderSide>,
    pub bottom: Option<RectBorderSide>,
}

impl RectBorder {
    pub fn new_empty() -> (r: RectBorder)
        ensures
            r.left is None && r.top is None && r.right is None && r.bottom is None,
    {
        RectBorder { left: None, top: None, right: None, bottom: None }
    }
}

/// A colour value of a style. A picture from a data URL is known by the number of its image,
/// once that has been decoded.
#[derive(Debug, Clone, Copy, PartialEq, Eq, Structural)]
pub enum StyleBackground {
    Transparent,
    CurrentColor,
    Hex(u32),
    DataUrl(Option<usize>),
}

#[derive(Debug, Clone, Copy, PartialEq, Eq, Structural)]
pub enum StyleBorderStyle {
    Absent,
    Solid,
}

/// The border side that a style asks for. `size` is the border's resolved size, and `text_color`
/// the colour of the element's text.
pub open spec fn border_side(
    style: StyleBorderStyle,
    size: Option<i32>,
    color: StyleBackground,
    text_color: StyleBackground,
) -> Option<RectBorderSide> {
    match (style, size) {
        (StyleBorderStyle::Solid, Some(size)) => match (color, text_color) {
            (StyleBackground::Hex(hex), _) => Some(RectBorderSide { size: size as u32, color: hex }),
            (StyleBackground::Transparent, _) => Some(
                RectBorderSide { size: size as u32, color: 0xFFFF_FF00 },
            ),
            (StyleBackground::CurrentColor, StyleBackground::Hex(hex)) => Some(
                RectBorderSide { size: size as u32, color: hex },
            ),
            _ => None,
        },
        _ => None,
    }
}

impl RectBorderSide {
    /// The border side that a style asks for: none unless the border is solid, has a size and has
    /// a colour.
    pub fn parse_from_style(
        style: StyleBorderStyle,
        size: Option<i32>,
        color: StyleBackground,
        text_color: StyleBackground,
    ) -> (r: Option<RectBorderSide>)
        ensures
            r == border_side(style, size, color, text_color),
    {
        let size: u32 = match (style, size) {
            (StyleBorderStyle::Solid, Some(size)) => size as u32,
            _ => {
                return None;
            },
        };
        match color {
            StyleBackground::Hex(hex) => Some(RectBorderSide { size, color: hex }),
            StyleBackground::Transparent => Some(RectBorderSide { size, color: 0xFFFF_FF00 }),
            StyleBackground::DataUrl(_) => None,
            StyleBackground::CurrentColor => match text_color {
                StyleBackground::Hex(hex) => Some(RectBorderSide { size, color: hex }),
                _ => None,
            },
        }
    }
}

/// The place and decoration of a box.
#[derive(Debug, Clone, Copy)]
pub struct Rect {
    pub x: i32,
    pub y: i32,
    pub width: u32,
    pub height: u32,
    pub background: StyleBackground,
    pub border: RectBorder,
    pub border_radius: BorderRadius,
}

/// What a box shows. Images and surfaces are known by number.
#[derive(Debug, Clone, Copy, PartialEq, Eq, Structural)]
pub enum LayoutKind {
    Element,
    PixMap { image: usize, opaque: bool },
    Canvas { bitmap: Option<usize> },
    Text { image: usize },
    Iframe { surface: Option<usize> },
}

#[derive(Debug)]
pub struct LayoutBox {
    pub rect: Rect,
    pub kind: LayoutKind,
    pub children: Vec<usize>,
    pub node_idx: usize,
    pub content_height: u32,
    pub z_index: i32,
}

/// What a [`LayoutBox`] holds.
#[verifier::ext_equal]
pub struct BoxModel {
    pub rect: Rect,
    pub kind: LayoutKind,
    pub children: Seq<usize>,
    pub node_idx: usize,
    pub content_height: u32,
    pub z_index: i32,
}

impl View for LayoutBox {
    type V = BoxModel;

    open spec fn view(&self) -> BoxModel {
        BoxModel {
            rect: self.rect,
            kind: self.kind,
            children: self.children@,
            node_idx: self.node_idx,
            content_height: self.content_height,
            z_index: self.z_index,
        }
    }
}

pub open spec fn box_models(boxes: Seq<LayoutBox>) -> Seq<BoxModel> {
    Seq::new(boxes.len(), |i: int| boxes[i]@)
}

/// All boxes, and for each node the box that was first registered for it as final.
pub struct LayoutTable {
    pub boxes: Vec<LayoutBox>,
    pub node_layout: Vec<(usize, usize)>,
}

/// Whether `id` numbers a box.
pub open spec fn is_box<T>(boxes: Seq<T>, id: int) -> bool {
    1 <= id <= boxes.len()
}

/// Every child of every box has been registered before it.
pub open spec fn children_first(boxes: Seq<BoxModel>) -> bool {
    forall|i: int, k: int|
        0 <= i < boxes.len() && 0 <= k < boxes[i].children.len() ==> 1
            <= #[trigger] boxes[i].children[k] <= i
}

/// A box with its place shifted.
pub open spec fn shifted_box(layout_box: BoxModel, dx: int, dy: int) -> BoxModel {
    BoxModel {
        rect: Rect {
            x: (layout_box.rect.x + dx) as i32,
            y: (layout_box.rect.y + dy) as i32,
            ..layout_box.rect
        },
        ..layout_box
    }
}

/// The boxes after box `id` and all boxes below it have been shifted; nothing where a coordinate
/// leaves the `i32` range on the way.
pub open spec fn shifted(boxes: Seq<BoxModel>, id: int, dx: int, dy: int) -> Option<Seq<BoxModel>>
    decreases id, 1int, 0nat,
{
    if !is_box(boxes, id) || !in_i32(boxes[id - 1].rect.x + dx) || !in_i32(
        boxes[id - 1].rect.y + dy,
    ) {
        None
    } else {
        shifted_children(
            boxes.update(id - 1, shifted_box(boxes[id - 1], dx, dy)),
            id,
            boxes[id - 1].children,
            dx,
            dy,
        )
    }
}

/// The boxes after each of `children`, which are below box `id`, has been shifted in turn.
pub open spec fn shifted_children(
    boxes: Seq<BoxModel>,
    id: int,
    children: Seq<usize>,
    dx: int,
    dy: int,
) -> Option<Seq<BoxModel>>
    decreases id, 0int, children.len(),
{
    if children.len() == 0 {
        Some(boxes)
    } else {
        match shifted_children(boxes, id, children.drop_last(), dx, dy) {
            None => None,
            Some(moved) => if 0 < children.last() < id {
                shifted(moved, children.last() as int, dx, dy)
            } else {
                None
            },
        }
    }
}

/// Whether two tables hold the same boxes apart from their places.
pub open spec fn same_but_places(a: Seq<BoxModel>, b: Seq<BoxModel>) -> bool {
    &&& a.len() == b.len()
    &&& forall|i: int|
        0 <= i < a.len() ==> {
            &&& (#[trigger] a[i]).children == b[i].children
            &&& a[i].kind == b[i].kind
            &&& a[i].node_idx == b[i].node_idx
            &&& a[i].content_height == b[i].content_height
            &&& a[i].z_index == b[i].z_index
            &&& a[i].rect.width == b[i].rect.width
            &&& a[i].rect.height == b[i].rect.height
            &&& a[i].rect.background == b[i].rect.background
            &&& a[i].rect.border == b[i].rect.border
            &&& a[i].rect.border_radius == b[i].rect.border_radius
        }
}

/// Shifting a box changes no box's number, size, decoration, content or children.
pub proof fn lemma_shift_keeps_all_but_places(boxes: Seq<BoxModel>, id: int, dx: int, dy: int)
    requires
        shifted(boxes, id, dx, dy) is Some,
    ensures
        same_but_places(boxes, shifted(boxes, id, dx, dy)->0),
    decreases id, 1int, 0nat,
{
    let first = boxes.update(id - 1, shifted_box(boxes[id - 1], dx, dy));
    lemma_shift_children_keeps_all_but_places(first, id, boxes[id - 1].children, dx, dy);
    let after = shifted(boxes, id, dx, dy)->0;
    assert forall|i: int| 0 <= i < boxes.len() implies (#[trigger] boxes[i]).children
        == after[i].children && boxes[i].kind == after[i].kind && boxes[i].node_idx
        == after[i].node_idx && boxes[i].content_height == after[i].content_height
        && boxes[i].z_index == after[i].z_index && boxes[i].rect.width == after[i].rect.width
        && boxes[i].rect.height == after[i].rect.height && boxes[i].rect.background
        == after[i].rect.background && boxes[i].rect.border == after[i].rect.border
        && boxes[i].rect.border_radius == after[i].rect.border_radius by {
        assert(first[i].children == after[i].children);
    }
}

proof fn lemma_shift_children_keeps_all_but_places(
    boxes: Seq<BoxModel>,
    id: int,
    children: Seq<usize>,
    dx: int,
    dy: int,
)
    requires
        shifted_children(boxes, id, children, dx, dy) is Some,
    ensures
        same_but_places(boxes, shifted_children(boxes, id, children, dx, dy)->0),
    decreases id, 0int, children.len(),
{
    if children.len() > 0 {
        lemma_shift_children_keeps_all_but_places(boxes, id, children.drop_last(), dx, dy);
        let moved = shifted_children(boxes, id, children.drop_last(), dx, dy)->0;
        lemma_shift_keeps_all_but_places(moved, children.last() as int, dx, dy);
    }
}

/// Shifting a box leaves alone every box that was registered after it.
pub proof fn lemma_shift_stays_below(boxes: Seq<BoxModel>, id: int, dx: int, dy: int)
    requires
        shifted(boxes, id, dx, dy) is Some,
    ensures
        forall|i: int|
            id <= i < boxes.len() ==> #[trigger] (shifted(boxes, id, dx, dy)->0)[i] == boxes[i],
    decreases id, 1int, 0nat,
{
    let first = boxes.update(id - 1, shifted_box(boxes[id - 1], dx, dy));
    lemma_shift_children_stays_below(first, id, boxes[id - 1].children, dx, dy);
    let after = shifted(boxes, id, dx, dy)->0;
    assert forall|i: int| id <= i < boxes.len() implies #[trigger] after[i] == boxes[i] by {
        assert(after[i] == first[i]);
    }
}

proof fn lemma_shift_children_stays_below(
    boxes: Seq<BoxModel>,
    id: int,
    children: Seq<usize>,
    dx: int,
    dy: int,
)
    requires
        shifted_children(boxes, id, children, dx, dy) is Some,
    ensures
        forall|i: int|
            id - 1 <= i < boxes.len() ==> #[trigger] (shifted_children(
                boxes,
                id,
                children,
                dx,
                dy,
            )->0)[i] == boxes[i],
    decreases id, 0int, children.len(),
{
    if children.len() > 0 {
        lemma_shift_children_stays_below(boxes, id, children.drop_last(), dx, dy);
        let moved = shifted_children(boxes, id, children.drop_last(), dx, dy)->0;
        lemma_shift_stays_below(moved, children.last() as int, dx, dy);
        lemma_shift_children_keeps_all_but_places(boxes, id, children.drop_last(), dx, dy);
        let after = shifted(moved, children.last() as int, dx, dy)->0;
        assert forall|i: int| id - 1 <= i < boxes.len() implies #[trigger] after[i]
            == boxes[i] by {
            assert(moved[i] == boxes[i]);
        }
    }
}

/// The box that a node's entry names, where there is one.
pub open spec fn final_box(entries: Seq<(usize, usize)>, node_idx: usize) -> Option<usize>
    decreases entries.len(),
{
    if entries.len() == 0 {
        None
    } else if entries.last().0 == node_idx {
        Some(entries.last().1)
    } else {
        final_box(entries.drop_last(), node_idx)
    }
}

impl LayoutTable {
    pub open spec fn models(self) -> Seq<BoxModel> {
        box_models(self.boxes@)
    }

    pub open spec fn wf(self) -> bool {
        &&& children_first(self.models())
        &&& self.boxes@.len() < usize::MAX
    }

    pub fn new() -> (r: LayoutTable)
        ensures
            r.wf(),
            r.boxes@.len() == 0,
            r.node_layout@.len() == 0,
    {
        LayoutTable { boxes: Vec::new(), node_layout: Vec::new() }
    }

    /// The box that was first registered as final for a node: the outermost one.
    pub fn layout_of_node(&self, node_idx: usize) -> (r: Option<usize>)
        ensures
            r == final_box(self.node_layout@, node_idx),
    {
        let mut at: usize = self.node_layout.len();
        assert(self.node_layout@.take(at as int) =~= self.node_layout@);
        while at > 0
            invariant
                at <= self.node_layout@.len(),
                final_box(self.node_layout@, node_idx) == final_box(
                    self.node_layout@.take(at as int),
                    node_idx,
                ),
            decreases at,
        {
            assert(self.node_layout@.take(at as int).drop_last() =~= self.node_layout@.take(
                at - 1,
            ));
            if self.node_layout[at - 1].0 == node_idx {
                return Some(self.node_layout[at - 1].1);
            }
            at = at - 1;
        }
        None
    }

    /// Adds a box and returns its number. With `save_as_final`, the node's entry is set unless it
    /// has one already.
    pub fn register_layout_box(&mut self, layout_box: LayoutBox, save_as_final: bool) -> (id: usize)
        requires
            old(self).wf(),
            old(self).models().len() + 1 < usize::MAX,
            forall|k: int|
                0 <= k < layout_box.children@.len() ==> is_box(
                    old(self).models(),
                    #[trigger] layout_box.children@[k] as int,
                ),
        ensures
            final(self).wf(),
            id == old(self).models().len() + 1,
            final(self).models() == old(self).models().push(layout_box@),
            final(self).node_layout@ == (if save_as_final && final_box(
                old(self).node_layout@,
                layout_box.node_idx,
            ) is None {
                old(self).node_layout@.push((layout_box.node_idx, id))
            } else {
                old(self).node_layout@
            }),
    {
        let node_idx: usize = layout_box.node_idx;
        let id: usize = self.boxes.len() + 1;
        let known = self.layout_of_node(node_idx);
        self.boxes.push(layout_box);
        if save_as_final && known.is_none() {
            self.node_layout.push((node_idx, id));
        }
        proof {
            assert(self.models() =~= old(self).models().push(layout_box@));
            assert forall|i: int, k: int|
                0 <= i < self.models().len() && 0 <= k < self.models()[i].children.len() implies 1
                <= #[trigger] self.models()[i].children[k] <= i by {
                if i < old(self).models().len() {
                    assert(self.models()[i] == old(self).models()[i]);
                } else {
                    assert(is_box(old(self).models(), layout_box.children@[k] as int));
                }
            }
        }
        id
    }

    /// The node that a box was made for.
    pub fn layout_to_node_idx(&self, id: usize) -> (node_idx: usize)
        requires
            is_box(self.models(), id as int),
        ensures
            node_idx == self.models()[id - 1].node_idx,
    {
        self.boxes[id - 1].node_idx
    }

    fn move_children(&mut self, id: usize, children: &Vec<usize>, x: i32, y: i32) -> (ok: bool)
        requires
            children_first(old(self).models()),
            forall|k: int| 0 <= k < children@.len() ==> 1 <= #[trigger] children@[k] < id,
        ensures
            ({
                let after = shifted_children(
                    old(self).models(),
                    id as int,
                    children@,
                    x as int,
                    y as int,
                );
                &&& ok == (after is Some)
                &&& ok ==> final(self).models() == after->0
            }),
            same_but_places(old(self).models(), final(self).models()),
            final(self).node_layout == old(self).node_layout,
        decreases id, 0int,
    {
        let mut at: usize = 0;
        let ghost before = self.models();
        while at < children.len()
            invariant
                at <= children@.len(),
                children_first(before),
                children_first(self.models()),
                before == old(self).models(),
                forall|k: int| 0 <= k < children@.len() ==> 1 <= #[trigger] children@[k] < id,
                shifted_children(before, id as int, children@.take(at as int), x as int, y as int)
                    == Some(self.models()),
                same_but_places(before, self.models()),
                self.node_layout == old(self).node_layout,
            decreases children@.len() - at,
        {
            proof {
                assert(children@.take(at + 1).drop_last() =~= children@.take(at as int));
                assert(children@.take(at + 1).last() == children@[at as int]);
                if shifted_children(before, id as int, children@, x as int, y as int) is Some {
                    lemma_prefix_shifts(before, id as int, children@, x as int, y as int, at + 1);
                }
            }
            if !self.move_entire_box(children[at], x, y) {
                return false;
            }
            at = at + 1;
        }
        assert(children@.take(children@.len() as int) =~= children@);
        true
    }

    /// Shifts a box and everything below it. Where a coordinate would leave the `i32` range, or
    /// `id` numbers no box, the result is `false` and some of the boxes may have been shifted.
    pub fn move_entire_box(&mut self, id: usize, x: i32, y: i32) -> (ok: bool)
        requires
            children_first(old(self).models()),
        ensures
            ({
                let after = shifted(old(self).models(), id as int, x as int, y as int);
                &&& ok == (after is Some)
                &&& ok ==> final(self).models() == after->0
            }),
            children_first(final(self).models()),
            same_but_places(old(self).models(), final(self).models()),
            final(self).node_layout == old(self).node_layout,
        decreases id, 1int,
    {
        let ghost before = self.models();
        if id == 0 || id > self.boxes.len() {
            return false;
        }
        let mut rect = self.boxes[id - 1].rect;
        let moved_x: i64 = rect.x as i64 + x as i64;
        let moved_y: i64 = rect.y as i64 + y as i64;
        if moved_x < i32::MIN as i64 || moved_x > i32::MAX as i64 || moved_y < i32::MIN as i64
            || moved_y > i32::MAX as i64 {
            return false;
        }
        let children = self.boxes[id - 1].children.clone();
        assert(children@ =~= before[id - 1].children);
        rect.x = moved_x as i32;
        rect.y = moved_y as i32;
        self.boxes[id - 1].rect = rect;
        let ghost first = self.models();
        proof {
            assert(first =~= before.update(
                id - 1,
                shifted_box(before[id - 1], x as int, y as int),
            ));
            lemma_same_children_first(before, first);
            assert forall|k: int| 0 <= k < children@.len() implies 1 <= #[trigger] children@[k]
                < id by {
                assert(1 <= before[id - 1].children[k] <= id - 1);
            }
        }
        let ok = self.move_children(id, &children, x, y);
        proof {
            lemma_same_but_places_transitive(before, first, self.models());
            lemma_same_children_first(before, self.models());
        }
        ok
    }
}

proof fn lemma_same_but_places_transitive(
    a: Seq<BoxModel>,
    b: Seq<BoxModel>,
    c: Seq<BoxModel>,
)
    requires
        same_but_places(a, b),
        same_but_places(b, c),
    ensures
        same_but_places(a, c),
{
    assert forall|i: int| 0 <= i < a.len() implies (#[trigger] a[i]).children == c[i].children
        && a[i].kind == c[i].kind && a[i].node_idx == c[i].node_idx && a[i].content_height
        == c[i].content_height && a[i].z_index == c[i].z_index && a[i].rect.width
        == c[i].rect.width && a[i].rect.height == c[i].rect.height && a[i].rect.background
        == c[i].rect.background && a[i].rect.border == c[i].rect.border && a[i].rect.border_radius
        == c[i].rect.border_radius by {
        assert(b[i].children == c[i].children);
    }
}

proof fn lemma_same_children_first(a: Seq<BoxModel>, b: Seq<BoxModel>)
    requires
        children_first(a),
        same_but_places(a, b),
    ensures
        children_first(b),
{
    assert forall|i: int, k: int|
        0 <= i < b.len() && 0 <= k < b[i].children.len() implies 1 <= #[trigger] b[i].children[k]
        <= i by {
        assert(a[i].children == b[i].children);
        assert(1 <= a[i].children[k] <= i);
    }
}

/// Where all of `children` can be shifted in turn, so can the first `count` of them.
proof fn lemma_prefix_shifts(
    boxes: Seq<BoxModel>,
    id: int,
    children: Seq<usize>,
    dx: int,
    dy: int,
    count: int,
)
    requires
        shifted_children(boxes, id, children, dx, dy) is Some,
        0 <= count <= children.len(),
    ensures
        shifted_children(boxes, id, children.take(count), dx, dy) is Some,
    decreases children.len(),
{
    if count == children.len() {
        assert(children.take(count) =~= children);
    } else {
        lemma_prefix_shifts(boxes, id, children.drop_last(), dx, dy, count);
        assert(children.drop_last().take(count) =~= children.take(count));
    }
}

} // verus!
