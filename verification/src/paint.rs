//! The order in which boxes are painted, and what painting a box puts on the surface.
use vstd::prelude::*;

use crate::blit::apply_pixmap_on_buffer;
use crate::blit::blit_rgb_buffer;
use crate::blit::copy_paint;
use crate::blit::pixmap_applied;
use crate::blit::source_fits;
use crate::blit::Pixmap;
use crate::boxes::in_i32;
use crate::boxes::is_box;
use crate::boxes::LayoutBox;
use crate::boxes::LayoutKind;
use crate::boxes::Rect;
use crate::boxes::RectBorderSide;
use crate::boxes::StyleBackground;
use crate::order::arranged;
use crate::order::stable_order;
use crate::order::stable_positions;
use crate::raster::clipped_area;
use crate::raster::draw_rect_filled_clipped;
use crate::raster::max2;
use crate::raster::min2;
use crate::raster::painted;
use crate::raster::rect_filled;
use crate::raster::saturating_add_unsigned;
use crate::raster::saturating_sub;
use crate::raster::BorderRadius;
use crate::raster::PaintClip;

verus! {

/// How a box takes part in the flow of its surroundings.
#[derive(Debug, Clone, Copy, PartialEq, Eq, Structural)]
pub enum StylePosition {
    Static,
    Relative,
    Absolute,
    Fixed,
    Sticky,
}

impl StylePosition {
    /// Whether a box with this position is taken out of the flow.
    pub open spec fn leaves_flow(self) -> bool {
        self is Absolute || self is Fixed
    }

    pub fn is_free(self) -> (r: bool)
        ensures
            r == self.leaves_flow(),
    {
        matches!(self, StylePosition::Absolute | StylePosition::Fixed)
    }
}

/// What painting reads of a node's style. The translation of its transform is resolved to pixels.
#[derive(Debug, Clone, Copy)]
pub struct PaintStyle {
    pub position: StylePosition,
    /// Whether `z-index` is a number rather than `auto`.
    pub has_z_index: bool,
    /// Whether the opacity is below one.
    pub translucent: bool,
    /// Whether the opacity is zero.
    pub transparent: bool,
    pub has_transform: bool,
    pub transform_x: i32,
    pub transform_y: i32,
    pub visible: bool,
    pub clips_x: bool,
    pub clips_y: bool,
    pub accepts_pointer: bool,
}

/// What painting reads of a box beside the box itself: the style of its node, if it has one, and
/// how far the node is scrolled.
#[derive(Debug, Clone, Copy)]
pub struct BoxFacts {
    pub style: Option<PaintStyle>,
    pub scroll_y: i32,
}

/// Whether a style keeps the stacking of its descendants to itself.
pub open spec fn stacks(style: PaintStyle) -> bool {
    ||| style.position is Fixed
    ||| style.position is Sticky
    ||| style.translucent
    ||| style.has_transform
    ||| style.has_z_index && style.position !is Static
}

/// Whether a style keeps the stacking of its descendants to itself.
pub fn creates_stacking_context(style: &PaintStyle) -> (r: bool)
    ensures
        r == stacks(*style),
{
    matches!(style.position, StylePosition::Fixed | StylePosition::Sticky) || style.translucent
        || style.has_transform || (style.has_z_index && !matches!(
        style.position,
        StylePosition::Static
    ))
}

impl BoxFacts {
    pub open spec fn stacks_here(self) -> bool {
        self.style matches Some(style) && stacks(style)
    }

    pub open spec fn shift_x(self) -> int {
        match self.style {
            Some(style) => style.transform_x as int,
            None => 0,
        }
    }

    pub open spec fn shift_y(self) -> int {
        match self.style {
            Some(style) => style.transform_y as int,
            None => 0,
        }
    }

    pub open spec fn is_transparent(self) -> bool {
        self.style matches Some(style) && style.transparent
    }

    pub open spec fn is_visible(self) -> bool {
        self.style matches Some(style) ==> style.visible
    }
}

/// A box that the painter came by, where it stood and whether it was painted.
#[derive(Debug, Clone, Copy)]
pub struct RenderedNode {
    pub layout_box_idx: usize,
    pub offset_x: i32,
    pub offset_y: i32,
    pub clip: PaintClip,
    pub painted: bool,
}

/// A box whose painting waits for its stacking context: its number, the offset of its parent and
/// the clip.
pub type DeferredPaint = (usize, i32, i32, PaintClip);

/// The boxes that a walk comes by, in painting order, and those that it leaves waiting.
pub struct Walk {
    pub rendered: Seq<RenderedNode>,
    pub deferred: Seq<DeferredPaint>,
}

/// The width of a border side, or zero where there is none.
pub open spec fn side_size(side: Option<RectBorderSide>) -> i32 {
    match side {
        Some(side) => side.size as i32,
        None => 0,
    }
}

fn border_size(side: &Option<RectBorderSide>) -> (r: i32)
    ensures
        r == side_size(*side),
{
    match side {
        Some(side) => side.size as i32,
        None => 0,
    }
}

/// The end of a side that starts at `start` and is `length` long, less the border there.
pub open spec fn inner_end(start: int, length: u32, border: i32) -> int {
    max2(min2(min2(start + length, i32::MAX as int) - border, i32::MAX as int), i32::MIN as int)
}

/// The clip for the children of a box whose corner is at `(x, y)`: where the style clips an axis,
/// the clip is narrowed to the inside of the borders. Nothing where the start of the inside
/// leaves the `i32` range.
pub open spec fn child_clip(
    rect: Rect,
    style: Option<PaintStyle>,
    x: int,
    y: int,
    clip: PaintClip,
) -> Option<PaintClip> {
    match style {
        None => Some(clip),
        Some(style) => {
            let left = x + side_size(rect.border.left);
            let top = y + side_size(rect.border.top);
            if (style.clips_x && !in_i32(left)) || (style.clips_y && !in_i32(top)) {
                None
            } else {
                let across = if style.clips_x {
                    clip.narrowed_x(
                        left as i32,
                        inner_end(x, rect.width, side_size(rect.border.right)) as i32,
                    )
                } else {
                    clip
                };
                Some(
                    if style.clips_y {
                        across.narrowed_y(
                            top as i32,
                            inner_end(y, rect.height, side_size(rect.border.bottom)) as i32,
                        )
                    } else {
                        across
                    },
                )
            }
        },
    }
}

pub open spec fn z_keys(boxes: Seq<LayoutBox>, items: Seq<DeferredPaint>) -> Seq<i128> {
    Seq::new(items.len(), |i: int| boxes[items[i].0 - 1].z_index as i128)
}

/// Waiting boxes by ascending `z-index`; equal ones keep their order.
pub open spec fn by_z_index(boxes: Seq<LayoutBox>, items: Seq<DeferredPaint>) -> Seq<DeferredPaint> {
    arranged(items, stable_positions(z_keys(boxes, items)))
}

pub open spec fn nothing_walked() -> Walk {
    Walk { rendered: Seq::empty(), deferred: Seq::empty() }
}

/// The walk over box `id` and what is below it, from a parent at offset `(px, py)`. Nothing where
/// a coordinate leaves the `i32` range or a number stands for no box.
pub open spec fn walk_box(
    boxes: Seq<LayoutBox>,
    facts: Seq<BoxFacts>,
    height: u32,
    id: int,
    px: int,
    py: int,
    clip: PaintClip,
    defer: bool,
) -> Option<Walk>
    decreases id, 1int, 0nat,
{
    if clip.lets_nothing() {
        Some(nothing_walked())
    } else if !is_box(boxes, id) {
        None
    } else if defer && boxes[id - 1].z_index > 0 && facts[id - 1].stacks_here() {
        Some(
            Walk {
                rendered: Seq::empty(),
                deferred: seq![(id as usize, px as i32, py as i32, clip)],
            },
        )
    } else {
        let layout_box = boxes[id - 1];
        let fact = facts[id - 1];
        let ox = px + fact.shift_x();
        let oy = py + fact.shift_y();
        let x = layout_box.rect.x + ox;
        let y = layout_box.rect.y + oy;
        let end_y = y + (layout_box.content_height as i32);
        let unpainted = RenderedNode {
            layout_box_idx: id as usize,
            offset_x: ox as i32,
            offset_y: oy as i32,
            clip,
            painted: false,
        };
        if !in_i32(ox) || !in_i32(oy) || !in_i32(oy + fact.scroll_y) {
            None
        } else if fact.is_transparent() {
            Some(Walk { rendered: seq![unpainted], deferred: Seq::empty() })
        } else if !in_i32(x) || !in_i32(y) || !in_i32(end_y) {
            None
        } else if y > (height as i32) || end_y < 0 || !fact.is_visible() {
            Some(Walk { rendered: seq![unpainted], deferred: Seq::empty() })
        } else {
            let here = RenderedNode { painted: true, ..unpainted };
            match child_clip(layout_box.rect, fact.style, x, y, clip) {
                None => None,
                Some(inner_clip) => match walk_children(
                    boxes,
                    facts,
                    height,
                    id,
                    layout_box.children@,
                    ox,
                    oy + fact.scroll_y,
                    inner_clip,
                ) {
                    None => None,
                    Some(inner) => if fact.stacks_here() {
                        match walk_waiting(
                            boxes,
                            facts,
                            height,
                            id,
                            by_z_index(boxes, inner.deferred),
                        ) {
                            None => None,
                            Some(waiting) => Some(
                                Walk {
                                    rendered: seq![here] + inner.rendered + waiting.rendered,
                                    deferred: Seq::empty(),
                                },
                            ),
                        }
                    } else {
                        Some(
                            Walk {
                                rendered: seq![here] + inner.rendered,
                                deferred: inner.deferred,
                            },
                        )
                    },
                },
            }
        }
    }
}

/// The walk over boxes below box `id`, one after the other.
pub open spec fn walk_children(
    boxes: Seq<LayoutBox>,
    facts: Seq<BoxFacts>,
    height: u32,
    id: int,
    children: Seq<usize>,
    px: int,
    py: int,
    clip: PaintClip,
) -> Option<Walk>
    decreases id, 0int, children.len(),
{
    if children.len() == 0 {
        Some(nothing_walked())
    } else {
        match walk_children(boxes, facts, height, id, children.drop_last(), px, py, clip) {
            None => None,
            Some(before) => if children.last() >= id {
                None
            } else {
                match walk_box(
                    boxes,
                    facts,
                    height,
                    children.last() as int,
                    px,
                    py,
                    clip,
                    true,
                ) {
                    None => None,
                    Some(walk) => Some(
                        Walk {
                            rendered: before.rendered + walk.rendered,
                            deferred: before.deferred + walk.deferred,
                        },
                    ),
                }
            },
        }
    }
}

/// The walk over waiting boxes below box `id`, one after the other.
pub open spec fn walk_waiting(
    boxes: Seq<LayoutBox>,
    facts: Seq<BoxFacts>,
    height: u32,
    id: int,
    items: Seq<DeferredPaint>,
) -> Option<Walk>
    decreases id, 0int, items.len(),
{
    if items.len() == 0 {
        Some(nothing_walked())
    } else {
        match walk_waiting(boxes, facts, height, id, items.drop_last()) {
            None => None,
            Some(before) => if items.last().0 >= id {
                None
            } else {
                match walk_box(
                    boxes,
                    facts,
                    height,
                    items.last().0 as int,
                    items.last().1 as int,
                    items.last().2 as int,
                    items.last().3,
                    false,
                ) {
                    None => None,
                    Some(walk) => Some(
                        Walk {
                            rendered: before.rendered + walk.rendered,
                            deferred: before.deferred + walk.deferred,
                        },
                    ),
                }
            },
        }
    }
}

/// The whole walk over the roots of a layout: the roots in order, then the boxes that still wait.
pub open spec fn walk_roots(
    boxes: Seq<LayoutBox>,
    facts: Seq<BoxFacts>,
    height: u32,
    roots: Seq<usize>,
    clip: PaintClip,
) -> Option<Seq<RenderedNode>> {
    let bound = boxes.len() + 1;
    match walk_children(boxes, facts, height, bound as int, roots, 0, 0, clip) {
        None => None,
        Some(walk) => match walk_waiting(
            boxes,
            facts,
            height,
            bound as int,
            by_z_index(boxes, walk.deferred),
        ) {
            None => None,
            Some(waiting) => Some(walk.rendered + waiting.rendered),
        },
    }
}

fn in_range(value: i64) -> (r: bool)
    ensures
        r == in_i32(value as int),
{
    i32::MIN as i64 <= value && value <= i32::MAX as i64
}

fn narrow_child_clip(
    rect: &Rect,
    style: &Option<PaintStyle>,
    x: i32,
    y: i32,
    clip: PaintClip,
) -> (r: Option<PaintClip>)
    ensures
        r == child_clip(*rect, *style, x as int, y as int, clip),
{
    let style = match style {
        None => {
            return Some(clip);
        },
        Some(style) => style,
    };
    let left: i64 = x as i64 + border_size(&rect.border.left) as i64;
    let top: i64 = y as i64 + border_size(&rect.border.top) as i64;
    if (style.clips_x && !in_range(left)) || (style.clips_y && !in_range(top)) {
        return None;
    }
    let mut inner = clip;
    if style.clips_x {
        let end: i32 = saturating_sub(
            saturating_add_unsigned(x, rect.width),
            border_size(&rect.border.right),
        );
        inner = inner.intersect_x(left as i32, end);
    }
    if style.clips_y {
        let end: i32 = saturating_sub(
            saturating_add_unsigned(y, rect.height),
            border_size(&rect.border.bottom),
        );
        inner = inner.intersect_y(top as i32, end);
    }
    Some(inner)
}

/// Sorts waiting boxes by `z-index`; equal ones keep their order.
fn sort_by_z_index(boxes: &Vec<LayoutBox>, items: &Vec<DeferredPaint>) -> (r: Vec<DeferredPaint>)
    requires
        forall|i: int| 0 <= i < items@.len() ==> is_box(boxes@, (#[trigger] items@[i]).0 as int),
    ensures
        r@ == by_z_index(boxes@, items@),
{
    let mut keys: Vec<i128> = Vec::new();
    let mut idx: usize = 0;
    while idx < items.len()
        invariant
            idx <= items@.len(),
            forall|i: int|
                0 <= i < items@.len() ==> is_box(boxes@, (#[trigger] items@[i]).0 as int),
            keys@ =~= z_keys(boxes@, items@.take(idx as int)),
        decreases items@.len() - idx,
    {
        assert(is_box(boxes@, items@[idx as int].0 as int));
        keys.push(boxes[items[idx].0 - 1].z_index as i128);
        idx = idx + 1;
    }
    assert(items@.take(items@.len() as int) =~= items@);
    let order = stable_order(&keys);
    let mut sorted: Vec<DeferredPaint> = Vec::new();
    let mut at: usize = 0;
    while at < order.len()
        invariant
            at <= order@.len(),
            order@ == stable_positions(z_keys(boxes@, items@)),
            forall|i: int| 0 <= i < order@.len() ==> (#[trigger] order@[i]) < items@.len(),
            sorted@ =~= by_z_index(boxes@, items@).take(at as int),
        decreases order@.len() - at,
    {
        sorted.push(items[order[at]]);
        at = at + 1;
    }
    assert(by_z_index(boxes@, items@).take(order@.len() as int) =~= by_z_index(boxes@, items@));
    sorted
}

pub open spec fn all_boxes(boxes: Seq<LayoutBox>, items: Seq<DeferredPaint>) -> bool {
    forall|i: int| 0 <= i < items.len() ==> is_box(boxes, (#[trigger] items[i]).0 as int)
}

/// Walks over box `id` and what is below it. What the walk comes by and what it leaves waiting is
/// appended. The result is `false` where the walk cannot be carried out.
fn walk(
    boxes: &Vec<LayoutBox>,
    facts: &Vec<BoxFacts>,
    height: u32,
    id: usize,
    parent_offset_x: i32,
    parent_offset_y: i32,
    clip: PaintClip,
    defer: bool,
    rendered: &mut Vec<RenderedNode>,
    deferred: &mut Vec<DeferredPaint>,
) -> (ok: bool)
    requires
        facts@.len() == boxes@.len(),
    ensures
        match walk_box(
            boxes@,
            facts@,
            height,
            id as int,
            parent_offset_x as int,
            parent_offset_y as int,
            clip,
            defer,
        ) {
            None => !ok,
            Some(walk) => {
                &&& ok
                &&& final(rendered)@ == old(rendered)@ + walk.rendered
                &&& final(deferred)@ == old(deferred)@ + walk.deferred
                &&& all_boxes(boxes@, walk.deferred)
            },
        },
    decreases id, 1int,
{
    if clip.is_empty() {
        assert(rendered@ =~= rendered@ + Seq::<RenderedNode>::empty());
        assert(deferred@ =~= deferred@ + Seq::<DeferredPaint>::empty());
        return true;
    }
    if id == 0 || id > boxes.len() {
        return false;
    }
    let layout_box = &boxes[id - 1];
    let fact = &facts[id - 1];
    let stacking = match &fact.style {
        Some(style) => creates_stacking_context(style),
        None => false,
    };
    if defer && layout_box.z_index > 0 && stacking {
        deferred.push((id, parent_offset_x, parent_offset_y, clip));
        assert(rendered@ =~= rendered@ + Seq::<RenderedNode>::empty());
        assert(deferred@ =~= old(deferred)@ + seq![(id, parent_offset_x, parent_offset_y, clip)]);
        return true;
    }
    let (shift_x, shift_y): (i32, i32) = match &fact.style {
        Some(style) => (style.transform_x, style.transform_y),
        None => (0, 0),
    };
    let wide_x: i64 = parent_offset_x as i64 + shift_x as i64;
    let wide_y: i64 = parent_offset_y as i64 + shift_y as i64;
    let wide_child_y: i64 = wide_y + fact.scroll_y as i64;
    if !in_range(wide_x) || !in_range(wide_y) || !in_range(wide_child_y) {
        return false;
    }
    let offset_x: i32 = wide_x as i32;
    let offset_y: i32 = wide_y as i32;
    let unpainted = RenderedNode { layout_box_idx: id, offset_x, offset_y, clip, painted: false };
    let transparent = match &fact.style {
        Some(style) => style.transparent,
        None => false,
    };
    if transparent {
        rendered.push(unpainted);
        assert(rendered@ =~= old(rendered)@ + seq![unpainted]);
        assert(deferred@ =~= deferred@ + Seq::<DeferredPaint>::empty());
        return true;
    }
    let start_x: i64 = layout_box.rect.x as i64 + wide_x;
    let start_y: i64 = layout_box.rect.y as i64 + wide_y;
    let end_y: i64 = start_y + (layout_box.content_height as i32) as i64;
    if !in_range(start_x) || !in_range(start_y) || !in_range(end_y) {
        return false;
    }
    let visible = match &fact.style {
        Some(style) => style.visible,
        None => true,
    };
    if start_y > (height as i32) as i64 || end_y < 0 || !visible {
        rendered.push(unpainted);
        assert(rendered@ =~= old(rendered)@ + seq![unpainted]);
        assert(deferred@ =~= deferred@ + Seq::<DeferredPaint>::empty());
        return true;
    }
    let inner_clip = match narrow_child_clip(
        &layout_box.rect,
        &fact.style,
        start_x as i32,
        start_y as i32,
        clip,
    ) {
        None => {
            return false;
        },
        Some(inner_clip) => inner_clip,
    };
    let here = RenderedNode { layout_box_idx: id, offset_x, offset_y, clip, painted: true };
    let ghost start = rendered@;
    rendered.push(here);
    let ghost pushed = rendered@;
    if stacking {
        let mut waiting: Vec<DeferredPaint> = Vec::new();
        if !walk_each_child(
            boxes,
            facts,
            height,
            id,
            &layout_box.children,
            offset_x,
            wide_child_y as i32,
            inner_clip,
            rendered,
            &mut waiting,
        ) {
            return false;
        }
        let ghost after_children = rendered@;
        let ghost inner = walk_children(
            boxes@,
            facts@,
            height,
            id as int,
            layout_box.children@,
            wide_x as int,
            wide_child_y as int,
            inner_clip,
        )->0;
        assert(waiting@ =~= inner.deferred);
        let sorted = sort_by_z_index(boxes, &waiting);
        let mut left_over: Vec<DeferredPaint> = Vec::new();
        if !walk_each_waiting(boxes, facts, height, id, &sorted, rendered, &mut left_over) {
            return false;
        }
        proof {
            let last = walk_waiting(
                boxes@,
                facts@,
                height,
                id as int,
                by_z_index(boxes@, inner.deferred),
            )->0;
            assert(rendered@ =~= start + (seq![here] + inner.rendered + last.rendered));
            assert(deferred@ =~= deferred@ + Seq::<DeferredPaint>::empty());
        }
        true
    } else {
        let ok = walk_each_child(
            boxes,
            facts,
            height,
            id,
            &layout_box.children,
            offset_x,
            wide_child_y as i32,
            inner_clip,
            rendered,
            deferred,
        );
        proof {
            if ok {
                let inner = walk_children(
                    boxes@,
                    facts@,
                    height,
                    id as int,
                    layout_box.children@,
                    wide_x as int,
                    wide_child_y as int,
                    inner_clip,
                )->0;
                assert(rendered@ =~= start + (seq![here] + inner.rendered));
            }
        }
        ok
    }
}

fn walk_each_child(
    boxes: &Vec<LayoutBox>,
    facts: &Vec<BoxFacts>,
    height: u32,
    id: usize,
    children: &Vec<usize>,
    offset_x: i32,
    offset_y: i32,
    clip: PaintClip,
    rendered: &mut Vec<RenderedNode>,
    deferred: &mut Vec<DeferredPaint>,
) -> (ok: bool)
    requires
        facts@.len() == boxes@.len(),
    ensures
        match walk_children(
            boxes@,
            facts@,
            height,
            id as int,
            children@,
            offset_x as int,
            offset_y as int,
            clip,
        ) {
            None => !ok,
            Some(walk) => {
                &&& ok
                &&& final(rendered)@ == old(rendered)@ + walk.rendered
                &&& final(deferred)@ == old(deferred)@ + walk.deferred
                &&& all_boxes(boxes@, walk.deferred)
            },
        },
    decreases id, 0int,
{
    let ghost rendered_before = rendered@;
    let ghost deferred_before = deferred@;
    let mut at: usize = 0;
    assert(rendered@ =~= rendered_before + Seq::<RenderedNode>::empty());
    assert(deferred@ =~= deferred_before + Seq::<DeferredPaint>::empty());
    while at < children.len()
        invariant
            at <= children@.len(),
            facts@.len() == boxes@.len(),
            ({
                let walked = walk_children(
                    boxes@,
                    facts@,
                    height,
                    id as int,
                    children@.take(at as int),
                    offset_x as int,
                    offset_y as int,
                    clip,
                );
                &&& walked is Some
                &&& rendered@ == rendered_before + walked->0.rendered
                &&& deferred@ == deferred_before + walked->0.deferred
                &&& all_boxes(boxes@, walked->0.deferred)
            }),
        decreases children@.len() - at,
    {
        let ghost walked = walk_children(
            boxes@,
            facts@,
            height,
            id as int,
            children@.take(at as int),
            offset_x as int,
            offset_y as int,
            clip,
        )->0;
        proof {
            assert(children@.take(at + 1).drop_last() =~= children@.take(at as int));
            assert(children@.take(at + 1).last() == children@[at as int]);
            if walk_children(
                boxes@,
                facts@,
                height,
                id as int,
                children@.take(at + 1),
                offset_x as int,
                offset_y as int,
                clip,
            ) is None {
                lemma_children_prefix(
                    boxes@,
                    facts@,
                    height,
                    id as int,
                    children@,
                    offset_x as int,
                    offset_y as int,
                    clip,
                    at + 1,
                );
            }
        }
        if children[at] >= id {
            return false;
        }
        if !walk(
            boxes,
            facts,
            height,
            children[at],
            offset_x,
            offset_y,
            clip,
            true,
            rendered,
            deferred,
        ) {
            return false;
        }
        proof {
            let one = walk_box(
                boxes@,
                facts@,
                height,
                children@[at as int] as int,
                offset_x as int,
                offset_y as int,
                clip,
                true,
            )->0;
            assert(rendered@ =~= rendered_before + (walked.rendered + one.rendered));
            assert(deferred@ =~= deferred_before + (walked.deferred + one.deferred));
            lemma_all_boxes_add(boxes@, walked.deferred, one.deferred);
        }
        at = at + 1;
    }
    assert(children@.take(children@.len() as int) =~= children@);
    true
}

fn walk_each_waiting(
    boxes: &Vec<LayoutBox>,
    facts: &Vec<BoxFacts>,
    height: u32,
    id: usize,
    items: &Vec<DeferredPaint>,
    rendered: &mut Vec<RenderedNode>,
    deferred: &mut Vec<DeferredPaint>,
) -> (ok: bool)
    requires
        facts@.len() == boxes@.len(),
    ensures
        match walk_waiting(boxes@, facts@, height, id as int, items@) {
            None => !ok,
            Some(walk) => {
                &&& ok
                &&& final(rendered)@ == old(rendered)@ + walk.rendered
                &&& final(deferred)@ == old(deferred)@ + walk.deferred
            },
        },
    decreases id, 0int,
{
    let ghost rendered_before = rendered@;
    let ghost deferred_before = deferred@;
    let mut at: usize = 0;
    assert(rendered@ =~= rendered_before + Seq::<RenderedNode>::empty());
    assert(deferred@ =~= deferred_before + Seq::<DeferredPaint>::empty());
    while at < items.len()
        invariant
            at <= items@.len(),
            facts@.len() == boxes@.len(),
            ({
                let walked = walk_waiting(boxes@, facts@, height, id as int, items@.take(at as int));
                &&& walked is Some
                &&& rendered@ == rendered_before + walked->0.rendered
                &&& deferred@ == deferred_before + walked->0.deferred
            }),
        decreases items@.len() - at,
    {
        let ghost walked = walk_waiting(
            boxes@,
            facts@,
            height,
            id as int,
            items@.take(at as int),
        )->0;
        proof {
            assert(items@.take(at + 1).drop_last() =~= items@.take(at as int));
            assert(items@.take(at + 1).last() == items@[at as int]);
            if walk_waiting(boxes@, facts@, height, id as int, items@.take(at + 1)) is None {
                lemma_waiting_prefix(boxes@, facts@, height, id as int, items@, at + 1);
            }
        }
        let (child, x, y, clip) = items[at];
        if child >= id {
            return false;
        }
        if !walk(boxes, facts, height, child, x, y, clip, false, rendered, deferred) {
            return false;
        }
        proof {
            let one = walk_box(
                boxes@,
                facts@,
                height,
                child as int,
                x as int,
                y as int,
                clip,
                false,
            )->0;
            assert(rendered@ =~= rendered_before + (walked.rendered + one.rendered));
            assert(deferred@ =~= deferred_before + (walked.deferred + one.deferred));
        }
        at = at + 1;
    }
    assert(items@.take(items@.len() as int) =~= items@);
    true
}

proof fn lemma_all_boxes_add(boxes: Seq<LayoutBox>, a: Seq<DeferredPaint>, b: Seq<DeferredPaint>)
    requires
        all_boxes(boxes, a),
        all_boxes(boxes, b),
    ensures
        all_boxes(boxes, a + b),
{
    assert forall|i: int| 0 <= i < (a + b).len() implies is_box(
        boxes,
        (#[trigger] (a + b)[i]).0 as int,
    ) by {
        if i < a.len() {
            assert((a + b)[i] == a[i]);
        } else {
            assert((a + b)[i] == b[i - a.len()]);
        }
    }
}

/// A walk over children that fails on a prefix fails altogether.
proof fn lemma_children_prefix(
    boxes: Seq<LayoutBox>,
    facts: Seq<BoxFacts>,
    height: u32,
    id: int,
    children: Seq<usize>,
    px: int,
    py: int,
    clip: PaintClip,
    count: int,
)
    requires
        0 <= count <= children.len(),
        walk_children(boxes, facts, height, id, children.take(count), px, py, clip) is None,
    ensures
        walk_children(boxes, facts, height, id, children, px, py, clip) is None,
    decreases children.len(),
{
    if count == children.len() {
        assert(children.take(count) =~= children);
    } else {
        assert(children.drop_last().take(count) =~= children.take(count));
        lemma_children_prefix(
            boxes,
            facts,
            height,
            id,
            children.drop_last(),
            px,
            py,
            clip,
            count,
        );
    }
}

proof fn lemma_waiting_prefix(
    boxes: Seq<LayoutBox>,
    facts: Seq<BoxFacts>,
    height: u32,
    id: int,
    items: Seq<DeferredPaint>,
    count: int,
)
    requires
        0 <= count <= items.len(),
        walk_waiting(boxes, facts, height, id, items.take(count)) is None,
    ensures
        walk_waiting(boxes, facts, height, id, items) is None,
    decreases items.len(),
{
    if count == items.len() {
        assert(items.take(count) =~= items);
    } else {
        assert(items.drop_last().take(count) =~= items.take(count));
        lemma_waiting_prefix(boxes, facts, height, id, items.drop_last(), count);
    }
}

/// The boxes that painting comes by, in painting order, for a layout with the given roots on a
/// window with the given clip. Nothing where a coordinate leaves the `i32` range or a number
/// stands for no box.
pub fn paint_order(
    boxes: &Vec<LayoutBox>,
    facts: &Vec<BoxFacts>,
    height: u32,
    roots: &Vec<usize>,
    clip: PaintClip,
) -> (r: Option<Vec<RenderedNode>>)
    requires
        facts@.len() == boxes@.len(),
        boxes@.len() < usize::MAX,
    ensures
        match (r, walk_roots(boxes@, facts@, height, roots@, clip)) {
            (Some(nodes), Some(walked)) => nodes@ == walked,
            (None, None) => true,
            _ => false,
        },
{
    let bound: usize = boxes.len() + 1;
    let mut rendered: Vec<RenderedNode> = Vec::new();
    let mut deferred: Vec<DeferredPaint> = Vec::new();
    if !walk_each_child(
        boxes,
        facts,
        height,
        bound,
        roots,
        0,
        0,
        clip,
        &mut rendered,
        &mut deferred,
    ) {
        return None;
    }
    let ghost walk = walk_children(
        boxes@,
        facts@,
        height,
        bound as int,
        roots@,
        0,
        0,
        clip,
    )->0;
    assert(deferred@ =~= walk.deferred);
    assert(rendered@ =~= walk.rendered);
    let sorted = sort_by_z_index(boxes, &deferred);
    let mut left_over: Vec<DeferredPaint> = Vec::new();
    if !walk_each_waiting(
        boxes,
        facts,
        height,
        bound,
        &sorted,
        &mut rendered,
        &mut left_over,
    ) {
        return None;
    }
    Some(rendered)
}

/// The colour that a window is cleared with: opaque white.
pub const CLEAR_COLOR: u32 = 0xFFFF_FFFF;

/// Whether every picture that a box shows is there and large enough.
pub open spec fn pictures_ready(
    layout_box: LayoutBox,
    images: Seq<Pixmap>,
    surfaces: Seq<Vec<u32>>,
) -> bool {
    &&& layout_box.rect.background matches StyleBackground::DataUrl(Some(image)) ==> image
        < images.len()
    &&& match layout_box.kind {
        LayoutKind::Element => true,
        LayoutKind::PixMap { image, opaque } => image < images.len(),
        LayoutKind::Text { image } => image < images.len(),
        LayoutKind::Canvas { bitmap } => bitmap matches Some(image) ==> image < images.len(),
        LayoutKind::Iframe { surface } => surface matches Some(surface) ==> surface
            < surfaces.len() && surfaces[surface as int]@.len() >= layout_box.rect.width
            * layout_box.rect.height,
    }
}

pub open spec fn all_pictures_ready(
    boxes: Seq<LayoutBox>,
    images: Seq<Pixmap>,
    surfaces: Seq<Vec<u32>>,
) -> bool {
    &&& forall|i: int| 0 <= i < images.len() ==> (#[trigger] images[i]).wf()
    &&& forall|i: int|
        0 <= i < boxes.len() ==> pictures_ready(#[trigger] boxes[i], images, surfaces)
}

/// A window surface: its pixels and its size.
pub struct SurfaceModel {
    pub pixels: Seq<u32>,
    pub width: u32,
    pub height: u32,
}

impl SurfaceModel {
    pub open spec fn fits(self) -> bool {
        self.pixels.len() >= self.width * self.height
    }

    pub open spec fn with_rect(
        self,
        x: int,
        y: int,
        w: int,
        h: int,
        color: u32,
        radius: BorderRadius,
        clip: PaintClip,
    ) -> SurfaceModel {
        SurfaceModel {
            pixels: rect_filled(
                self.pixels,
                false,
                self.width,
                self.height,
                x as i32,
                y as i32,
                w as u32,
                h as u32,
                color,
                radius,
                clip,
            ),
            ..self
        }
    }

    pub open spec fn with_image(
        self,
        rect: Rect,
        x: int,
        y: int,
        image: Pixmap,
        opaque: bool,
        clip: PaintClip,
    ) -> SurfaceModel {
        SurfaceModel {
            pixels: pixmap_applied(
                self.pixels,
                rect.width,
                rect.height,
                self.width,
                self.height,
                x as i32,
                y as i32,
                image,
                opaque,
                clip,
            ),
            ..self
        }
    }

    pub open spec fn with_surface(
        self,
        rect: Rect,
        x: int,
        y: int,
        source: Seq<u32>,
        clip: PaintClip,
    ) -> SurfaceModel {
        SurfaceModel {
            pixels: painted(
                self.pixels,
                self.width as int,
                clipped_area(
                    self.width,
                    self.height,
                    x as i32,
                    y as i32,
                    rect.width,
                    rect.height,
                    clip,
                ),
                copy_paint(source, rect.width, x as i32, y as i32),
            ),
            ..self
        }
    }

    /// The surface with the four sides of a border at `(x, y)`: left, top, right, bottom.
    pub open spec fn with_borders(
        self,
        rect: Rect,
        x: int,
        y: int,
        clip: PaintClip,
    ) -> SurfaceModel {
        let square = BorderRadius { top_left: 0, top_right: 0, bottom_right: 0, bottom_left: 0 };
        let left = match rect.border.left {
            Some(side) => self.with_rect(
                x,
                y,
                side.size as int,
                rect.height as int,
                side.color,
                square,
                clip,
            ),
            None => self,
        };
        let top = match rect.border.top {
            Some(side) => left.with_rect(
                x,
                y,
                rect.width as int,
                side.size as int,
                side.color,
                square,
                clip,
            ),
            None => left,
        };
        let right = match rect.border.right {
            Some(side) => top.with_rect(
                x + (rect.width as i32) - (side.size as i32),
                y,
                side.size as int,
                rect.height as int,
                side.color,
                square,
                clip,
            ),
            None => top,
        };
        match rect.border.bottom {
            Some(side) => right.with_rect(
                x,
                y + (rect.height as i32) - (side.size as i32),
                rect.width as int,
                side.size as int,
                side.color,
                square,
                clip,
            ),
            None => right,
        }
    }

    /// The surface with the background of an element: a colour inside the borders, or a picture.
    pub open spec fn with_background(
        self,
        rect: Rect,
        x: int,
        y: int,
        images: Seq<Pixmap>,
        clip: PaintClip,
    ) -> SurfaceModel {
        match rect.background {
            StyleBackground::Hex(code) => self.with_rect(
                x + side_size(rect.border.left),
                y + side_size(rect.border.top),
                max2(inner_length(rect.width, rect.border.left, rect.border.right), 0),
                max2(inner_length(rect.height, rect.border.top, rect.border.bottom), 0),
                code,
                rect.border_radius,
                clip,
            ),
            StyleBackground::DataUrl(Some(image)) => self.with_image(
                rect,
                x,
                y,
                images[image as int],
                false,
                clip,
            ),
            _ => self,
        }
    }

    /// The surface with one box painted on it, whose corner is at `(x, y)`.
    pub open spec fn with_box(
        self,
        layout_box: LayoutBox,
        x: int,
        y: int,
        images: Seq<Pixmap>,
        surfaces: Seq<Vec<u32>>,
        clip: PaintClip,
    ) -> SurfaceModel {
        let rect = layout_box.rect;
        match layout_box.kind {
            LayoutKind::Element => self.with_background(rect, x, y, images, clip).with_borders(
                rect,
                x,
                y,
                clip,
            ),
            LayoutKind::Text { image } => {
                let behind = match rect.background {
                    StyleBackground::Hex(code) => self.with_rect(
                        x,
                        y,
                        rect.width as int,
                        rect.height as int,
                        code,
                        rect.border_radius,
                        clip,
                    ),
                    _ => self,
                };
                behind.with_image(rect, x, y, images[image as int], false, clip)
            },
            LayoutKind::PixMap { image, opaque } => self.with_image(
                rect,
                x,
                y,
                images[image as int],
                opaque,
                clip,
            ),
            LayoutKind::Canvas { bitmap } => match bitmap {
                Some(image) => self.with_image(rect, x, y, images[image as int], false, clip),
                None => self,
            },
            LayoutKind::Iframe { surface } => match surface {
                Some(surface) => self.with_surface(rect, x, y, surfaces[surface as int]@, clip),
                None => self,
            },
        }
    }

    /// The surface with the painted boxes of a walk on it, in order; nothing where a coordinate
    /// leaves the `i32` range.
    pub open spec fn with_nodes(
        self,
        boxes: Seq<LayoutBox>,
        nodes: Seq<RenderedNode>,
        images: Seq<Pixmap>,
        surfaces: Seq<Vec<u32>>,
    ) -> Option<SurfaceModel>
        decreases nodes.len(),
    {
        if nodes.len() == 0 {
            Some(self)
        } else {
            match self.with_nodes(boxes, nodes.drop_last(), images, surfaces) {
                None => None,
                Some(before) => {
                    let node = nodes.last();
                    let layout_box = boxes[node.layout_box_idx - 1];
                    let x = layout_box.rect.x + node.offset_x;
                    let y = layout_box.rect.y + node.offset_y;
                    if !node.painted {
                        Some(before)
                    } else if !is_box(boxes, node.layout_box_idx as int) || !box_in_range(
                        layout_box,
                        x,
                        y,
                    ) {
                        None
                    } else {
                        Some(before.with_box(layout_box, x, y, images, surfaces, node.clip))
                    }
                },
            }
        }
    }
}

/// The length of a side less the borders at its two ends.
pub open spec fn inner_length(
    length: u32,
    first: Option<RectBorderSide>,
    second: Option<RectBorderSide>,
) -> int {
    (length as i32) - side_size(first) - side_size(second)
}

/// Whether every coordinate that painting a box at `(x, y)` needs is an `i32`.
pub open spec fn box_in_range(layout_box: LayoutBox, x: int, y: int) -> bool {
    let rect = layout_box.rect;
    let width = rect.width as i32;
    let height = rect.height as i32;
    &&& in_i32(x)
    &&& in_i32(y)
    &&& layout_box.kind is Element ==> {
        &&& rect.background is Hex ==> {
            &&& in_i32(x + side_size(rect.border.left))
            &&& in_i32(y + side_size(rect.border.top))
            &&& in_i32(width - side_size(rect.border.left))
            &&& in_i32(height - side_size(rect.border.top))
            &&& in_i32(inner_length(rect.width, rect.border.left, rect.border.right))
            &&& in_i32(inner_length(rect.height, rect.border.top, rect.border.bottom))
        }
        &&& rect.border.right is Some ==> {
            &&& in_i32(x + width)
            &&& in_i32(x + width - side_size(rect.border.right))
        }
        &&& rect.border.bottom is Some ==> {
            &&& in_i32(y + height)
            &&& in_i32(y + height - side_size(rect.border.bottom))
        }
    }
}

fn is_box_in_range(layout_box: &LayoutBox, x: i64, y: i64) -> (r: bool)
    requires
        -0x2_0000_0000 <= x <= 0x2_0000_0000,
        -0x2_0000_0000 <= y <= 0x2_0000_0000,
    ensures
        r == box_in_range(*layout_box, x as int, y as int),
{
    let rect = &layout_box.rect;
    let width: i64 = (rect.width as i32) as i64;
    let height: i64 = (rect.height as i32) as i64;
    let left: i64 = border_size(&rect.border.left) as i64;
    let top: i64 = border_size(&rect.border.top) as i64;
    let right: i64 = border_size(&rect.border.right) as i64;
    let bottom: i64 = border_size(&rect.border.bottom) as i64;
    if !in_range(x) || !in_range(y) {
        return false;
    }
    if !matches!(layout_box.kind, LayoutKind::Element) {
        return true;
    }
    if matches!(rect.background, StyleBackground::Hex(_)) {
        if !in_range(x + left) || !in_range(y + top) || !in_range(width - left) || !in_range(
            height - top,
        ) || !in_range(width - left - right) || !in_range(height - top - bottom) {
            return false;
        }
    }
    if rect.border.right.is_some() {
        if !in_range(x + width) || !in_range(x + width - right) {
            return false;
        }
    }
    if rect.border.bottom.is_some() {
        if !in_range(y + height) || !in_range(y + height - bottom) {
            return false;
        }
    }
    true
}

proof fn lemma_area_fits(
    surface: SurfaceModel,
    x: i32,
    y: i32,
    w: u32,
    h: u32,
    clip: PaintClip,
)
    requires
        surface.fits(),
    ensures
        clipped_area(surface.width, surface.height, x, y, w, h, clip).fits(
            surface.width as int,
            surface.pixels.len() as int,
        ),
{
    let area = clipped_area(surface.width, surface.height, x, y, w, h, clip);
    if !area.is_empty() {
        assert((area.end_y - 1) * surface.width + area.end_x <= surface.width * surface.height)
            by (nonlinear_arith)
            requires
                area.end_y <= surface.height,
                area.end_x <= surface.width,
                0 <= surface.width,
        ;
    }
}

proof fn lemma_source_covers(
    surface: SurfaceModel,
    x: i32,
    y: i32,
    w: u32,
    h: u32,
    clip: PaintClip,
    len: int,
)
    requires
        len >= w * h,
    ensures
        source_fits(
            clipped_area(surface.width, surface.height, x, y, w, h, clip),
            x as int,
            y as int,
            w as int,
            len,
        ),
{
    let area = clipped_area(surface.width, surface.height, x, y, w, h, clip);
    if !area.is_empty() {
        assert((area.end_y - 1 - y) * w + area.end_x - x <= w * h) by (nonlinear_arith)
            requires
                area.end_y - y <= h,
                area.end_x - x <= w,
                0 <= w,
        ;
    }
}

pub open spec fn surface_of(buffer: Seq<u32>, width: u32, height: u32) -> SurfaceModel {
    SurfaceModel { pixels: buffer, width, height }
}

pub(crate) fn draw_side(
    buffer: &mut [u32],
    width: u32,
    height: u32,
    x: i32,
    y: i32,
    w: u32,
    h: u32,
    color: u32,
    radius: &BorderRadius,
    clip: PaintClip,
)
    requires
        surface_of(old(buffer)@, width, height).fits(),
    ensures
        surface_of(final(buffer)@, width, height) == surface_of(
            old(buffer)@,
            width,
            height,
        ).with_rect(x as int, y as int, w as int, h as int, color, *radius, clip),
        final(buffer)@.len() == old(buffer)@.len(),
{
    proof {
        lemma_area_fits(surface_of(buffer@, width, height), x, y, w, h, clip);
    }
    draw_rect_filled_clipped(buffer, false, width, height, x, y, w, h, color, radius, clip);
}

pub(crate) fn draw_image(
    buffer: &mut [u32],
    width: u32,
    height: u32,
    rect: &Rect,
    x: i32,
    y: i32,
    image: &Pixmap,
    opaque: bool,
    clip: PaintClip,
)
    requires
        surface_of(old(buffer)@, width, height).fits(),
        image.wf(),
    ensures
        surface_of(final(buffer)@, width, height) == surface_of(
            old(buffer)@,
            width,
            height,
        ).with_image(*rect, x as int, y as int, *image, opaque, clip),
        final(buffer)@.len() == old(buffer)@.len(),
{
    proof {
        lemma_area_fits(
            surface_of(buffer@, width, height),
            x,
            y,
            min2(rect.width as int, image.width as int) as u32,
            min2(rect.height as int, image.height as int) as u32,
            clip,
        );
    }
    apply_pixmap_on_buffer(
        rect.width,
        rect.height,
        buffer,
        width,
        height,
        x,
        y,
        image,
        opaque,
        clip,
    );
}

/// Paints the four sides of a box's border.
pub fn paint_borders(
    layout_box: &LayoutBox,
    buffer: &mut [u32],
    width: u32,
    height: u32,
    x: i32,
    y: i32,
    clip: PaintClip,
)
    requires
        surface_of(old(buffer)@, width, height).fits(),
        layout_box.kind is Element,
        box_in_range(*layout_box, x as int, y as int),
    ensures
        surface_of(final(buffer)@, width, height) == surface_of(
            old(buffer)@,
            width,
            height,
        ).with_borders(layout_box.rect, x as int, y as int, clip),
        final(buffer)@.len() == old(buffer)@.len(),
{
    let rect = &layout_box.rect;
    let square = BorderRadius::new_empty();
    if let Some(side) = &rect.border.left {
        draw_side(
            buffer,
            width,
            height,
            x,
            y,
            side.size,
            rect.height,
            side.color,
            &square,
            clip,
        );
    }
    if let Some(side) = &rect.border.top {
        draw_side(buffer, width, height, x, y, rect.width, side.size, side.color, &square, clip);
    }
    if let Some(side) = &rect.border.right {
        let edge: i32 = x + rect.width as i32 - side.size as i32;
        draw_side(
            buffer,
            width,
            height,
            edge,
            y,
            side.size,
            rect.height,
            side.color,
            &square,
            clip,
        );
    }
    if let Some(side) = &rect.border.bottom {
        let edge: i32 = y + rect.height as i32 - side.size as i32;
        draw_side(
            buffer,
            width,
            height,
            x,
            edge,
            rect.width,
            side.size,
            side.color,
            &square,
            clip,
        );
    }
}

/// Paints one box with its corner at `(x, y)`, without its children.
pub fn paint_box(
    layout_box: &LayoutBox,
    buffer: &mut [u32],
    width: u32,
    height: u32,
    x: i32,
    y: i32,
    images: &Vec<Pixmap>,
    surfaces: &Vec<Vec<u32>>,
    clip: PaintClip,
)
    requires
        surface_of(old(buffer)@, width, height).fits(),
        box_in_range(*layout_box, x as int, y as int),
        pictures_ready(*layout_box, images@, surfaces@),
        forall|i: int| 0 <= i < images@.len() ==> (#[trigger] images@[i]).wf(),
    ensures
        surface_of(final(buffer)@, width, height) == surface_of(
            old(buffer)@,
            width,
            height,
        ).with_box(*layout_box, x as int, y as int, images@, surfaces@, clip),
        final(buffer)@.len() == old(buffer)@.len(),
{
    let rect = &layout_box.rect;
    match &layout_box.kind {
        LayoutKind::Element => {
            match rect.background {
                StyleBackground::Hex(code) => {
                    let left: i32 = border_size(&rect.border.left);
                    let top: i32 = border_size(&rect.border.top);
                    let right: i32 = border_size(&rect.border.right);
                    let bottom: i32 = border_size(&rect.border.bottom);
                    let inner_width: u32 = (rect.width as i32 - left - right).max(0) as u32;
                    let inner_height: u32 = (rect.height as i32 - top - bottom).max(0) as u32;
                    draw_side(
                        buffer,
                        width,
                        height,
                        x + left,
                        y + top,
                        inner_width,
                        inner_height,
                        code,
                        &rect.border_radius,
                        clip,
                    );
                },
                StyleBackground::DataUrl(picture) => {
                    if let Some(image) = picture {
                        draw_image(
                            buffer,
                            width,
                            height,
                            rect,
                            x,
                            y,
                            &images[image],
                            false,
                            clip,
                        );
                    }
                },
                _ => {},
            }
            paint_borders(layout_box, buffer, width, height, x, y, clip);
        },
        LayoutKind::Text { image } => {
            if let StyleBackground::Hex(code) = rect.background {
                draw_side(
                    buffer,
                    width,
                    height,
                    x,
                    y,
                    rect.width,
                    rect.height,
                    code,
                    &rect.border_radius,
                    clip,
                );
            }
            draw_image(buffer, width, height, rect, x, y, &images[*image], false, clip);
        },
        LayoutKind::PixMap { image, opaque } => {
            draw_image(buffer, width, height, rect, x, y, &images[*image], *opaque, clip);
        },
        LayoutKind::Canvas { bitmap } => {
            if let Some(image) = bitmap {
                draw_image(buffer, width, height, rect, x, y, &images[*image], false, clip);
            }
        },
        LayoutKind::Iframe { surface } => {
            if let Some(surface) = surface {
                proof {
                    let target = surface_of(buffer@, width, height);
                    lemma_area_fits(target, x, y, rect.width, rect.height, clip);
                    lemma_source_covers(
                        target,
                        x,
                        y,
                        rect.width,
                        rect.height,
                        clip,
                        surfaces@[*surface as int]@.len() as int,
                    );
                }
                blit_rgb_buffer(
                    buffer,
                    width,
                    height,
                    surfaces[*surface].as_slice(),
                    rect.width,
                    rect.height,
                    x,
                    y,
                    clip,
                );
            }
        },
    }
}

proof fn lemma_nodes_prefix(
    surface: SurfaceModel,
    boxes: Seq<LayoutBox>,
    nodes: Seq<RenderedNode>,
    images: Seq<Pixmap>,
    surfaces: Seq<Vec<u32>>,
    count: int,
)
    requires
        0 <= count <= nodes.len(),
        surface.with_nodes(boxes, nodes.take(count), images, surfaces) is None,
    ensures
        surface.with_nodes(boxes, nodes, images, surfaces) is None,
    decreases nodes.len(),
{
    if count == nodes.len() {
        assert(nodes.take(count) =~= nodes);
    } else {
        assert(nodes.drop_last().take(count) =~= nodes.take(count));
        lemma_nodes_prefix(surface, boxes, nodes.drop_last(), images, surfaces, count);
    }
}

/// Paints the boxes of a walk, in order. The result is `false` where a coordinate leaves the
/// `i32` range; the boxes before it have then been painted.
pub fn paint_nodes(
    boxes: &Vec<LayoutBox>,
    nodes: &Vec<RenderedNode>,
    buffer: &mut [u32],
    width: u32,
    height: u32,
    images: &Vec<Pixmap>,
    surfaces: &Vec<Vec<u32>>,
) -> (ok: bool)
    requires
        surface_of(old(buffer)@, width, height).fits(),
        all_pictures_ready(boxes@, images@, surfaces@),
    ensures
        match surface_of(old(buffer)@, width, height).with_nodes(
            boxes@,
            nodes@,
            images@,
            surfaces@,
        ) {
            None => !ok,
            Some(surface) => ok && surface_of(final(buffer)@, width, height) == surface,
        },
        final(buffer)@.len() == old(buffer)@.len(),
{
    let ghost start = surface_of(buffer@, width, height);
    let mut at: usize = 0;
    while at < nodes.len()
        invariant
            at <= nodes@.len(),
            start == surface_of(old(buffer)@, width, height),
            start.fits(),
            buffer@.len() == old(buffer)@.len(),
            all_pictures_ready(boxes@, images@, surfaces@),
            start.with_nodes(boxes@, nodes@.take(at as int), images@, surfaces@) == Some(
                surface_of(buffer@, width, height),
            ),
        decreases nodes@.len() - at,
    {
        let ghost taken = nodes@.take(at + 1);
        proof {
            assert(taken.drop_last() =~= nodes@.take(at as int));
            assert(taken.last() == nodes@[at as int]);
            if start.with_nodes(boxes@, taken, images@, surfaces@) is None {
                lemma_nodes_prefix(start, boxes@, nodes@, images@, surfaces@, at + 1);
            }
        }
        let node = &nodes[at];
        if node.painted {
            let id: usize = node.layout_box_idx;
            if id == 0 || id > boxes.len() {
                return false;
            }
            let layout_box = &boxes[id - 1];
            let x: i64 = layout_box.rect.x as i64 + node.offset_x as i64;
            let y: i64 = layout_box.rect.y as i64 + node.offset_y as i64;
            if !is_box_in_range(layout_box, x, y) {
                return false;
            }
            paint_box(
                layout_box,
                buffer,
                width,
                height,
                x as i32,
                y as i32,
                images,
                surfaces,
                node.clip,
            );
        }
        at = at + 1;
    }
    assert(nodes@.take(nodes@.len() as int) =~= nodes@);
    true
}

/// How painting a window went.
pub enum RenderOutcome {
    /// The window has no pixels; nothing was touched.
    Skipped,
    /// The boxes that were come by, in painting order.
    Rendered(Vec<RenderedNode>),
    /// A coordinate left the `i32` range.
    OutOfRange,
}

pub open spec fn whole_window(width: u32, height: u32) -> PaintClip {
    PaintClip {
        start_x: 0,
        start_y: 0,
        end_x: min2(width as int, i32::MAX as int) as i32,
        end_y: min2(height as int, i32::MAX as int) as i32,
    }
}

/// Clears a window and paints a layout on it.
pub fn render_into(
    buffer: &mut [u32],
    width: u32,
    height: u32,
    boxes: &Vec<LayoutBox>,
    facts: &Vec<BoxFacts>,
    roots: &Vec<usize>,
    images: &Vec<Pixmap>,
    surfaces: &Vec<Vec<u32>>,
) -> (r: RenderOutcome)
    requires
        surface_of(old(buffer)@, width, height).fits(),
        facts@.len() == boxes@.len(),
        boxes@.len() < usize::MAX,
        all_pictures_ready(boxes@, images@, surfaces@),
    ensures
        r is Skipped <==> width == 0 || height == 0,
        r is Skipped ==> final(buffer)@ == old(buffer)@,
        width > 0 && height > 0 ==> {
            let cleared = surface_of(
                Seq::new(old(buffer)@.len(), |i: int| CLEAR_COLOR),
                width,
                height,
            );
            let walked = walk_roots(boxes@, facts@, height, roots@, whole_window(width, height));
            match walked {
                None => r is OutOfRange,
                Some(nodes) => match cleared.with_nodes(boxes@, nodes, images@, surfaces@) {
                    None => r is OutOfRange,
                    Some(surface) => (r matches RenderOutcome::Rendered(list) && list@ == nodes)
                        && final(buffer)@ == surface.pixels,
                },
            }
        },
        final(buffer)@.len() == old(buffer)@.len(),
{
    if width == 0 || height == 0 {
        return RenderOutcome::Skipped;
    }
    crate::raster::clear_buffer(buffer, CLEAR_COLOR);
    let clip = PaintClip::viewport(width, height);
    let nodes = match paint_order(boxes, facts, height, roots, clip) {
        None => {
            return RenderOutcome::OutOfRange;
        },
        Some(nodes) => nodes,
    };
    if paint_nodes(boxes, &nodes, buffer, width, height, images, surfaces) {
        RenderOutcome::Rendered(nodes)
    } else {
        RenderOutcome::OutOfRange
    }
}

} // verus!
