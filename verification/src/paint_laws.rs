//! What painting promises: which box lies on top of which, which pixels a box touches, and what a
//! clip and scrolling do to the boxes below.
use vstd::prelude::*;

use crate::blit::composed;
use crate::blit::Pixmap;
use crate::boxes::in_i32;
use crate::boxes::is_box;
use crate::boxes::LayoutBox;
use crate::boxes::Rect;
use crate::boxes::StyleBackground;
use crate::order::lemma_stable_positions;
use crate::order::precedes;
use crate::order::slot;
use crate::order::stable_positions;
use crate::paint::by_z_index;
use crate::paint::child_clip;
use crate::paint::side_size;
use crate::paint::stacks;
use crate::paint::walk_box;
use crate::paint::walk_children;
use crate::paint::walk_roots;
use crate::paint::walk_waiting;
use crate::paint::z_keys;
use crate::paint::BoxFacts;
use crate::paint::DeferredPaint;
use crate::paint::PaintStyle;
use crate::paint::RenderedNode;
use crate::paint::SurfaceModel;
use crate::paint::Walk;
use crate::pixel::channel_at;
use crate::pixel::over_channel;
use crate::pixel::over_rgb;
use crate::pixel::pack_rgb;
use crate::pixel::premultiplied;
use crate::raster::clipped_area;
use crate::raster::effective_radius;
use crate::raster::inside_corners;
use crate::raster::painted;
use crate::raster::Area;
use crate::raster::BorderRadius;
use crate::raster::PaintClip;

verus! {

/// Whether boxes stand by ascending `z-index`, and `places` says where each stood before: those with
/// the same `z-index` are in the order that they had.
pub open spec fn in_z_order(
    boxes: Seq<LayoutBox>,
    before: Seq<DeferredPaint>,
    after: Seq<DeferredPaint>,
    places: Seq<int>,
) -> bool {
    &&& places.len() == after.len() && after.len() == before.len()
    &&& forall|i: int|
        0 <= i < places.len() ==> 0 <= (#[trigger] places[i]) < before.len() && after[i]
            == before[places[i]]
    &&& forall|p: int| 0 <= p < before.len() ==> #[trigger] places.contains(p)
    &&& forall|i: int, j: int|
        0 <= i < j < after.len() ==> {
            let a = boxes[(#[trigger] after[i]).0 - 1].z_index;
            let b = boxes[(#[trigger] after[j]).0 - 1].z_index;
            a < b || (a == b && places[i] < places[j])
        }
}

/// Boxes that wait for a stacking context are painted by ascending `z-index`, so that the larger one
/// lies on top. Those with the same keep their order, and none is lost.
pub proof fn lemma_larger_z_index_is_painted_later(
    boxes: Seq<LayoutBox>,
    items: Seq<DeferredPaint>,
)
    requires
        items.len() <= usize::MAX,
    ensures
        by_z_index(boxes, items).len() == items.len(),
        exists|places: Seq<int>| #[trigger]
            in_z_order(boxes, items, by_z_index(boxes, items), places),
{
    let keys = z_keys(boxes, items);
    lemma_stable_positions(keys);
    let sorted = stable_positions(keys);
    let after = by_z_index(boxes, items);
    let places = Seq::new(sorted.len(), |i: int| sorted[i] as int);
    assert forall|p: int| 0 <= p < items.len() implies #[trigger] places.contains(p) by {
        assert(sorted.contains(p as usize));
        let i = choose|i: int| 0 <= i < sorted.len() && sorted[i] == p as usize;
        assert(places[i] == p);
    }
    assert forall|i: int, j: int| 0 <= i < j < after.len() implies ({
        let a = boxes[(#[trigger] after[i]).0 - 1].z_index;
        let b = boxes[(#[trigger] after[j]).0 - 1].z_index;
        a < b || (a == b && places[i] < places[j])
    }) by {
        assert(precedes(keys, sorted[i], sorted[j]));
        assert(keys[sorted[i] as int] == boxes[after[i].0 - 1].z_index);
        assert(keys[sorted[j] as int] == boxes[after[j].0 - 1].z_index);
    }
    assert(in_z_order(boxes, items, after, places));
}

/// Whether nodes are those that a walk over roots comes by, with those that it leaves waiting behind
/// them, by ascending `z-index`.
pub open spec fn waiting_come_last(
    boxes: Seq<LayoutBox>,
    facts: Seq<BoxFacts>,
    height: u32,
    nodes: Seq<RenderedNode>,
    walk: Walk,
    sorted: Seq<DeferredPaint>,
    places: Seq<int>,
) -> bool {
    &&& in_z_order(boxes, walk.deferred, sorted, places)
    &&& walk_waiting(boxes, facts, height, (boxes.len() + 1) as int, sorted) matches Some(waiting)
        && nodes == walk.rendered + waiting.rendered
}

/// The boxes that wait for the window are painted behind every box that does not, by ascending
/// `z-index`.
pub proof fn lemma_waiting_boxes_come_last(
    boxes: Seq<LayoutBox>,
    facts: Seq<BoxFacts>,
    height: u32,
    roots: Seq<usize>,
    clip: PaintClip,
)
    requires
        walk_children(boxes, facts, height, (boxes.len() + 1) as int, roots, 0, 0, clip) matches Some(
            walk,
        ) ==> walk.deferred.len() <= usize::MAX,
    ensures
        match (
            walk_roots(boxes, facts, height, roots, clip),
            walk_children(boxes, facts, height, (boxes.len() + 1) as int, roots, 0, 0, clip),
        ) {
            (Some(nodes), Some(walk)) => exists|sorted: Seq<DeferredPaint>, places: Seq<int>|
                #[trigger]
                waiting_come_last(boxes, facts, height, nodes, walk, sorted, places),
            (Some(_), None) => false,
            _ => true,
        },
{
    let id = (boxes.len() + 1) as int;
    if let Some(nodes) = walk_roots(boxes, facts, height, roots, clip) {
        let walk = walk_children(boxes, facts, height, id, roots, 0, 0, clip)->0;
        let sorted = by_z_index(boxes, walk.deferred);
        lemma_larger_z_index_is_painted_later(boxes, walk.deferred);
        let places = choose|places: Seq<int>| #[trigger]
            in_z_order(boxes, walk.deferred, sorted, places);
        assert(waiting_come_last(boxes, facts, height, nodes, walk, sorted, places));
    }
}

/// Waiting boxes are painted one after the other: what comes behind is painted later.
pub proof fn lemma_waiting_boxes_are_painted_in_turn(
    boxes: Seq<LayoutBox>,
    facts: Seq<BoxFacts>,
    height: u32,
    id: int,
    first: Seq<DeferredPaint>,
    second: Seq<DeferredPaint>,
)
    ensures
        match (
            walk_waiting(boxes, facts, height, id, first + second),
            walk_waiting(boxes, facts, height, id, first),
            walk_waiting(boxes, facts, height, id, second),
        ) {
            (Some(all), Some(before), Some(after)) => all.rendered == before.rendered
                + after.rendered,
            (Some(_), _, _) => false,
            (None, Some(_), Some(_)) => false,
            _ => true,
        },
    decreases second.len(),
{
    if second.len() == 0 {
        assert(first + second =~= first);
        assert(walk_waiting(boxes, facts, height, id, second) is Some);
        if let Some(before) = walk_waiting(boxes, facts, height, id, first) {
            assert(before.rendered + Seq::<RenderedNode>::empty() =~= before.rendered);
        }
    } else {
        assert((first + second).drop_last() =~= first + second.drop_last());
        lemma_waiting_boxes_are_painted_in_turn(
            boxes,
            facts,
            height,
            id,
            first,
            second.drop_last(),
        );
        if let (Some(all), Some(before), Some(after)) = (
            walk_waiting(boxes, facts, height, id, first + second),
            walk_waiting(boxes, facts, height, id, first),
            walk_waiting(boxes, facts, height, id, second),
        ) {
            assert(all.rendered =~= before.rendered + after.rendered);
        }
    }
}

/// Children are painted one after the other: a later child lies on top of an earlier one.
pub proof fn lemma_children_are_painted_in_turn(
    boxes: Seq<LayoutBox>,
    facts: Seq<BoxFacts>,
    height: u32,
    id: int,
    first: Seq<usize>,
    second: Seq<usize>,
    px: int,
    py: int,
    clip: PaintClip,
)
    ensures
        match (
            walk_children(boxes, facts, height, id, first + second, px, py, clip),
            walk_children(boxes, facts, height, id, first, px, py, clip),
            walk_children(boxes, facts, height, id, second, px, py, clip),
        ) {
            (Some(all), Some(before), Some(after)) => all.rendered == before.rendered
                + after.rendered && all.deferred == before.deferred + after.deferred,
            (Some(_), _, _) => false,
            (None, Some(_), Some(_)) => false,
            _ => true,
        },
    decreases second.len(),
{
    if second.len() == 0 {
        assert(first + second =~= first);
        assert(walk_children(boxes, facts, height, id, second, px, py, clip) is Some);
        if let Some(before) = walk_children(boxes, facts, height, id, first, px, py, clip) {
            assert(before.rendered + Seq::<RenderedNode>::empty() =~= before.rendered);
            assert(before.deferred + Seq::<DeferredPaint>::empty() =~= before.deferred);
        }
    } else {
        assert((first + second).drop_last() =~= first + second.drop_last());
        lemma_children_are_painted_in_turn(
            boxes,
            facts,
            height,
            id,
            first,
            second.drop_last(),
            px,
            py,
            clip,
        );
        if let (Some(all), Some(before), Some(after)) = (
            walk_children(boxes, facts, height, id, first + second, px, py, clip),
            walk_children(boxes, facts, height, id, first, px, py, clip),
            walk_children(boxes, facts, height, id, second, px, py, clip),
        ) {
            assert(all.rendered =~= before.rendered + after.rendered);
            assert(all.deferred =~= before.deferred + after.deferred);
        }
    }
}

/// A box comes before all that is below it. It waits exactly where it has a positive `z-index` and
/// stacks; one that does not wait stands where its parent does, moved by its transform. It is painted
/// unless it is transparent, hidden or above or below the window, and then nothing below it is come by.
pub proof fn lemma_box_comes_before_its_children(
    boxes: Seq<LayoutBox>,
    facts: Seq<BoxFacts>,
    height: u32,
    id: int,
    px: int,
    py: int,
    clip: PaintClip,
    defer: bool,
)
    requires
        in_i32(px),
        in_i32(py),
        0 < id <= usize::MAX,
    ensures
        walk_box(boxes, facts, height, id, px, py, clip, defer) matches Some(walk) ==> {
            let own = boxes[id - 1];
            let fact = facts[id - 1];
            let waits = defer && own.z_index > 0 && (fact.style matches Some(style) && stacks(
                style,
            ));
            let (shift_x, shift_y) = match fact.style {
                Some(style) => (style.transform_x as int, style.transform_y as int),
                None => (0, 0),
            };
            let hidden = fact.style matches Some(style) && (style.transparent || !style.visible);
            let top = own.rect.y + py + shift_y;
            let outside = top > (height as i32) || top + (own.content_height as i32) < 0;
            if clip.start_x >= clip.end_x || clip.start_y >= clip.end_y {
                walk.rendered.len() == 0 && walk.deferred.len() == 0
            } else if waits {
                &&& walk.rendered.len() == 0
                &&& walk.deferred =~= seq![(id as usize, px as i32, py as i32, clip)]
            } else {
                &&& walk.rendered.len() > 0
                &&& walk.rendered[0].layout_box_idx == id
                &&& walk.rendered[0].offset_x == px + shift_x
                &&& walk.rendered[0].offset_y == py + shift_y
                &&& walk.rendered[0].clip == clip
                &&& walk.rendered[0].painted == (!hidden && !outside)
                &&& !walk.rendered[0].painted ==> walk.rendered.len() == 1 && walk.deferred.len()
                    == 0
                &&& (fact.style matches Some(style) && stacks(style)) ==> walk.deferred.len() == 0
            }
        },
{
}

/// The first child of a box that is painted stands where the box does, moved by how far the box is
/// scrolled and by its own transform.
pub proof fn lemma_children_scroll_with_their_box(
    boxes: Seq<LayoutBox>,
    facts: Seq<BoxFacts>,
    height: u32,
    id: int,
    px: int,
    py: int,
    clip: PaintClip,
    defer: bool,
)
    requires
        in_i32(px),
        in_i32(py),
        0 < id <= usize::MAX,
        is_box(boxes, id),
        boxes[id - 1].children@.len() == 1,
        ({
            let child = boxes[id - 1].children@[0] as int;
            is_box(boxes, child) && boxes[child - 1].z_index <= 0
        }),
    ensures
        walk_box(boxes, facts, height, id, px, py, clip, defer) matches Some(walk) ==> {
            let child = boxes[id - 1].children@[0] as int;
            let (shift_x, shift_y) = match facts[child - 1].style {
                Some(style) => (style.transform_x as int, style.transform_y as int),
                None => (0, 0),
            };
            walk.rendered.len() > 1 ==> {
                &&& walk.rendered[1].layout_box_idx == child
                &&& walk.rendered[1].offset_x == walk.rendered[0].offset_x + shift_x
                &&& walk.rendered[1].offset_y == walk.rendered[0].offset_y + facts[id - 1].scroll_y
                    + shift_y
            }
        },
{
    if let Some(walk) = walk_box(boxes, facts, height, id, px, py, clip, defer) {
        let fact = facts[id - 1];
        let child = boxes[id - 1].children@[0] as int;
        let children = boxes[id - 1].children@;
        if walk.rendered.len() > 1 {
            let ox = px + fact.shift_x();
            let oy = py + fact.shift_y();
            let x = boxes[id - 1].rect.x + ox;
            let y = boxes[id - 1].rect.y + oy;
            let inner = child_clip(boxes[id - 1].rect, fact.style, x, y, clip)->0;
            let below = walk_children(
                boxes,
                facts,
                height,
                id,
                children,
                ox,
                oy + fact.scroll_y,
                inner,
            )->0;
            assert(children.drop_last() =~= Seq::empty());
            assert(walk_children(
                boxes,
                facts,
                height,
                id,
                children.drop_last(),
                ox,
                oy + fact.scroll_y,
                inner,
            ) == Some(crate::paint::nothing_walked()));
            let own = walk_box(
                boxes,
                facts,
                height,
                child,
                ox,
                oy + fact.scroll_y,
                inner,
                true,
            )->0;
            assert(below.rendered =~= own.rendered);
            assert(below.deferred =~= own.deferred);
            lemma_box_comes_before_its_children(
                boxes,
                facts,
                height,
                child,
                ox,
                oy + fact.scroll_y,
                inner,
                true,
            );
            if inner.lets_nothing() {
                assert(below.deferred.len() == 0);
                assert(by_z_index(boxes, below.deferred).len() == 0) by {
                    lemma_larger_z_index_is_painted_later(boxes, below.deferred);
                }
                assert(walk.rendered.len() == 1);
            } else {
                assert(own.rendered.len() > 0);
                assert(walk.rendered[1] == own.rendered[0]);
            }
        }
    }
}

/// What is below a box that clips is let through only inside its borders; a box that does not clip an
/// axis lets everything through there that was let through before.
pub proof fn lemma_children_are_clipped(
    rect: Rect,
    style: PaintStyle,
    x: int,
    y: int,
    clip: PaintClip,
    px: int,
    py: int,
)
    requires
        in_i32(x + rect.width),
        in_i32(y + rect.height),
        0 <= side_size(rect.border.right) <= rect.width,
        0 <= side_size(rect.border.bottom) <= rect.height,
        in_i32(x),
        in_i32(y),
    ensures
        child_clip(rect, Some(style), x, y, clip) matches Some(inner) ==> {
            let inside_x = x + side_size(rect.border.left) <= px < x + rect.width - side_size(
                rect.border.right,
            );
            let inside_y = y + side_size(rect.border.top) <= py < y + rect.height - side_size(
                rect.border.bottom,
            );
            inner.allows(px, py) <==> {
                &&& clip.start_x <= px < clip.end_x
                &&& clip.start_y <= py < clip.end_y
                &&& style.clips_x ==> inside_x
                &&& style.clips_y ==> inside_y
            }
        },
        child_clip(rect, None, x, y, clip) == Some(clip),
        forall|side: crate::boxes::RectBorderSide|
            side.size <= i32::MAX ==> #[trigger] side_size(Some(side)) == side.size,
        side_size(None) == 0,
{
}

/// Whether a clip lets nothing through that another does not.
pub open spec fn within(inner: PaintClip, outer: PaintClip) -> bool {
    forall|px: int, py: int| #[trigger] inner.allows(px, py) ==> outer.allows(px, py)
}

/// Whether nothing that a walk comes by or leaves waiting reaches beyond a clip.
pub open spec fn walk_within(walk: Walk, clip: PaintClip) -> bool {
    &&& forall|i: int| 0 <= i < walk.rendered.len() ==> within((#[trigger] walk.rendered[i]).clip, clip)
    &&& forall|i: int| 0 <= i < walk.deferred.len() ==> within((#[trigger] walk.deferred[i]).3, clip)
}

proof fn lemma_clip_of_children_is_within(
    rect: Rect,
    style: Option<PaintStyle>,
    x: int,
    y: int,
    clip: PaintClip,
)
    ensures
        child_clip(rect, style, x, y, clip) matches Some(inner) ==> within(inner, clip),
{
}

/// Nothing below a box is painted beyond the clip that the box is painted with.
pub proof fn lemma_walk_stays_within_its_clip(
    boxes: Seq<LayoutBox>,
    facts: Seq<BoxFacts>,
    height: u32,
    id: int,
    px: int,
    py: int,
    clip: PaintClip,
    defer: bool,
)
    requires
        boxes.len() <= usize::MAX,
    ensures
        walk_box(boxes, facts, height, id, px, py, clip, defer) matches Some(walk) ==> walk_within(
            walk,
            clip,
        ),
    decreases id, 1int, 0nat,
{
    if let Some(walk) = walk_box(boxes, facts, height, id, px, py, clip, defer) {
        if !clip.lets_nothing() && !(defer && boxes[id - 1].z_index > 0
            && facts[id - 1].stacks_here()) {
            let fact = facts[id - 1];
            let ox = px + fact.shift_x();
            let oy = py + fact.shift_y();
            let x = boxes[id - 1].rect.x + ox;
            let y = boxes[id - 1].rect.y + oy;
            let children = boxes[id - 1].children@;
            lemma_clip_of_children_is_within(boxes[id - 1].rect, fact.style, x, y, clip);
            if let Some(inner) = child_clip(boxes[id - 1].rect, fact.style, x, y, clip) {
                lemma_children_stay_within(
                    boxes,
                    facts,
                    height,
                    id,
                    children,
                    ox,
                    oy + fact.scroll_y,
                    inner,
                );
                if let Some(below) = walk_children(
                    boxes,
                    facts,
                    height,
                    id,
                    children,
                    ox,
                    oy + fact.scroll_y,
                    inner,
                ) {
                    assert(walk_within(below, clip));
                    let sorted = by_z_index(boxes, below.deferred);
                    assert forall|i: int| 0 <= i < sorted.len() implies within(
                        (#[trigger] sorted[i]).3,
                        clip,
                    ) by {
                        lemma_sorted_are_listed(boxes, below.deferred, i);
                        let k = choose|k: int|
                            0 <= k < below.deferred.len() && below.deferred[k] == sorted[i];
                        assert(within(below.deferred[k].3, clip));
                    }
                    lemma_waiting_stay_within(boxes, facts, height, id, sorted, clip);
                    if fact.stacks_here() {
                        if let Some(waiting) = walk_waiting(boxes, facts, height, id, sorted) {
                            assert forall|i: int|
                                0 <= i < walk.rendered.len() && walk.rendered.len() > 1 implies within(
                                (#[trigger] walk.rendered[i]).clip,
                                clip,
                            ) by {
                                let first = below.rendered.len() as int;
                                if 0 < i <= first {
                                    assert(walk.rendered[i] == below.rendered[i - 1]);
                                } else if i > first {
                                    assert(walk.rendered[i] == waiting.rendered[i - 1 - first]);
                                }
                            }
                        }
                    } else {
                        assert forall|i: int|
                            0 <= i < walk.rendered.len() && walk.rendered.len() > 1 implies within(
                            (#[trigger] walk.rendered[i]).clip,
                            clip,
                        ) by {
                            if i > 0 {
                                assert(walk.rendered[i] == below.rendered[i - 1]);
                            }
                        }
                    }
                }
            }
        }
    }
}

proof fn lemma_sorted_are_listed(boxes: Seq<LayoutBox>, items: Seq<DeferredPaint>, i: int)
    requires
        0 <= i < by_z_index(boxes, items).len(),
    ensures
        exists|k: int| 0 <= k < items.len() && items[k] == by_z_index(boxes, items)[i],
{
    let keys = z_keys(boxes, items);
    lemma_positions_are_places(keys);
    let k = stable_positions(keys)[i] as int;
    assert(items[k] == by_z_index(boxes, items)[i]);
}

proof fn lemma_positions_are_places(keys: Seq<i128>)
    ensures
        forall|i: int|
            0 <= i < stable_positions(keys).len() ==> 0 <= (#[trigger] stable_positions(keys)[i])
                < keys.len(),
    decreases keys.len(),
{
    if keys.len() > 0 {
        let less = keys.drop_last();
        lemma_positions_are_places(less);
        let before = stable_positions(less);
        let after = stable_positions(keys);
        let last = (keys.len() - 1) as usize;
        assert(last < keys.len());
        lemma_slot_is_in_range(before, keys, keys.last());
        assert forall|i: int| 0 <= i < after.len() implies 0 <= (#[trigger] after[i])
            < keys.len() by {
            let at = slot(before, keys, keys.last()) as int;
            if i < at {
                assert(after[i] == before[i]);
            } else if i > at {
                assert(after[i] == before[i - 1]);
            }
        }
    }
}

proof fn lemma_slot_is_in_range(order: Seq<usize>, keys: Seq<i128>, key: i128)
    ensures
        slot(order, keys, key) <= order.len(),
    decreases order.len(),
{
    if order.len() > 0 {
        lemma_slot_is_in_range(order.drop_last(), keys, key);
    }
}

proof fn lemma_children_stay_within(
    boxes: Seq<LayoutBox>,
    facts: Seq<BoxFacts>,
    height: u32,
    id: int,
    children: Seq<usize>,
    px: int,
    py: int,
    clip: PaintClip,
)
    requires
        boxes.len() <= usize::MAX,
    ensures
        walk_children(boxes, facts, height, id, children, px, py, clip) matches Some(walk)
            ==> walk_within(walk, clip),
    decreases id, 0int, children.len(),
{
    if children.len() > 0 {
        lemma_children_stay_within(boxes, facts, height, id, children.drop_last(), px, py, clip);
        if children.last() < id {
            lemma_walk_stays_within_its_clip(
                boxes,
                facts,
                height,
                children.last() as int,
                px,
                py,
                clip,
                true,
            );
        }
    }
}

proof fn lemma_waiting_stay_within(
    boxes: Seq<LayoutBox>,
    facts: Seq<BoxFacts>,
    height: u32,
    id: int,
    items: Seq<DeferredPaint>,
    clip: PaintClip,
)
    requires
        boxes.len() <= usize::MAX,
        forall|i: int| 0 <= i < items.len() ==> within((#[trigger] items[i]).3, clip),
    ensures
        walk_waiting(boxes, facts, height, id, items) matches Some(walk) ==> walk_within(walk, clip),
    decreases id, 0int, items.len(),
{
    if items.len() > 0 {
        let less = items.drop_last();
        assert forall|i: int| 0 <= i < less.len() implies within((#[trigger] less[i]).3, clip) by {
            assert(less[i] == items[i]);
        }
        lemma_waiting_stay_within(boxes, facts, height, id, less, clip);
        let last = items.last();
        assert(last == items[items.len() - 1]);
        if last.0 < id {
            lemma_walk_stays_within_its_clip(
                boxes,
                facts,
                height,
                last.0 as int,
                last.1 as int,
                last.2 as int,
                last.3,
                false,
            );
        }
    }
}

/// The pixel of a surface in a column and a row.
pub open spec fn pixel_of(surface: SurfaceModel, px: int, py: int) -> u32 {
    surface.pixels[py * surface.width + px]
}

/// Whether a pixel is on a surface.
pub open spec fn on_surface(surface: SurfaceModel, px: int, py: int) -> bool {
    &&& 0 <= px < surface.width
    &&& 0 <= py < surface.height
    &&& surface.pixels.len() >= surface.width * surface.height
}

proof fn lemma_painted_pixel(
    surface: SurfaceModel,
    area: Area,
    paint: spec_fn(int, int, u32) -> u32,
    px: int,
    py: int,
)
    requires
        on_surface(surface, px, py),
    ensures
        painted(surface.pixels, surface.width as int, area, paint)[py * surface.width + px] == (
        if area.start_x <= px < area.end_x && area.start_y <= py < area.end_y {
            paint(px, py, pixel_of(surface, px, py))
        } else {
            pixel_of(surface, px, py)
        }),
        painted(surface.pixels, surface.width as int, area, paint).len() == surface.pixels.len(),
{
    let width = surface.width as int;
    let i = py * width + px;
    assert(0 <= py * width) by (nonlinear_arith)
        requires
            0 <= py,
            0 <= width,
    ;
    assert(py * width + width <= width * surface.height) by (nonlinear_arith)
        requires
            py + 1 <= surface.height,
            0 <= width,
    ;
    vstd::arithmetic::div_mod::lemma_fundamental_div_mod_converse(i, width, py, px);
}

/// A filled rectangle changes only pixels of its own that the clip lets through. One that is opaque
/// and has no round corners gives all of them its colour, whatever was there; one that is transparent
/// changes nothing.
pub proof fn lemma_filled_rectangle(
    surface: SurfaceModel,
    x: i32,
    y: i32,
    w: u32,
    h: u32,
    color: u32,
    corners: BorderRadius,
    clip: PaintClip,
    px: int,
    py: int,
)
    requires
        on_surface(surface, px, py),
    ensures
        ({
            let after = surface.with_rect(
                x as int,
                y as int,
                w as int,
                h as int,
                color,
                corners,
                clip,
            );
            let inside = x <= px < x + w && y <= py < y + h && clip.start_x <= px < clip.end_x
                && clip.start_y <= py < clip.end_y;
            &&& on_surface(after, px, py)
            &&& after.width == surface.width && after.height == surface.height
            &&& !inside ==> pixel_of(after, px, py) == pixel_of(surface, px, py)
            &&& color & 0xFF == 0 ==> pixel_of(after, px, py) == pixel_of(surface, px, py)
            &&& inside && corners.top_left == 0 && corners.top_right == 0 && corners.bottom_left == 0
                && corners.bottom_right == 0 && color & 0xFF == 255 ==> pixel_of(after, px, py)
                == color >> 8
        }),
{
    let area = clipped_area(surface.width, surface.height, x, y, w, h, clip);
    let paint = crate::raster::rect_paint(false, x, y, w, h, color, corners);
    lemma_painted_pixel(surface, area, paint, px, py);
    lemma_opaque_colour(color);
}

/// The colour of an opaque pixel is the pixel without its alpha.
proof fn lemma_opaque_colour(color: u32)
    ensures
        premultiplied(color).3 == color & 0xFF,
        color & 0xFF == 255 ==> pack_rgb(
            premultiplied(color).0 as u32,
            premultiplied(color).1 as u32,
            premultiplied(color).2 as u32,
        ) == color >> 8,
{
    let alpha = channel_at(color, 0);
    assert(alpha == color & 0xFF && alpha <= 255) by (bit_vector)
        requires
            alpha == (color >> 0u32) & 0xFF,
    ;
    if alpha == 255 {
        let red = channel_at(color, 24);
        let green = channel_at(color, 16);
        let blue = channel_at(color, 8);
        assert(red <= 255 && green <= 255 && blue <= 255 && (red << 16) | (green << 8) | blue
            == color >> 8) by (bit_vector)
            requires
                red == (color >> 24) & 0xFF,
                green == (color >> 16) & 0xFF,
                blue == (color >> 8) & 0xFF,
        ;
        assert((red * 255) / 255 == red);
        assert((green * 255) / 255 == green);
        assert((blue * 255) / 255 == blue);
    }
}

/// An element without borders shows its background colour everywhere that its box covers and the clip
/// lets through, and nothing of it anywhere else. So of two boxes that overlap the one that is painted
/// later is seen.
pub proof fn lemma_background_covers_its_box(
    surface: SurfaceModel,
    layout_box: LayoutBox,
    x: i32,
    y: i32,
    images: Seq<Pixmap>,
    surfaces: Seq<Vec<u32>>,
    clip: PaintClip,
    px: int,
    py: int,
)
    requires
        on_surface(surface, px, py),
        layout_box.kind is Element,
        layout_box.rect.border.left is None,
        layout_box.rect.border.top is None,
        layout_box.rect.border.right is None,
        layout_box.rect.border.bottom is None,
        layout_box.rect.border_radius.top_left == 0,
        layout_box.rect.border_radius.top_right == 0,
        layout_box.rect.border_radius.bottom_left == 0,
        layout_box.rect.border_radius.bottom_right == 0,
        layout_box.rect.width <= i32::MAX,
        layout_box.rect.height <= i32::MAX,
    ensures
        ({
            let rect = layout_box.rect;
            let after = surface.with_box(
                layout_box,
                x as int,
                y as int,
                images,
                surfaces,
                clip,
            );
            let inside = x <= px < x + rect.width && y <= py < y + rect.height && clip.start_x <= px
                < clip.end_x && clip.start_y <= py < clip.end_y;
            &&& rect.background matches StyleBackground::Hex(color) ==> {
                &&& inside && color & 0xFF == 255 ==> pixel_of(after, px, py) == color >> 8
                &&& !inside ==> pixel_of(after, px, py) == pixel_of(surface, px, py)
            }
            &&& rect.background is Transparent || rect.background is CurrentColor ==> after
                == surface
        }),
{
    let rect = layout_box.rect;
    if let StyleBackground::Hex(color) = rect.background {
        lemma_filled_rectangle(
            surface,
            x,
            y,
            rect.width,
            rect.height,
            color,
            rect.border_radius,
            clip,
            px,
            py,
        );
    }
}

/// The four sides of a border lie along the four edges of the box: a pixel next to one edge only, with
/// nothing else over it, has the colour of that side, and one inside all of them is not touched.
pub proof fn lemma_borders_lie_along_the_edges(
    surface: SurfaceModel,
    rect: Rect,
    x: i32,
    y: i32,
    clip: PaintClip,
    px: int,
    py: int,
)
    requires
        on_surface(surface, px, py),
        rect.width <= i32::MAX,
        rect.height <= i32::MAX,
        in_i32(x + rect.width),
        in_i32(y + rect.height),
        rect.border.left matches Some(side) ==> side.size <= rect.width,
        rect.border.right matches Some(side) ==> side.size <= rect.width,
        rect.border.top matches Some(side) ==> side.size <= rect.height,
        rect.border.bottom matches Some(side) ==> side.size <= rect.height,
        clip.allows(px, py),
        x <= px < x + rect.width,
        y <= py < y + rect.height,
    ensures
        ({
            let after = surface.with_borders(rect, x as int, y as int, clip);
            let left = rect.border.left matches Some(side) && px < x + side.size;
            let right = rect.border.right matches Some(side) && px >= x + rect.width - side.size;
            let top = rect.border.top matches Some(side) && py < y + side.size;
            let bottom = rect.border.bottom matches Some(side) && py >= y + rect.height - side.size;
            let seen = pixel_of(after, px, py);
            &&& !left && !right && !top && !bottom ==> seen == pixel_of(surface, px, py)
            &&& left && !right && !top && !bottom && rect.border.left->0.color & 0xFF == 255
                ==> seen == rect.border.left->0.color >> 8
            &&& right && !left && !top && !bottom && rect.border.right->0.color & 0xFF == 255
                ==> seen == rect.border.right->0.color >> 8
            &&& top && !right && !left && !bottom && rect.border.top->0.color & 0xFF == 255 ==> seen
                == rect.border.top->0.color >> 8
            &&& bottom && !right && !top && !left && rect.border.bottom->0.color & 0xFF == 255
                ==> seen == rect.border.bottom->0.color >> 8
        }),
{
    let square = BorderRadius { top_left: 0, top_right: 0, bottom_right: 0, bottom_left: 0 };
    let first = match rect.border.left {
        Some(side) => {
            lemma_filled_rectangle(
                surface,
                x,
                y,
                side.size,
                rect.height,
                side.color,
                square,
                clip,
                px,
                py,
            );
            surface.with_rect(
                x as int,
                y as int,
                side.size as int,
                rect.height as int,
                side.color,
                square,
                clip,
            )
        },
        None => surface,
    };
    let second = match rect.border.top {
        Some(side) => {
            lemma_filled_rectangle(
                first,
                x,
                y,
                rect.width,
                side.size,
                side.color,
                square,
                clip,
                px,
                py,
            );
            first.with_rect(
                x as int,
                y as int,
                rect.width as int,
                side.size as int,
                side.color,
                square,
                clip,
            )
        },
        None => first,
    };
    let third = match rect.border.right {
        Some(side) => {
            lemma_filled_rectangle(
                second,
                (x + rect.width - side.size) as i32,
                y,
                side.size,
                rect.height,
                side.color,
                square,
                clip,
                px,
                py,
            );
            second.with_rect(
                x + rect.width - side.size,
                y as int,
                side.size as int,
                rect.height as int,
                side.color,
                square,
                clip,
            )
        },
        None => second,
    };
    match rect.border.bottom {
        Some(side) => {
            lemma_filled_rectangle(
                third,
                x,
                (y + rect.height - side.size) as i32,
                rect.width,
                side.size,
                side.color,
                square,
                clip,
                px,
                py,
            );
        },
        None => {},
    }
}

/// A picture changes only pixels of its box, and only as far as it reaches itself. An opaque one shows
/// its own pixels, column by column and row by row.
pub proof fn lemma_picture_is_shown(
    surface: SurfaceModel,
    rect: Rect,
    x: i32,
    y: i32,
    image: Pixmap,
    opaque: bool,
    clip: PaintClip,
    px: int,
    py: int,
)
    requires
        on_surface(surface, px, py),
    ensures
        ({
            let after = surface.with_image(rect, x as int, y as int, image, opaque, clip);
            let inside = x <= px < x + rect.width && px < x + image.width && y <= py < y
                + rect.height && py < y + image.height && clip.start_x <= px < clip.end_x
                && clip.start_y <= py < clip.end_y;
            let shown = image.pixels@[(py - y) * image.width + (px - x)];
            &&& !inside ==> pixel_of(after, px, py) == pixel_of(surface, px, py)
            &&& inside && (opaque || shown & 0xFF == 255) ==> pixel_of(after, px, py) == shown >> 8
            &&& inside && !opaque && shown & 0xFF == 0 ==> pixel_of(after, px, py) == pixel_of(
                surface,
                px,
                py,
            )
        }),
{
    let area = crate::blit::pixmap_area(
        rect.width,
        rect.height,
        surface.width,
        surface.height,
        x,
        y,
        image,
        clip,
    );
    let paint = crate::blit::pixmap_paint(image, x, y, opaque);
    lemma_painted_pixel(surface, area, paint, px, py);
    let source = image.pixels@[(py - y) * image.width + (px - x)];
    let red = channel_at(source, 24);
    let green = channel_at(source, 16);
    let blue = channel_at(source, 8);
    let alpha = channel_at(source, 0);
    assert(red <= 255 && green <= 255 && blue <= 255 && (red << 16) | (green << 8) | blue == source
        >> 8) by (bit_vector)
        requires
            red == (source >> 24) & 0xFF,
            green == (source >> 16) & 0xFF,
            blue == (source >> 8) & 0xFF,
    ;
    assert(alpha == source & 0xFF && alpha <= 255) by (bit_vector)
        requires
            alpha == (source >> 0u32) & 0xFF,
    ;
}

/// A surface that is shown in a box is copied pixel by pixel, and reaches no further than the box.
pub proof fn lemma_surface_is_copied(
    surface: SurfaceModel,
    rect: Rect,
    x: i32,
    y: i32,
    source: Seq<u32>,
    clip: PaintClip,
    px: int,
    py: int,
)
    requires
        on_surface(surface, px, py),
    ensures
        ({
            let after = surface.with_surface(rect, x as int, y as int, source, clip);
            let inside = x <= px < x + rect.width && y <= py < y + rect.height && clip.start_x <= px
                < clip.end_x && clip.start_y <= py < clip.end_y;
            &&& !inside ==> pixel_of(after, px, py) == pixel_of(surface, px, py)
            &&& inside ==> pixel_of(after, px, py) == source[(py - y) * rect.width + (px - x)]
        }),
{
    let area = clipped_area(surface.width, surface.height, x, y, rect.width, rect.height, clip);
    lemma_painted_pixel(
        surface,
        area,
        crate::blit::copy_paint(source, rect.width, x, y),
        px,
        py,
    );
}

/// What is painted later is painted over what was painted before: painting two lists of boxes one
/// after the other is painting them as one, and a box that was not to be painted changes nothing.
pub proof fn lemma_boxes_are_painted_in_order(
    surface: SurfaceModel,
    boxes: Seq<LayoutBox>,
    first: Seq<RenderedNode>,
    node: RenderedNode,
    images: Seq<Pixmap>,
    surfaces: Seq<Vec<u32>>,
)
    ensures
        match surface.with_nodes(boxes, first, images, surfaces) {
            None => surface.with_nodes(boxes, first.push(node), images, surfaces) is None,
            Some(before) => if !node.painted {
                surface.with_nodes(boxes, first.push(node), images, surfaces) == Some(before)
            } else {
                surface.with_nodes(boxes, first.push(node), images, surfaces) matches Some(after)
                    ==> {
                    let own = boxes[node.layout_box_idx - 1];
                    after == before.with_box(
                        own,
                        own.rect.x + node.offset_x,
                        own.rect.y + node.offset_y,
                        images,
                        surfaces,
                        node.clip,
                    )
                }
            },
        },
{
    assert(first.push(node).drop_last() =~= first);
}

/// Round corners cut a rectangle only at its corners, each by its own radius: a pixel that is further
/// from every corner than the radii is kept, and the outermost one is cut.
pub proof fn lemma_round_corners(column: int, row: int, w: u32, h: u32, corners: BorderRadius)
    requires
        0 <= column < w,
        0 <= row < h,
    ensures
        column >= corners.top_left && column >= corners.bottom_left && column < w
            - corners.top_right && column < w - corners.bottom_right ==> inside_corners(
            column,
            row,
            w,
            h,
            corners,
        ),
        row >= corners.top_left && row >= corners.top_right && row < h - corners.bottom_left && row
            < h - corners.bottom_right ==> inside_corners(column, row, w, h, corners),
        w >= 2 && h >= 2 && corners.top_left > 0 ==> !inside_corners(0, 0, w, h, corners),
        w >= 4 && h >= 4 && corners.top_right >= 2 ==> !inside_corners(w - 1, 0, w, h, corners),
        w >= 4 && h >= 4 && corners.bottom_left >= 2 ==> !inside_corners(0, h - 1, w, h, corners),
        w >= 8 && h >= 8 && corners.bottom_right >= 4 ==> !inside_corners(
            w - 1,
            h - 1,
            w,
            h,
            corners,
        ),
        w >= 2 && h >= 2 && corners.top_left == 0 ==> inside_corners(0, 0, w, h, corners),
        w >= 2 && h >= 2 && corners.top_right == 0 ==> inside_corners(w - 1, 0, w, h, corners),
        w >= 2 && h >= 2 && corners.bottom_left == 0 ==> inside_corners(0, h - 1, w, h, corners),
        w >= 2 && h >= 2 && corners.bottom_right == 0 ==> inside_corners(
            w - 1,
            h - 1,
            w,
            h,
            corners,
        ),
{
    let a = effective_radius(corners.top_left, w, h);
    let b = effective_radius(corners.top_right, w, h);
    let c = effective_radius(corners.bottom_left, w, h);
    let d = effective_radius(corners.bottom_right, w, h);
    assert(a > 0 ==> a * a + a * a > a * a) by (nonlinear_arith);
    assert(b >= 2 ==> (b - 1) * (b - 1) + b * b > b * b) by (nonlinear_arith);
    assert(c >= 2 ==> c * c + (c - 1) * (c - 1) > c * c) by (nonlinear_arith);
    assert(d >= 4 ==> (d - 1) * (d - 1) + (d - 1) * (d - 1) > d * d) by (nonlinear_arith);
}

/// A box keeps the stacking of what is below it to itself where it is fixed, sticky, translucent or
/// transformed, or where it is positioned and has a `z-index`; a static box without any of these does
/// not.
pub proof fn lemma_stacking(style: PaintStyle)
    ensures
        style.position is Fixed || style.position is Sticky ==> stacks(style),
        style.translucent || style.has_transform ==> stacks(style),
        style.has_z_index && (style.position is Relative || style.position is Absolute) ==> stacks(
            style,
        ),
        style.position is Static && !style.translucent && !style.has_transform ==> !stacks(style),
        !style.has_z_index && !style.translucent && !style.has_transform && (style.position is Relative
            || style.position is Absolute) ==> !stacks(style),
        style.position.leaves_flow() ==> style.position !is Static && style.position !is Relative
            && style.position !is Sticky,
        !style.position.leaves_flow() ==> style.position !is Absolute && style.position !is Fixed,
{
}

/// A colour over another leaves of the other what its own alpha lets through, rounded to the nearest.
pub proof fn lemma_channels_are_blended(source: u8, destination: u32, alpha: u8)
    requires
        destination <= 255,
        source <= alpha,
    ensures
        ({
            let kept = over_channel(source, destination, alpha) - source;
            &&& 255 * kept <= destination * (255 - alpha) + 127 < 255 * (kept + 1)
            &&& over_channel(source, destination, alpha) <= 255
        }),
{
    let product = destination * (255 - alpha);
    assert(0 <= product <= 255 * (255 - alpha)) by (nonlinear_arith)
        requires
            product == destination * (255 - alpha),
            0 <= destination <= 255,
            0 <= alpha <= 255,
    ;
}

/// Something transparent leaves what is below as it is, something opaque hides it, and anything else
/// lies between the two: no channel is less than that of what lies on top.
pub proof fn lemma_blending(destination: u32, source: (u8, u8, u8, u8))
    ensures
        source.3 == 0 ==> over_rgb(destination, source) == destination,
        source.3 == 255 ==> {
            &&& channel_at(over_rgb(destination, source), 16) == source.0
            &&& channel_at(over_rgb(destination, source), 8) == source.1
            &&& channel_at(over_rgb(destination, source), 0) == source.2
        },
        composed(destination, 0, false) == destination,
{
    let (red, green, blue) = (source.0 as u32, source.1 as u32, source.2 as u32);
    let packed = (red << 16) | (green << 8) | blue;
    assert((packed >> 16) & 0xFF == red && (packed >> 8) & 0xFF == green && (packed >> 0u32) & 0xFF
        == blue) by (bit_vector)
        requires
            packed == (red << 16) | (green << 8) | blue,
            red <= 255,
            green <= 255,
            blue <= 255,
    ;
    assert((0u32 >> 0u32) & 0xFF == 0u32) by (bit_vector);
}

} // verus!
