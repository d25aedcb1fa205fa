//! What of a page is in view, under the pointer or to be scrolled.
use std::collections::HashSet;
use vstd::prelude::*;

use crate::boxes::final_box;
use crate::boxes::is_box;
use crate::boxes::LayoutBox;
use crate::boxes::LayoutTable;
use crate::dom::parent_of;
use crate::dom::NodesModel;
use crate::dom::NodesTable;
use crate::paint::whole_window;
use crate::paint::RenderedNode;
use crate::raster::PaintClip;
use crate::stylesheet::StylePointerEvents;
use crate::stylesheet::StyleVisibility;
use crate::tree::acyclic;
use crate::tree::climbs;
use crate::tree::get_parents;
use crate::tree::lineage;
use crate::tree::rank_of;

verus! {

broadcast use vstd::std_specs::hash::group_hash_axioms;

/// The first painted entry of a box.
pub open spec fn first_rendered(rendered: Seq<RenderedNode>, id: usize) -> Option<RenderedNode>
    decreases rendered.len(),
{
    if rendered.len() == 0 {
        None
    } else if rendered[0].layout_box_idx == id {
        Some(rendered[0])
    } else {
        first_rendered(rendered.drop_first(), id)
    }
}

pub fn find_rendered(rendered: &Vec<RenderedNode>, id: usize) -> (r: Option<RenderedNode>)
    ensures
        r == first_rendered(rendered@, id),
{
    let mut at: usize = 0;
    assert(rendered@.skip(0) =~= rendered@);
    while at < rendered.len()
        invariant
            at <= rendered@.len(),
            first_rendered(rendered@, id) == first_rendered(rendered@.skip(at as int), id),
        decreases rendered@.len() - at,
    {
        assert(rendered@.skip(at as int).drop_first() =~= rendered@.skip(at + 1));
        if rendered[at].layout_box_idx == id {
            return Some(rendered[at]);
        }
        at = at + 1;
    }
    None
}

/// Whether a box that was painted with an offset and a clip is in view.
pub open spec fn in_view(layout: LayoutBox, offset_x: int, offset_y: int, clip: PaintClip) -> bool {
    let x = layout.rect.x + offset_x;
    let y = layout.rect.y + offset_y;
    &&& x + (layout.rect.width as i32) > clip.start_x
    &&& x < clip.end_x
    &&& y + (layout.rect.height as i32) >= clip.start_y
    &&& y < clip.end_y
}

/// Whether a box is in view, by what was painted last. One that was not painted is taken where it
/// stands, in the whole window.
pub open spec fn box_in_view(
    layout: LayoutBox,
    id: usize,
    rendered: Seq<RenderedNode>,
    width: u32,
    height: u32,
) -> bool {
    match first_rendered(rendered, id) {
        Some(entry) => in_view(
            layout,
            entry.offset_x as int,
            entry.offset_y as int,
            entry.clip,
        ),
        None => in_view(layout, 0, 0, whole_window(width, height)),
    }
}

/// Whether a box is in view.
pub fn layout_inside_viewport(
    layout: &LayoutBox,
    id: usize,
    rendered: &Vec<RenderedNode>,
    width: u32,
    height: u32,
) -> (r: bool)
    ensures
        r == box_in_view(*layout, id, rendered@, width, height),
{
    let (offset_x, offset_y, clip): (i32, i32, PaintClip) = match find_rendered(rendered, id) {
        Some(entry) => (entry.offset_x, entry.offset_y, entry.clip),
        None => (0, 0, PaintClip::viewport(width, height)),
    };
    let x: i64 = layout.rect.x as i64 + offset_x as i64;
    let y: i64 = layout.rect.y as i64 + offset_y as i64;
    let width: i32 = layout.rect.width as i32;
    let height: i32 = layout.rect.height as i32;
    x + width as i64 > clip.start_x as i64 && x < clip.end_x as i64 && y + height as i64
        >= clip.start_y as i64 && y < clip.end_y as i64
}

/// Whether a node is in view; nothing for a node without a box of its own.
pub open spec fn node_in_view(
    table: LayoutTable,
    rendered: Seq<RenderedNode>,
    width: u32,
    height: u32,
    idx: usize,
) -> Option<bool> {
    match final_box(table.node_layout@, idx) {
        None => None,
        Some(id) => Some(
            is_box(table.boxes@, id as int) && box_in_view(
                table.boxes@[id - 1],
                id,
                rendered,
                width,
                height,
            ),
        ),
    }
}

/// The nodes in view, and those of the watched ones that came into view or left it.
pub struct SightModel {
    pub seen: Set<usize>,
    pub entered: Seq<usize>,
    pub left: Seq<usize>,
}

/// What watching finds, node by node in order.
pub open spec fn watched(
    table: LayoutTable,
    rendered: Seq<RenderedNode>,
    width: u32,
    height: u32,
    targets: Seq<usize>,
    seen: Set<usize>,
) -> SightModel
    decreases targets.len(),
{
    if targets.len() == 0 {
        SightModel { seen, entered: Seq::empty(), left: Seq::empty() }
    } else {
        let before = watched(table, rendered, width, height, targets.drop_last(), seen);
        let idx = targets.last();
        match node_in_view(table, rendered, width, height, idx) {
            None => before,
            Some(true) => if before.seen.contains(idx) {
                before
            } else {
                SightModel {
                    seen: before.seen.insert(idx),
                    entered: before.entered.push(idx),
                    left: before.left,
                }
            },
            Some(false) => if before.seen.contains(idx) {
                SightModel {
                    seen: before.seen.remove(idx),
                    entered: before.entered,
                    left: before.left.push(idx),
                }
            } else {
                before
            },
        }
    }
}

/// Which of the watched nodes came into view and which left it. `seen` holds those in view.
pub fn compute_intersections(
    table: &LayoutTable,
    rendered: &Vec<RenderedNode>,
    width: u32,
    height: u32,
    targets: &Vec<usize>,
    seen: &mut HashSet<usize>,
) -> (r: (Vec<usize>, Vec<usize>))
    ensures
        ({
            let end = watched(*table, rendered@, width, height, targets@, old(seen)@);
            r.0@ == end.entered && r.1@ == end.left && final(seen)@ == end.seen
        }),
{
    let ghost start = seen@;
    let mut entered: Vec<usize> = Vec::new();
    let mut left: Vec<usize> = Vec::new();
    let mut at: usize = 0;
    while at < targets.len()
        invariant
            at <= targets@.len(),
            ({
                let end = watched(
                    *table,
                    rendered@,
                    width,
                    height,
                    targets@.take(at as int),
                    start,
                );
                entered@ == end.entered && left@ == end.left && seen@ == end.seen
            }),
        decreases targets@.len() - at,
    {
        let idx: usize = targets[at];
        assert(targets@.take(at + 1).drop_last() =~= targets@.take(at as int));
        match table.layout_of_node(idx) {
            None => {},
            Some(id) => {
                let visible = 1 <= id && id <= table.boxes.len() && layout_inside_viewport(
                    &table.boxes[id - 1],
                    id,
                    rendered,
                    width,
                    height,
                );
                if visible {
                    if !seen.contains(&idx) {
                        let _new = seen.insert(idx);
                        entered.push(idx);
                    }
                } else {
                    if seen.contains(&idx) {
                        let _removed = seen.remove(&idx);
                        left.push(idx);
                    }
                }
            },
        }
        at = at + 1;
    }
    assert(targets@.take(targets@.len() as int) =~= targets@);
    (entered, left)
}

/// After watching, a watched node with a box counts as seen exactly where it is in view.
pub proof fn lemma_seen_are_in_view(
    table: LayoutTable,
    rendered: Seq<RenderedNode>,
    width: u32,
    height: u32,
    targets: Seq<usize>,
    seen: Set<usize>,
    idx: usize,
)
    requires
        targets.contains(idx),
        node_in_view(table, rendered, width, height, idx) is Some,
    ensures
        Some(watched(table, rendered, width, height, targets, seen).seen.contains(idx))
            == node_in_view(table, rendered, width, height, idx),
    decreases targets.len(),
{
    let rest = targets.drop_last();
    if targets.last() != idx {
        let k = choose|k: int| 0 <= k < targets.len() && targets[k] == idx;
        assert(rest[k] == idx);
        lemma_seen_are_in_view(table, rendered, width, height, rest, seen, idx);
    }
}

/// What of a style decides whether the pointer finds a node.
#[derive(Debug, Clone, Copy, PartialEq, Eq, Structural)]
pub struct PointerStyle {
    pub pointer_events: StylePointerEvents,
    pub visibility: StyleVisibility,
}

/// Whether the pointer finds a painted box at a place.
pub open spec fn is_under(
    entry: RenderedNode,
    table: LayoutTable,
    styles: Seq<Option<PointerStyle>>,
    x: i32,
    y: i32,
) -> bool {
    if is_box(table.boxes@, entry.layout_box_idx as int) {
        let layout = table.boxes@[entry.layout_box_idx - 1];
        let left = layout.rect.x + entry.offset_x;
        let top = layout.rect.y + entry.offset_y;
        &&& layout.node_idx < styles.len()
        &&& styles[layout.node_idx as int] matches Some(style) && style.pointer_events
            == StylePointerEvents::Auto && style.visibility == StyleVisibility::Visible
        &&& x > left && x > entry.clip.start_x
        &&& y > top && y > entry.clip.start_y
        &&& x < left + (layout.rect.width as i32) && x < entry.clip.end_x
        &&& y < top + (layout.rect.height as i32) && y < entry.clip.end_y
    } else {
        false
    }
}

/// The box under the pointer: of those that it finds, the one that was painted last.
pub open spec fn box_under(
    rendered: Seq<RenderedNode>,
    table: LayoutTable,
    styles: Seq<Option<PointerStyle>>,
    x: i32,
    y: i32,
) -> Option<usize>
    decreases rendered.len(),
{
    if rendered.len() == 0 {
        None
    } else if is_under(rendered.last(), table, styles, x, y) {
        Some(rendered.last().layout_box_idx)
    } else {
        box_under(rendered.drop_last(), table, styles, x, y)
    }
}

fn finds(
    entry: &RenderedNode,
    table: &LayoutTable,
    styles: &Vec<Option<PointerStyle>>,
    x: i32,
    y: i32,
) -> (r: bool)
    ensures
        r == is_under(*entry, *table, styles@, x, y),
{
    let id: usize = entry.layout_box_idx;
    if id < 1 || id > table.boxes.len() {
        return false;
    }
    let layout = &table.boxes[id - 1];
    if layout.node_idx >= styles.len() {
        return false;
    }
    let reachable = match styles[layout.node_idx] {
        Some(style) => style.pointer_events == StylePointerEvents::Auto && style.visibility
            == StyleVisibility::Visible,
        None => false,
    };
    let left: i64 = layout.rect.x as i64 + entry.offset_x as i64;
    let top: i64 = layout.rect.y as i64 + entry.offset_y as i64;
    let width: i32 = layout.rect.width as i32;
    let height: i32 = layout.rect.height as i32;
    reachable && x as i64 > left && x > entry.clip.start_x && y as i64 > top && y
        > entry.clip.start_y && (x as i64) < left + width as i64 && x < entry.clip.end_x && (
    y as i64) < top + height as i64 && y < entry.clip.end_y
}

/// The box under the pointer.
pub fn compute_hovering(
    rendered: &Vec<RenderedNode>,
    table: &LayoutTable,
    styles: &Vec<Option<PointerStyle>>,
    x: i32,
    y: i32,
) -> (r: Option<usize>)
    ensures
        r == box_under(rendered@, *table, styles@, x, y),
{
    let mut at: usize = rendered.len();
    assert(rendered@.take(at as int) =~= rendered@);
    while at > 0
        invariant
            at <= rendered@.len(),
            box_under(rendered@, *table, styles@, x, y) == box_under(
                rendered@.take(at as int),
                *table,
                styles@,
                x,
                y,
            ),
        decreases at,
    {
        assert(rendered@.take(at as int).drop_last() =~= rendered@.take(at - 1));
        if finds(&rendered[at - 1], table, styles, x, y) {
            return Some(rendered[at - 1].layout_box_idx);
        }
        at = at - 1;
    }
    None
}

/// The box under the pointer is one that the pointer finds, and none that it finds was painted
/// later.
pub proof fn lemma_topmost_box(
    rendered: Seq<RenderedNode>,
    table: LayoutTable,
    styles: Seq<Option<PointerStyle>>,
    x: i32,
    y: i32,
)
    ensures
        match box_under(rendered, table, styles, x, y) {
            Some(id) => exists|k: int|
                {
                    &&& 0 <= k < rendered.len()
                    &&& (#[trigger] rendered[k]).layout_box_idx == id
                    &&& is_under(rendered[k], table, styles, x, y)
                    &&& forall|j: int|
                        k < j < rendered.len() ==> !is_under(
                            #[trigger] rendered[j],
                            table,
                            styles,
                            x,
                            y,
                        )
                },
            None => forall|j: int|
                0 <= j < rendered.len() ==> !is_under(#[trigger] rendered[j], table, styles, x, y),
        },
    decreases rendered.len(),
{
    if rendered.len() > 0 {
        let rest = rendered.drop_last();
        let last = rendered.len() - 1;
        if is_under(rendered.last(), table, styles, x, y) {
            assert(rendered[last].layout_box_idx == rendered.last().layout_box_idx);
        } else {
            lemma_topmost_box(rest, table, styles, x, y);
            match box_under(rest, table, styles, x, y) {
                Some(id) => {
                    let k = choose|k: int|
                        {
                            &&& 0 <= k < rest.len()
                            &&& (#[trigger] rest[k]).layout_box_idx == id
                            &&& is_under(rest[k], table, styles, x, y)
                            &&& forall|j: int|
                                k < j < rest.len() ==> !is_under(
                                    #[trigger] rest[j],
                                    table,
                                    styles,
                                    x,
                                    y,
                                )
                        };
                    assert(rendered[k] == rest[k]);
                    assert forall|j: int| k < j < rendered.len() implies !is_under(
                        #[trigger] rendered[j],
                        table,
                        styles,
                        x,
                        y,
                    ) by {
                        if j < rest.len() {
                            assert(rest[j] == rendered[j]);
                        }
                    }
                },
                None => {
                    assert forall|j: int| 0 <= j < rendered.len() implies !is_under(
                        #[trigger] rendered[j],
                        table,
                        styles,
                        x,
                        y,
                    ) by {
                        if j < rest.len() {
                            assert(rest[j] == rendered[j]);
                        }
                    }
                },
            }
        }
    }
}

/// Whether a node can be scrolled: its style lets the user scroll it, and its content is higher than
/// its box.
pub open spec fn is_scrollable(table: LayoutTable, allowed: Seq<bool>, idx: usize) -> bool {
    &&& idx < allowed.len() && allowed[idx as int]
    &&& final_box(table.node_layout@, idx) matches Some(id) && is_box(table.boxes@, id as int)
        && table.boxes@[id - 1].content_height > table.boxes@[id - 1].rect.height
}

/// The first of the listed nodes that can be scrolled.
pub open spec fn first_scrollable(list: Seq<usize>, table: LayoutTable, allowed: Seq<bool>) -> Option<
    usize,
>
    decreases list.len(),
{
    if list.len() == 0 {
        None
    } else if is_scrollable(table, allowed, list[0]) {
        Some(list[0])
    } else {
        first_scrollable(list.drop_first(), table, allowed)
    }
}

fn can_scroll(table: &LayoutTable, allowed: &Vec<bool>, idx: usize) -> (r: bool)
    ensures
        r == is_scrollable(*table, allowed@, idx),
{
    if idx >= allowed.len() || !allowed[idx] {
        return false;
    }
    match table.layout_of_node(idx) {
        Some(id) => 1 <= id && id <= table.boxes.len() && table.boxes[id - 1].content_height
            > table.boxes[id - 1].rect.height,
        None => false,
    }
}

/// The nearest of a node and its ancestors that can be scrolled.
pub fn get_scrollable_node_idx(
    nodes: &NodesTable,
    table: &LayoutTable,
    allowed: &Vec<bool>,
    idx: usize,
) -> (r: Option<usize>)
    requires
        acyclic(nodes@),
    ensures
        r == first_scrollable(lineage(nodes@, idx), *table, allowed@),
{
    let mut current: usize = idx;
    loop
        invariant
            acyclic(nodes@),
            first_scrollable(lineage(nodes@, idx), *table, allowed@) == first_scrollable(
                lineage(nodes@, current),
                *table,
                allowed@,
            ),
        decreases rank_of(nodes@)(current),
    {
        let ghost list = lineage(nodes@, current);
        assert(list[0] == current);
        if can_scroll(table, allowed, current) {
            return Some(current);
        }
        match nodes.parent(current) {
            Some(parent) => {
                proof {
                    assert(climbs(nodes@, rank_of(nodes@)));
                    assert(parent_of(nodes@, current) == Some(parent));
                    assert(list.drop_first() =~= lineage(nodes@, parent));
                }
                current = parent;
            },
            None => {
                proof {
                    assert(list.drop_first() =~= Seq::empty());
                    assert(first_scrollable(list.drop_first(), *table, allowed@) is None);
                }
                return None;
            },
        }
    }
}

/// What scrolling is about: the node that scrolls, how high its content is and how much of it shows.
#[derive(Debug, Clone, Copy, PartialEq, Eq, Structural)]
pub struct Scrollable {
    pub node_idx: usize,
    pub content_height: u32,
    pub shown_height: u32,
}

/// What the user scrolls: the nearest node around the box under the pointer that can be scrolled,
/// else the outermost box in the window. Nothing before anything was laid out.
pub open spec fn scrolled_at(
    nodes: NodesModel,
    table: LayoutTable,
    allowed: Seq<bool>,
    hovering: Option<usize>,
    roots: Seq<usize>,
    window_height: u32,
) -> Option<Scrollable> {
    let inner = match hovering {
        Some(id) => if is_box(table.boxes@, id as int) {
            first_scrollable(lineage(nodes, table.boxes@[id - 1].node_idx), table, allowed)
        } else {
            None
        },
        None => None,
    };
    match inner {
        Some(idx) => {
            let layout = table.boxes@[final_box(table.node_layout@, idx)->0 - 1];
            Some(
                Scrollable {
                    node_idx: idx,
                    content_height: layout.content_height,
                    shown_height: layout.rect.height,
                },
            )
        },
        None => if roots.len() > 0 && is_box(table.boxes@, roots[0] as int) {
            Some(
                Scrollable {
                    node_idx: table.boxes@[roots[0] - 1].node_idx,
                    content_height: table.boxes@[roots[0] - 1].content_height,
                    shown_height: window_height,
                },
            )
        } else {
            None
        },
    }
}

proof fn lemma_scrollable_is_scrollable(list: Seq<usize>, table: LayoutTable, allowed: Seq<bool>)
    ensures
        first_scrollable(list, table, allowed) matches Some(idx) ==> is_scrollable(
            table,
            allowed,
            idx,
        ),
    decreases list.len(),
{
    if list.len() > 0 && !is_scrollable(table, allowed, list[0]) {
        lemma_scrollable_is_scrollable(list.drop_first(), table, allowed);
    }
}

/// What the user scrolls.
pub fn get_scrollable_dimensions(
    nodes: &NodesTable,
    table: &LayoutTable,
    allowed: &Vec<bool>,
    hovering: Option<usize>,
    roots: &Vec<usize>,
    window_height: u32,
) -> (r: Option<Scrollable>)
    requires
        acyclic(nodes@),
    ensures
        r == scrolled_at(nodes@, *table, allowed@, hovering, roots@, window_height),
{
    let inner: Option<usize> = match hovering {
        Some(id) => {
            if 1 <= id && id <= table.boxes.len() {
                get_scrollable_node_idx(nodes, table, allowed, table.boxes[id - 1].node_idx)
            } else {
                None
            }
        },
        None => None,
    };
    match inner {
        Some(idx) => {
            proof {
                let id = hovering->0;
                lemma_scrollable_is_scrollable(
                    lineage(nodes@, table.boxes@[id - 1].node_idx),
                    *table,
                    allowed@,
                );
            }
            let id: usize = match table.layout_of_node(idx) {
                Some(id) => id,
                None => {
                    return None;
                },
            };
            let layout = &table.boxes[id - 1];
            return Some(
                Scrollable {
                    node_idx: idx,
                    content_height: layout.content_height,
                    shown_height: layout.rect.height,
                },
            );
        },
        None => {},
    }
    if roots.len() > 0 && 1 <= roots[0] && roots[0] <= table.boxes.len() {
        let layout = &table.boxes[roots[0] - 1];
        Some(
            Scrollable {
                node_idx: layout.node_idx,
                content_height: layout.content_height,
                shown_height: window_height,
            },
        )
    } else {
        None
    }
}

/// The nodes around what the pointer is on: the node of the box and those above it.
pub fn get_hover_chain(nodes: &NodesTable, table: &LayoutTable, hovering: Option<usize>) -> (r: Vec<usize>)
    requires
        acyclic(nodes@),
        hovering matches Some(id) ==> is_box(table.models(), id as int),
    ensures
        r@ == (match hovering {
            Some(id) => lineage(nodes@, table.models()[id - 1].node_idx),
            None => Seq::empty(),
        }),
{
    match hovering {
        Some(id) => get_parents(nodes, table.layout_to_node_idx(id)),
        None => Vec::new(),
    }
}

} // verus!
