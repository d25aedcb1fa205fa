//! Where the parts of the user interface stand, how they are painted, and what they hear of.
use vstd::prelude::*;

use crate::boxes::in_i32;
use crate::text::to_chars;
use crate::ui::parents_first;
use crate::ui::Element;
use crate::ui::ElementModel;
use crate::ui::JustifyContent;
use crate::ui::Node;
use crate::ui::UiBuilder;
use crate::ui::UiError;
use crate::ui::UiModel;

verus! {

/// What a box of the interface shows. The picture of a text is known by number.
#[derive(Debug, Clone, Copy, PartialEq, Eq, Structural)]
pub enum UiBoxKind {
    Element,
    Text(usize),
}

/// A box of the interface.
#[derive(Debug, Clone, Copy, PartialEq, Eq, Structural)]
pub struct UiBox {
    pub x: i32,
    pub y: i32,
    pub kind: UiBoxKind,
    pub width: u32,
    pub height: u32,
    pub bg_color: u32,
    pub node_idx: usize,
    pub border_radius: u32,
}

/// How large a text is when it is drawn, and the number of its picture.
#[derive(Debug, Clone, Copy, PartialEq, Eq, Structural)]
pub struct TextSize {
    pub width: u32,
    pub height: u32,
    pub image: usize,
}

/// The nodes among the first whose parent is the given one, in order.
pub open spec fn ui_children(nodes: Seq<UiModel>, parent: usize, count: nat) -> Seq<usize>
    decreases count,
{
    if count == 0 || count > nodes.len() {
        Seq::empty()
    } else if nodes[count - 1].parent_idx() == Some(parent) {
        ui_children(nodes, parent, (count - 1) as nat).push((count - 1) as usize)
    } else {
        ui_children(nodes, parent, (count - 1) as nat)
    }
}

/// The text of a node as it is drawn; nothing where it could not be.
pub open spec fn drawn(sizes: Seq<Option<TextSize>>, idx: usize) -> Option<TextSize> {
    if idx < sizes.len() {
        sizes[idx as int]
    } else {
        None
    }
}

/// The width and the height that a node takes.
pub open spec fn ui_extent(nodes: Seq<UiModel>, sizes: Seq<Option<TextSize>>, idx: usize) -> Option<
    (int, int),
> {
    match nodes[idx as int] {
        UiModel::Element(element) => Some(
            ((element.width as i32) as int, (element.height as i32) as int),
        ),
        UiModel::Text { text, color, font_px, parent } => match drawn(sizes, idx) {
            Some(size) => Some(((size.width as i32) as int, (size.height as i32) as int)),
            None => None,
        },
    }
}

/// The widths and the heights of the first nodes of a list, each added up.
pub open spec fn extents(
    nodes: Seq<UiModel>,
    sizes: Seq<Option<TextSize>>,
    list: Seq<usize>,
    count: nat,
) -> Option<(int, int)>
    decreases count,
{
    if count == 0 || count > list.len() {
        Some((0, 0))
    } else {
        match (
            extents(nodes, sizes, list, (count - 1) as nat),
            ui_extent(nodes, sizes, list[count - 1]),
        ) {
            (Some((width, height)), Some((w, h))) => Some((width + w, height + h)),
            _ => None,
        }
    }
}

/// How far children are moved into free space.
pub open spec fn shifted_by(place: JustifyContent, free: int) -> int {
    match place {
        JustifyContent::Start => 0,
        JustifyContent::Center => if free >= 0 {
            free / 2
        } else {
            -((-free) / 2)
        },
        JustifyContent::End => free,
    }
}

/// Where the first child of an element stands that stands itself at a place.
pub open spec fn first_place(
    nodes: Seq<UiModel>,
    sizes: Seq<Option<TextSize>>,
    element: ElementModel,
    list: Seq<usize>,
    x: int,
    y: int,
) -> Result<(int, int), UiError> {
    let inner_x = x + (element.padding as i32);
    let inner_y = y + (element.padding as i32);
    if !in_i32(inner_x) || !in_i32(inner_y) {
        Err(UiError::OutOfRange)
    } else {
        match element.hor {
            Some(hor) => if list.len() > 0 {
                match extents(nodes, sizes, list, list.len()) {
                    Some((width, height)) => {
                        let free_x = (element.width as i32) - (element.padding as i32) * 2 - width;
                        let free_y = (element.height as i32) - (element.padding as i32) * 2
                            - height;
                        let at_x = inner_x + shifted_by(hor.justify_content, free_x);
                        let at_y = inner_y + shifted_by(hor.align_items, free_y);
                        if in_i32(at_x) && in_i32(at_y) {
                            Ok((at_x, at_y))
                        } else {
                            Err(UiError::OutOfRange)
                        }
                    },
                    None => Err(UiError::NoText),
                }
            } else {
                Ok((inner_x, inner_y))
            },
            None => Ok((inner_x, inner_y)),
        }
    }
}

/// Where the next child stands after one that stands at a place. Texts take no place of their own.
pub open spec fn next_place(element: ElementModel, child: UiModel, x: int, y: int) -> Result<
    (int, int),
    UiError,
> {
    match child {
        UiModel::Element(inner) => {
            let at_x = if element.hor is Some {
                x + (inner.width as i32) + (element.gap as i32)
            } else {
                x
            };
            let at_y = if element.hor is Some {
                y
            } else {
                y + (inner.height as i32) + (element.gap as i32)
            };
            if in_i32(at_x) && in_i32(at_y) {
                Ok((at_x, at_y))
            } else {
                Err(UiError::OutOfRange)
            }
        },
        _ => Ok((x, y)),
    }
}

pub open spec fn text_box(size: TextSize, x: int, y: int, idx: usize) -> UiBox {
    UiBox {
        x: x as i32,
        y: y as i32,
        kind: UiBoxKind::Text(size.image),
        width: size.width,
        height: size.height,
        bg_color: 0,
        node_idx: idx,
        border_radius: 0,
    }
}

/// The boxes of a node that stands at a place and of all below it: its own first, then those of its
/// children in order, then that of the text that was typed into it.
pub open spec fn ui_boxes(
    nodes: Seq<UiModel>,
    sizes: Seq<Option<TextSize>>,
    idx: usize,
    x: int,
    y: int,
) -> Result<Seq<UiBox>, UiError>
    decreases nodes.len() - idx, 1int, 0nat,
{
    if idx >= nodes.len() {
        Err(UiError::Empty)
    } else {
        match nodes[idx as int] {
            UiModel::Element(element) => {
                let own = UiBox {
                    x: x as i32,
                    y: y as i32,
                    kind: UiBoxKind::Element,
                    width: element.width,
                    height: element.height,
                    bg_color: element.bg_color,
                    node_idx: idx,
                    border_radius: element.border_radius,
                };
                let list = ui_children(nodes, idx, nodes.len());
                match first_place(nodes, sizes, element, list, x, y) {
                    Err(error) => Err(error),
                    Ok((at_x, at_y)) => match ui_boxes_of(
                        nodes,
                        sizes,
                        idx,
                        element,
                        list,
                        list.len(),
                        at_x,
                        at_y,
                    ) {
                        Err(error) => Err(error),
                        Ok((boxes, end_x, end_y)) => match element.typeable {
                            Some(typeable) => if typeable.text.len() > 0 {
                                match drawn(sizes, idx) {
                                    Some(size) => Ok(
                                        (seq![own] + boxes).push(text_box(size, end_x, end_y, idx)),
                                    ),
                                    None => Err(UiError::NoText),
                                }
                            } else {
                                Ok(seq![own] + boxes)
                            },
                            None => Ok(seq![own] + boxes),
                        },
                    },
                }
            },
            UiModel::Text { text, color, font_px, parent } => match drawn(sizes, idx) {
                Some(size) => Ok(seq![text_box(size, x, y, idx)]),
                None => Err(UiError::NoText),
            },
        }
    }
}

/// The boxes of the first children of an element, and where the next one would stand.
pub open spec fn ui_boxes_of(
    nodes: Seq<UiModel>,
    sizes: Seq<Option<TextSize>>,
    parent: usize,
    element: ElementModel,
    list: Seq<usize>,
    count: nat,
    x: int,
    y: int,
) -> Result<(Seq<UiBox>, int, int), UiError>
    decreases nodes.len() - parent, 0int, count,
{
    if count == 0 || count > list.len() {
        Ok((Seq::empty(), x, y))
    } else {
        match ui_boxes_of(nodes, sizes, parent, element, list, (count - 1) as nat, x, y) {
            Err(error) => Err(error),
            Ok((before, at_x, at_y)) => {
                let child = list[count - 1];
                if parent < child < nodes.len() {
                    match ui_boxes(nodes, sizes, child, at_x, at_y) {
                        Err(error) => Err(error),
                        Ok(boxes) => match next_place(element, nodes[child as int], at_x, at_y) {
                            Err(error) => Err(error),
                            Ok((next_x, next_y)) => Ok((before + boxes, next_x, next_y)),
                        },
                    }
                } else {
                    Ok((before, at_x, at_y))
                }
            },
        }
    }
}

proof fn lemma_ui_children(nodes: Seq<UiModel>, parent: usize, count: nat)
    requires
        count <= nodes.len(),
        nodes.len() <= usize::MAX,
        parents_first(nodes),
    ensures
        forall|i: int|
            0 <= i < ui_children(nodes, parent, count).len() ==> parent < (#[trigger] ui_children(
                nodes,
                parent,
                count,
            )[i]) < count,
    decreases count,
{
    if count > 0 {
        lemma_ui_children(nodes, parent, (count - 1) as nat);
        let before = ui_children(nodes, parent, (count - 1) as nat);
        let all = ui_children(nodes, parent, count);
        assert(nodes[count - 1].parent_idx() matches Some(p) ==> p < count - 1);
        assert forall|i: int| 0 <= i < all.len() implies parent < (#[trigger] all[i]) < count by {
            if i < before.len() {
                assert(all[i] == before[i]);
            }
        }
    }
}

proof fn lemma_failed_child(
    nodes: Seq<UiModel>,
    sizes: Seq<Option<TextSize>>,
    parent: usize,
    element: ElementModel,
    list: Seq<usize>,
    count: nat,
    more: nat,
    x: int,
    y: int,
)
    requires
        count <= more <= list.len(),
        ui_boxes_of(nodes, sizes, parent, element, list, count, x, y) is Err,
    ensures
        ui_boxes_of(nodes, sizes, parent, element, list, more, x, y) == ui_boxes_of(
            nodes,
            sizes,
            parent,
            element,
            list,
            count,
            x,
            y,
        ),
    decreases more,
{
    if count < more {
        lemma_failed_child(nodes, sizes, parent, element, list, count, (more - 1) as nat, x, y);
    }
}

proof fn lemma_no_extents(
    nodes: Seq<UiModel>,
    sizes: Seq<Option<TextSize>>,
    list: Seq<usize>,
    count: nat,
    more: nat,
)
    requires
        count <= more <= list.len(),
        extents(nodes, sizes, list, count) is None,
    ensures
        extents(nodes, sizes, list, more) is None,
    decreases more,
{
    if count < more {
        lemma_no_extents(nodes, sizes, list, count, (more - 1) as nat);
    }
}

fn get_drawn(sizes: &Vec<Option<TextSize>>, idx: usize) -> (r: Option<TextSize>)
    ensures
        r == drawn(sizes@, idx),
{
    if idx < sizes.len() {
        sizes[idx]
    } else {
        None
    }
}

fn shift_by(place: JustifyContent, free: i128) -> (r: i128)
    requires
        -0x1_0000_0000_0000_0000_0000_0000 < free < 0x1_0000_0000_0000_0000_0000_0000,
    ensures
        r == shifted_by(place, free as int),
        -0x1_0000_0000_0000_0000_0000_0000 < r < 0x1_0000_0000_0000_0000_0000_0000,
{
    match place {
        JustifyContent::Start => 0,
        JustifyContent::Center => {
            if free >= 0 {
                free / 2
            } else {
                let positive: i128 = -free;
                -(positive / 2)
            }
        },
        JustifyContent::End => free,
    }
}

fn is_i32(value: i128) -> (r: bool)
    ensures
        r == in_i32(value as int),
{
    i32::MIN as i128 <= value && value <= i32::MAX as i128
}

impl UiBuilder {
    fn children_of(&self, parent: usize) -> (r: Vec<usize>)
        ensures
            r@ == ui_children(self@.nodes, parent, self@.nodes.len()),
    {
        let mut list: Vec<usize> = Vec::new();
        let mut at: usize = 0;
        while at < self.nodes.len()
            invariant
                at <= self.nodes@.len(),
                list@ == ui_children(self@.nodes, parent, at as nat),
            decreases self.nodes@.len() - at,
        {
            assert(self@.nodes[at as int] == self.nodes@[at as int]@);
            match self.nodes[at].get_parent() {
                Some(found) => {
                    if found == parent {
                        list.push(at);
                    }
                },
                None => {},
            }
            at = at + 1;
        }
        list
    }

    fn total_extents(&self, sizes: &Vec<Option<TextSize>>, list: &Vec<usize>) -> (r: Option<
        (i128, i128),
    >)
        requires
            forall|i: int| 0 <= i < list@.len() ==> (#[trigger] list@[i]) < self.nodes@.len(),
        ensures
            match (r, extents(self@.nodes, sizes@, list@, list@.len())) {
                (Some((width, height)), Some((w, h))) => width == w && height == h
                    && -0x8000_0000 * list@.len() <= width <= 0x8000_0000 * list@.len()
                    && -0x8000_0000 * list@.len() <= height <= 0x8000_0000 * list@.len(),
                (None, None) => true,
                _ => false,
            },
    {
        let mut width: i128 = 0;
        let mut height: i128 = 0;
        let mut at: usize = 0;
        while at < list.len()
            invariant
                at <= list@.len(),
                forall|i: int| 0 <= i < list@.len() ==> (#[trigger] list@[i]) < self.nodes@.len(),
                extents(self@.nodes, sizes@, list@, at as nat) == Some((width as int, height as int)),
                -0x8000_0000 * at <= width <= 0x8000_0000 * at,
                -0x8000_0000 * at <= height <= 0x8000_0000 * at,
            decreases list@.len() - at,
        {
            let idx: usize = list[at];
            assert(self@.nodes[idx as int] == self.nodes@[idx as int]@);
            match &self.nodes[idx] {
                Node::Element(element) => {
                    let w: i32 = element.width as i32;
                    let h: i32 = element.height as i32;
                    width = width + w as i128;
                    height = height + h as i128;
                },
                Node::Text(_) => match get_drawn(sizes, idx) {
                    Some(size) => {
                        let w: i32 = size.width as i32;
                        let h: i32 = size.height as i32;
                        width = width + w as i128;
                        height = height + h as i128;
                    },
                    None => {
                        proof {
                            lemma_no_extents(
                                self@.nodes,
                                sizes@,
                                list@,
                                (at + 1) as nat,
                                list@.len(),
                            );
                        }
                        return None;
                    },
                },
            }
            at = at + 1;
        }
        Some((width, height))
    }

    fn start_of_children(
        &self,
        sizes: &Vec<Option<TextSize>>,
        element: &Element,
        list: &Vec<usize>,
        x: i32,
        y: i32,
    ) -> (r: Result<(i32, i32), UiError>)
        requires
            forall|i: int| 0 <= i < list@.len() ==> (#[trigger] list@[i]) < self.nodes@.len(),
        ensures
            match (
                r,
                first_place(self@.nodes, sizes@, element@, list@, x as int, y as int),
            ) {
                (Ok((a, b)), Ok((c, d))) => a == c && b == d,
                (Err(error), Err(model)) => error == model,
                _ => false,
            },
    {
        let padding: i32 = element.padding as i32;
        let inner_x: i128 = x as i128 + padding as i128;
        let inner_y: i128 = y as i128 + padding as i128;
        if !is_i32(inner_x) || !is_i32(inner_y) {
            return Err(UiError::OutOfRange);
        }
        let hor = match element.hor {
            Some(hor) => hor,
            None => {
                return Ok((inner_x as i32, inner_y as i32));
            },
        };
        if list.len() == 0 {
            return Ok((inner_x as i32, inner_y as i32));
        }
        let _count: usize = list.len();
        match self.total_extents(sizes, list) {
            Some((width, height)) => {
                let element_width: i32 = element.width as i32;
                let element_height: i32 = element.height as i32;
                let free_x: i128 = element_width as i128 - padding as i128 * 2 - width;
                let free_y: i128 = element_height as i128 - padding as i128 * 2 - height;
                let at_x: i128 = inner_x + shift_by(hor.justify_content, free_x);
                let at_y: i128 = inner_y + shift_by(hor.align_items, free_y);
                if is_i32(at_x) && is_i32(at_y) {
                    Ok((at_x as i32, at_y as i32))
                } else {
                    Err(UiError::OutOfRange)
                }
            },
            None => Err(UiError::NoText),
        }
    }

    fn after_child(&self, element: &Element, child: usize, x: i32, y: i32) -> (r: Result<
        (i32, i32),
        UiError,
    >)
        requires
            child < self.nodes@.len(),
        ensures
            match (
                r,
                next_place(element@, self@.nodes[child as int], x as int, y as int),
            ) {
                (Ok((a, b)), Ok((c, d))) => a == c && b == d,
                (Err(error), Err(model)) => error == model,
                _ => false,
            },
    {
        assert(self@.nodes[child as int] == self.nodes@[child as int]@);
        match &self.nodes[child] {
            Node::Element(inner) => {
                let gap: i32 = element.gap as i32;
                let width: i32 = inner.width as i32;
                let height: i32 = inner.height as i32;
                let side_by_side = element.hor.is_some();
                let at_x: i128 = if side_by_side {
                    x as i128 + width as i128 + gap as i128
                } else {
                    x as i128
                };
                let at_y: i128 = if side_by_side {
                    y as i128
                } else {
                    y as i128 + height as i128 + gap as i128
                };
                if is_i32(at_x) && is_i32(at_y) {
                    Ok((at_x as i32, at_y as i32))
                } else {
                    Err(UiError::OutOfRange)
                }
            },
            Node::Text(_) => Ok((x, y)),
        }
    }

    fn render_children(
        &self,
        layouts: &mut Vec<UiBox>,
        sizes: &Vec<Option<TextSize>>,
        parent: usize,
        element: &Element,
        x: i32,
        y: i32,
    ) -> (r: Result<(i32, i32), UiError>)
        requires
            self@.wf(),
            parent < self.nodes@.len(),
            self@.nodes[parent as int] == UiModel::Element(element@),
        ensures
            ({
                let list = ui_children(self@.nodes, parent, self@.nodes.len());
                match (
                    r,
                    ui_boxes_of(
                        self@.nodes,
                        sizes@,
                        parent,
                        element@,
                        list,
                        list.len(),
                        x as int,
                        y as int,
                    ),
                ) {
                    (Ok((a, b)), Ok((boxes, c, d))) => a == c && b == d && final(layouts)@
                        == old(layouts)@ + boxes,
                    (Err(error), Err(model)) => error == model,
                    _ => false,
                }
            }),
        decreases self.nodes@.len() - parent, 0int,
    {
        let list = self.children_of(parent);
        let ghost nodes = self@.nodes;
        let ghost start = layouts@;
        let _count: usize = self.nodes.len();
        proof {
            lemma_ui_children(nodes, parent, nodes.len());
            assert(start + Seq::<UiBox>::empty() =~= start);
        }
        let mut at_x: i32 = x;
        let mut at_y: i32 = y;
        let mut at: usize = 0;
        while at < list.len()
            invariant
                at <= list@.len(),
                self@.wf(),
                nodes == self@.nodes,
                parent < self.nodes@.len(),
                list@ == ui_children(nodes, parent, nodes.len()),
                forall|i: int|
                    0 <= i < list@.len() ==> parent < (#[trigger] list@[i]) < self.nodes@.len(),
                ui_boxes_of(
                    nodes,
                    sizes@,
                    parent,
                    element@,
                    list@,
                    at as nat,
                    x as int,
                    y as int,
                ) matches Ok((boxes, c, d)) && at_x == c && at_y == d && layouts@ == start + boxes,
            decreases list@.len() - at,
        {
            let child: usize = list[at];
            let ghost before = ui_boxes_of(
                nodes,
                sizes@,
                parent,
                element@,
                list@,
                at as nat,
                x as int,
                y as int,
            )->Ok_0.0;
            let ghost next = (at + 1) as nat;
            match self.render_node(layouts, sizes, child, at_x, at_y) {
                Ok(_) => {},
                Err(error) => {
                    proof {
                        lemma_failed_child(
                            nodes,
                            sizes@,
                            parent,
                            element@,
                            list@,
                            next,
                            list@.len(),
                            x as int,
                            y as int,
                        );
                    }
                    return Err(error);
                },
            }
            proof {
                let boxes = ui_boxes(nodes, sizes@, child, at_x as int, at_y as int)->Ok_0;
                assert(start + before + boxes =~= start + (before + boxes));
            }
            match self.after_child(element, child, at_x, at_y) {
                Ok((next_x, next_y)) => {
                    at_x = next_x;
                    at_y = next_y;
                },
                Err(error) => {
                    proof {
                        lemma_failed_child(
                            nodes,
                            sizes@,
                            parent,
                            element@,
                            list@,
                            next,
                            list@.len(),
                            x as int,
                            y as int,
                        );
                    }
                    return Err(error);
                },
            }
            at = at + 1;
        }
        Ok((at_x, at_y))
    }

    fn render_node(
        &self,
        layouts: &mut Vec<UiBox>,
        sizes: &Vec<Option<TextSize>>,
        idx: usize,
        x: i32,
        y: i32,
    ) -> (r: Result<(), UiError>)
        requires
            self@.wf(),
        ensures
            match (r, ui_boxes(self@.nodes, sizes@, idx, x as int, y as int)) {
                (Ok(_), Ok(boxes)) => final(layouts)@ == old(layouts)@ + boxes,
                (Err(error), Err(model)) => error == model,
                _ => false,
            },
        decreases self.nodes@.len() - idx, 1int,
    {
        if idx >= self.nodes.len() {
            return Err(UiError::Empty);
        }
        let ghost nodes = self@.nodes;
        let ghost start = layouts@;
        assert(nodes[idx as int] == self.nodes@[idx as int]@);
        match &self.nodes[idx] {
            Node::Element(element) => {
                let own = UiBox {
                    x,
                    y,
                    kind: UiBoxKind::Element,
                    width: element.width,
                    height: element.height,
                    bg_color: element.bg_color,
                    node_idx: idx,
                    border_radius: element.border_radius,
                };
                layouts.push(own);
                let list = self.children_of(idx);
                let _count: usize = self.nodes.len();
                proof {
                    lemma_ui_children(nodes, idx, nodes.len());
                }
                let (at_x, at_y): (i32, i32) = match self.start_of_children(
                    sizes,
                    element,
                    &list,
                    x,
                    y,
                ) {
                    Ok(place) => place,
                    Err(error) => {
                        return Err(error);
                    },
                };
                let (end_x, end_y): (i32, i32) = match self.render_children(
                    layouts,
                    sizes,
                    idx,
                    element,
                    at_x,
                    at_y,
                ) {
                    Ok(place) => place,
                    Err(error) => {
                        return Err(error);
                    },
                };
                let ghost boxes = ui_boxes_of(
                    nodes,
                    sizes@,
                    idx,
                    element@,
                    list@,
                    list@.len(),
                    at_x as int,
                    at_y as int,
                )->Ok_0.0;
                proof {
                    assert(start.push(own) + boxes =~= start + (seq![own] + boxes));
                }
                match &element.typeable {
                    Some(typeable) => {
                        if to_chars(typeable.text.as_str()).len() > 0 {
                            match get_drawn(sizes, idx) {
                                Some(size) => {
                                    let text = UiBox {
                                        x: end_x,
                                        y: end_y,
                                        kind: UiBoxKind::Text(size.image),
                                        width: size.width,
                                        height: size.height,
                                        bg_color: 0,
                                        node_idx: idx,
                                        border_radius: 0,
                                    };
                                    layouts.push(text);
                                    assert((start + (seq![own] + boxes)).push(text) =~= start + (
                                    seq![own] + boxes).push(text));
                                },
                                None => {
                                    return Err(UiError::NoText);
                                },
                            }
                        }
                    },
                    None => {},
                }
                Ok(())
            },
            Node::Text(_) => match get_drawn(sizes, idx) {
                Some(size) => {
                    let text = UiBox {
                        x,
                        y,
                        kind: UiBoxKind::Text(size.image),
                        width: size.width,
                        height: size.height,
                        bg_color: 0,
                        node_idx: idx,
                        border_radius: 0,
                    };
                    layouts.push(text);
                    assert(layouts@ =~= start + seq![text]);
                    Ok(())
                },
                None => Err(UiError::NoText),
            },
        }
    }

    /// The boxes of the interface, from its first node on. `sizes` says of every node with a text how
    /// large it is when it is drawn.
    pub fn layout(&self, sizes: &Vec<Option<TextSize>>) -> (r: Result<Vec<UiBox>, UiError>)
        requires
            self@.wf(),
        ensures
            match (r, ui_boxes(self@.nodes, sizes@, 0, 0, 0)) {
                (Ok(layouts), Ok(boxes)) => layouts@ == boxes,
                (Err(error), Err(model)) => error == model,
                _ => false,
            },
    {
        let mut layouts: Vec<UiBox> = Vec::new();
        match self.render_node(&mut layouts, sizes, 0, 0, 0) {
            Ok(_) => {
                assert(layouts@ =~= ui_boxes(self@.nodes, sizes@, 0, 0, 0)->Ok_0);
                Ok(layouts)
            },
            Err(error) => Err(error),
        }
    }
}

/// The first box of an interface is that of its first node and stands in the corner.
pub proof fn lemma_first_box(nodes: Seq<UiModel>, sizes: Seq<Option<TextSize>>)
    requires
        ui_boxes(nodes, sizes, 0, 0, 0) is Ok,
    ensures
        ({
            let boxes = ui_boxes(nodes, sizes, 0, 0, 0)->Ok_0;
            boxes.len() > 0 && boxes[0].node_idx == 0 && boxes[0].x == 0 && boxes[0].y == 0
        }),
{
}

} // verus!
