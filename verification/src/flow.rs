//! Block layout: placing children one after the other, wrapping runs of inline children into
//! lines, and giving free space to automatic margins.
use std::collections::HashMap;
use vstd::prelude::*;

use crate::boxes::in_i32;
use crate::raster::max2;
use crate::sizing::bounded;
use crate::sizing::hold_between;
use crate::sizing::ContainerSizes;
use crate::sizing::Edges;
use crate::sizing::Position;

verus! {

broadcast use vstd::std_specs::hash::group_hash_axioms;

/// The lines of a box: which children share a line, and how far each child has already been moved
/// by alignment.
pub struct MarginRows {
    pub rows: Vec<Vec<usize>>,
    pub alignment_movements: HashMap<usize, i32>,
}

pub open spec fn rows_view(rows: Seq<Vec<usize>>) -> Seq<Seq<usize>> {
    Seq::new(rows.len(), |i: int| rows[i]@)
}

/// The lines after a child has started a line of its own.
pub open spec fn with_new_row(rows: Seq<Seq<usize>>, idx: usize) -> Seq<Seq<usize>> {
    rows.push(seq![idx])
}

/// The lines after a child has joined the last line, or the first one where there is none.
pub open spec fn with_last_row(rows: Seq<Seq<usize>>, idx: usize) -> Seq<Seq<usize>> {
    if rows.len() == 0 {
        seq![seq![idx]]
    } else {
        rows.update(rows.len() - 1, rows.last().push(idx))
    }
}

impl MarginRows {
    pub open spec fn lines(self) -> Seq<Seq<usize>> {
        rows_view(self.rows@)
    }

    /// No line is empty, and the movement of every child on a line is known.
    pub open spec fn wf(self) -> bool {
        forall|i: int, k: int|
            #![trigger self.rows@[i]@[k]]
            0 <= i < self.rows@.len() ==> self.rows@[i]@.len() > 0 && (0 <= k
                < self.rows@[i]@.len() ==> self.alignment_movements@.contains_key(
                self.rows@[i]@[k],
            ))
    }

    pub open spec fn no_empty_row(self) -> bool {
        forall|i: int| 0 <= i < self.rows@.len() ==> (#[trigger] self.rows@[i])@.len() > 0
    }

    /// No child has been moved by alignment.
    pub open spec fn unmoved(self) -> bool {
        forall|id: usize| #[trigger]
            self.alignment_movements@.contains_key(id) ==> self.alignment_movements@[id] == 0
    }

    pub fn new() -> (r: MarginRows)
        ensures
            r.lines().len() == 0,
            r.alignment_movements@ == Map::<usize, i32>::empty(),
            r.wf(),
            r.no_empty_row(),
    {
        MarginRows { rows: Vec::new(), alignment_movements: HashMap::new() }
    }

    /// Starts a line with a child.
    pub fn new_row(&mut self, idx: usize, alignment_movement: i32)
        requires
            old(self).wf(),
            old(self).no_empty_row(),
        ensures
            final(self).lines() == with_new_row(old(self).lines(), idx),
            final(self).alignment_movements@ == old(self).alignment_movements@.insert(
                idx,
                alignment_movement,
            ),
            final(self).wf(),
            final(self).no_empty_row(),
    {
        let mut row: Vec<usize> = Vec::new();
        row.push(idx);
        self.rows.push(row);
        self.alignment_movements.insert(idx, alignment_movement);
        proof {
            assert(row@ =~= seq![idx]);
            assert(self.lines() =~= with_new_row(old(self).lines(), idx));
            assert forall|i: int, k: int|
                #![trigger self.rows@[i]@[k]]
                0 <= i < self.rows@.len() implies self.rows@[i]@.len() > 0 && (0 <= k
                < self.rows@[i]@.len() ==> self.alignment_movements@.contains_key(
                self.rows@[i]@[k],
            )) by {
                if i < old(self).rows@.len() {
                    assert(self.rows@[i] == old(self).rows@[i]);
                    assert(old(self).rows@[i]@[k] == self.rows@[i]@[k]);
                }
            }
        }
    }

    /// Adds a child to the last line.
    pub fn last_row(&mut self, idx: usize, alignment_movement: i32)
        requires
            old(self).wf(),
            old(self).no_empty_row(),
        ensures
            final(self).lines() == with_last_row(old(self).lines(), idx),
            final(self).alignment_movements@ == old(self).alignment_movements@.insert(
                idx,
                alignment_movement,
            ),
            final(self).wf(),
            final(self).no_empty_row(),
    {
        if self.rows.len() == 0 {
            self.new_row(idx, alignment_movement);
            assert(self.lines() =~= with_last_row(old(self).lines(), idx));
            return;
        }
        let last: usize = self.rows.len() - 1;
        let mut row = self.rows[last].clone();
        assert(row@ =~= self.rows@[last as int]@);
        row.push(idx);
        self.rows[last] = row;
        self.alignment_movements.insert(idx, alignment_movement);
        proof {
            assert(self.lines() =~= with_last_row(old(self).lines(), idx));
            assert forall|i: int, k: int|
                #![trigger self.rows@[i]@[k]]
                0 <= i < self.rows@.len() implies self.rows@[i]@.len() > 0 && (0 <= k
                < self.rows@[i]@.len() ==> self.alignment_movements@.contains_key(
                self.rows@[i]@[k],
            )) by {
                if i < last {
                    assert(old(self).rows@[i]@[k] == self.rows@[i]@[k]);
                } else if 0 <= k < old(self).rows@[i]@.len() {
                    assert(old(self).rows@[i]@[k] == self.rows@[i]@[k]);
                }
            }
        }
    }
}

/// The state of a block while its children are placed.
pub struct BlockFlow {
    /// Where the content starts.
    pub origin: Position,
    /// Where the next child goes.
    pub cursor: Position,
    pub max_child_width: u32,
    pub max_child_height: u32,
    pub row_height: u32,
    /// The width that the inline children of the current line take.
    pub line_width: i32,
    pub line_has_content: bool,
    pub rows: MarginRows,
    pub children: Vec<usize>,
}

/// What a [`BlockFlow`] holds, in mathematical integers.
pub struct FlowModel {
    pub origin_x: int,
    pub origin_y: int,
    pub x: int,
    pub y: int,
    pub max_child_width: int,
    pub max_child_height: int,
    pub row_height: int,
    pub line_width: int,
    pub line_has_content: bool,
    pub lines: Seq<Seq<usize>>,
    pub children: Seq<usize>,
}

/// What one child adds to a block.
#[derive(Debug, Clone, Copy)]
pub struct PlacedChild {
    /// The number of the child's box.
    pub id: usize,
    pub width: u32,
    pub height: u32,
    pub margins: Edges,
    /// Whether the child and its neighbours are all inline.
    pub inline_run: bool,
}

impl FlowModel {
    pub open spec fn in_range(self) -> bool {
        in_i32(self.x) && in_i32(self.y) && in_i32(self.line_width)
    }

    /// The width of an inline child with the margin behind it.
    pub open spec fn outer_width(child: PlacedChild) -> int {
        (child.width as i32) + child.margins.right
    }

    /// Whether an inline child has to go on a new line.
    pub open spec fn wraps(self, child: PlacedChild, inner_width: u32) -> bool {
        child.inline_run && self.line_width > 0 && self.line_width + FlowModel::outer_width(child)
            > (inner_width as i32)
    }

    /// The block after a line break: at least a line of text further down.
    pub open spec fn after_break(self, font_size: u32) -> FlowModel {
        let y = self.y + (max2(self.row_height, font_size as int) as u32 as i32);
        FlowModel {
            x: self.origin_x,
            y,
            line_width: 0,
            row_height: 0,
            line_has_content: false,
            max_child_height: max2(self.max_child_height, max2(y - self.origin_y, 0)),
            ..self
        }
    }

    /// The block after a child has been placed.
    pub open spec fn after_child(self, child: PlacedChild, inner_width: u32) -> FlowModel {
        let outer = FlowModel::outer_width(child);
        if !child.inline_run {
            FlowModel {
                x: self.origin_x,
                y: self.y + (child.margins.top + (child.height as i32) + child.margins.bottom),
                line_width: 0,
                row_height: 0,
                line_has_content: false,
                lines: with_new_row(self.lines, child.id),
                max_child_width: max2(self.max_child_width, child.width as int),
                children: self.children.push(child.id),
                ..self
            }
        } else {
            let wraps = self.wraps(child, inner_width);
            let line_width = if wraps {
                outer
            } else {
                self.line_width + outer
            };
            let row_height = max2(self.row_height, child.height as int);
            FlowModel {
                x: if wraps {
                    self.origin_x + outer
                } else {
                    self.x + outer
                },
                y: if wraps {
                    self.y + (self.row_height as u32 as i32)
                } else {
                    self.y
                },
                line_width,
                row_height,
                line_has_content: true,
                lines: if wraps || !self.line_has_content {
                    with_new_row(self.lines, child.id)
                } else {
                    with_last_row(self.lines, child.id)
                },
                max_child_width: max2(self.max_child_width, line_width as i32 as u32 as int),
                max_child_height: max2(self.max_child_height, row_height),
                children: self.children.push(child.id),
                ..self
            }
        }
    }

    /// How far a child that was laid out at the cursor has to be moved to where it belongs.
    pub open spec fn correction(self, child: PlacedChild, inner_width: u32) -> (int, int) {
        if self.wraps(child, inner_width) {
            (self.origin_x - self.x, (self.row_height as u32 as i32) as int)
        } else {
            (0, 0)
        }
    }

    /// Whether placing a child keeps every coordinate in the `i32` range.
    pub open spec fn child_in_range(self, child: PlacedChild, inner_width: u32) -> bool {
        let outer = FlowModel::outer_width(child);
        let after = self.after_child(child, inner_width);
        &&& in_i32(after.x)
        &&& in_i32(after.y)
        &&& in_i32(after.line_width)
        &&& if child.inline_run {
            &&& in_i32(outer)
            &&& self.line_width > 0 ==> in_i32(self.line_width + outer)
            &&& in_i32(self.correction(child, inner_width).0)
        } else {
            &&& in_i32(child.margins.top + (child.height as i32))
            &&& in_i32(child.margins.top + (child.height as i32) + child.margins.bottom)
        }
    }

    /// The height of what has been placed: nothing where the cursor does not lie within the `i32`
    /// range of its start, or the sum does not fit.
    pub open spec fn content_height(self) -> int {
        max2(max2(self.y - self.origin_y, 0) + self.row_height, self.max_child_height)
    }
}

/// What a finished block takes.
#[derive(Debug, Clone, Copy, PartialEq, Eq, Structural)]
pub struct BlockSize {
    pub width: u32,
    pub height: u32,
    pub content_height: u32,
}

/// The size of a finished block. The height is the specified one, else that of the content and
/// the vertical padding; the width fills what is available where the block wants that, else it is
/// that of the content.
pub open spec fn block_size(
    flow: FlowModel,
    specified_height: Option<u32>,
    sizes: ContainerSizes,
    padding: Edges,
    fills: bool,
) -> BlockSize {
    let content = flow.content_height();
    let vertical = (padding.top + padding.bottom) as i32 as u32;
    let height = match specified_height {
        Some(height) => height,
        None => if flow.children.len() == 0 && content == 0 {
            vertical
        } else {
            (content + vertical) as u32
        },
    };
    BlockSize {
        width: if fills {
            sizes.container_width
        } else {
            sizes.actual_width(flow.max_child_width as u32) as u32
        },
        height: bounded(height, sizes.min_height, sizes.max_height),
        content_height: content as u32,
    }
}

/// Whether every sum that the size of a finished block needs fits its type.
pub open spec fn block_size_in_range(
    flow: FlowModel,
    specified_height: Option<u32>,
    sizes: ContainerSizes,
    padding: Edges,
    fills: bool,
) -> bool {
    let content = flow.content_height();
    let vertical = (padding.top + padding.bottom) as i32 as u32;
    &&& in_i32(flow.y - flow.origin_y)
    &&& max2(flow.y - flow.origin_y, 0) + flow.row_height <= u32::MAX
    &&& specified_height is None ==> in_i32(padding.top + padding.bottom)
    &&& specified_height is None && !(flow.children.len() == 0 && content == 0) ==> content
        + vertical <= u32::MAX
    &&& !fills ==> sizes.width_within(flow.max_child_width as u32) + sizes.padding_x <= u32::MAX
}

/// A block with nothing in it; nothing where its content starts outside the `i32` range.
pub open spec fn flow_begun(cursor: Position, padding: Edges) -> Option<FlowModel> {
    let x = cursor.x + padding.left;
    let y = cursor.y + padding.top;
    if in_i32(x) && in_i32(y) {
        Some(
            FlowModel {
                origin_x: x,
                origin_y: y,
                x,
                y,
                max_child_width: 0,
                max_child_height: 0,
                row_height: 0,
                line_width: 0,
                line_has_content: false,
                lines: Seq::empty(),
                children: Seq::empty(),
            },
        )
    } else {
        None
    }
}

fn wide_in_range(value: i64) -> (r: bool)
    ensures
        r == in_i32(value as int),
{
    i32::MIN as i64 <= value && value <= i32::MAX as i64
}

impl BlockFlow {
    pub open spec fn model(self) -> FlowModel {
        FlowModel {
            origin_x: self.origin.x as int,
            origin_y: self.origin.y as int,
            x: self.cursor.x as int,
            y: self.cursor.y as int,
            max_child_width: self.max_child_width as int,
            max_child_height: self.max_child_height as int,
            row_height: self.row_height as int,
            line_width: self.line_width as int,
            line_has_content: self.line_has_content,
            lines: self.rows.lines(),
            children: self.children@,
        }
    }

    pub open spec fn wf(self) -> bool {
        self.rows.wf() && self.rows.no_empty_row() && self.rows.unmoved()
    }

    /// A block with nothing in it, whose content starts inside its padding.
    pub fn new(cursor: Position, padding: &Edges) -> (r: Option<BlockFlow>)
        ensures
            match (r, flow_begun(cursor, *padding)) {
                (Some(flow), Some(model)) => flow.wf() && flow.model() == model,
                (None, None) => true,
                _ => false,
            },
    {
        let x: i64 = cursor.x as i64 + padding.left as i64;
        let y: i64 = cursor.y as i64 + padding.top as i64;
        if !wide_in_range(x) || !wide_in_range(y) {
            return None;
        }
        let origin = Position { x: x as i32, y: y as i32 };
        let flow = BlockFlow {
            origin,
            cursor: origin,
            max_child_width: 0,
            max_child_height: 0,
            row_height: 0,
            line_width: 0,
            line_has_content: false,
            rows: MarginRows::new(),
            children: Vec::new(),
        };
        assert(flow.model().lines =~= Seq::empty());
        Some(flow)
    }

    /// Breaks the line.
    pub fn line_break(&mut self, font_size: u32) -> (ok: bool)
        requires
            old(self).wf(),
        ensures
            final(self).wf(),
            ok == (in_i32(old(self).model().after_break(font_size).y) && in_i32(
                old(self).model().after_break(font_size).y - old(self).origin.y,
            )),
            ok ==> final(self).model() == old(self).model().after_break(font_size),
            !ok ==> *final(self) == *old(self),
    {
        let y: i64 = self.cursor.y as i64 + (self.row_height.max(font_size) as i32) as i64;
        let used: i64 = y - self.origin.y as i64;
        if !wide_in_range(y) || !wide_in_range(used) {
            return false;
        }
        self.cursor = Position { x: self.origin.x, y: y as i32 };
        self.line_width = 0;
        self.row_height = 0;
        self.line_has_content = false;
        self.max_child_height = self.max_child_height.max((used as i32).max(0) as u32);
        true
    }

    /// Moves past the left margin of the next child and returns where the child goes: below its
    /// top margin. Nothing where a coordinate leaves the `i32` range.
    pub fn place(&mut self, margins: &Edges) -> (r: Option<Position>)
        requires
            old(self).wf(),
        ensures
            final(self).wf(),
            match r {
                None => {
                    &&& !in_i32(old(self).cursor.x + margins.left) || !in_i32(
                        old(self).cursor.y + margins.top,
                    )
                    &&& *final(self) == *old(self)
                },
                Some(position) => {
                    &&& position.x == old(self).cursor.x + margins.left
                    &&& position.y == old(self).cursor.y + margins.top
                    &&& final(self).model() == (FlowModel {
                        x: old(self).cursor.x + margins.left,
                        ..old(self).model()
                    })
                },
            },
    {
        let x: i64 = self.cursor.x as i64 + margins.left as i64;
        let y: i64 = self.cursor.y as i64 + margins.top as i64;
        if !wide_in_range(x) || !wide_in_range(y) {
            return None;
        }
        self.cursor = Position { x: x as i32, y: self.cursor.y };
        Some(Position { x: x as i32, y: y as i32 })
    }

    /// Takes in a child that was laid out where [`BlockFlow::place`] said, and returns how far its
    /// box has to be moved, because it went on a new line. Nothing where a coordinate leaves the
    /// `i32` range.
    pub fn add_child(&mut self, child: &PlacedChild, inner_width: u32) -> (r: Option<(i32, i32)>)
        requires
            old(self).wf(),
        ensures
            final(self).wf(),
            r is Some <==> old(self).model().child_in_range(*child, inner_width),
            r matches Some(movement) ==> {
                &&& movement.0 == old(self).model().correction(*child, inner_width).0
                &&& movement.1 == old(self).model().correction(*child, inner_width).1
                &&& final(self).model() == old(self).model().after_child(*child, inner_width)
            },
            r is None ==> *final(self) == *old(self),
    {
        let ghost before = self.model();
        if child.inline_run {
            let outer: i64 = (child.width as i32) as i64 + child.margins.right as i64;
            let extended: i64 = self.line_width as i64 + outer;
            if !wide_in_range(outer) || (self.line_width > 0 && !wide_in_range(extended)) {
                return None;
            }
            let row_height: u32 = self.row_height.max(child.height);
            if self.line_width > 0 && extended > (inner_width as i32) as i64 {
                let back: i64 = self.origin.x as i64 - self.cursor.x as i64;
                let x: i64 = self.origin.x as i64 + outer;
                let down: i32 = self.row_height as i32;
                let y: i64 = self.cursor.y as i64 + down as i64;
                if !wide_in_range(back) || !wide_in_range(x) || !wide_in_range(y) {
                    return None;
                }
                self.cursor = Position { x: x as i32, y: y as i32 };
                self.line_width = outer as i32;
                self.rows.new_row(child.id, 0);
                self.line_has_content = true;
                self.row_height = row_height;
                self.max_child_width = self.max_child_width.max(self.line_width as u32);
                self.max_child_height = self.max_child_height.max(row_height);
                self.children.push(child.id);
                assert(self.model() == before.after_child(*child, inner_width));
                Some((back as i32, down))
            } else {
                let x: i64 = self.cursor.x as i64 + outer;
                if !wide_in_range(x) || !wide_in_range(extended) {
                    return None;
                }
                self.cursor = Position { x: x as i32, y: self.cursor.y };
                self.line_width = extended as i32;
                if self.line_has_content {
                    self.rows.last_row(child.id, 0);
                } else {
                    self.rows.new_row(child.id, 0);
                }
                self.line_has_content = true;
                self.row_height = row_height;
                self.max_child_width = self.max_child_width.max(self.line_width as u32);
                self.max_child_height = self.max_child_height.max(row_height);
                self.children.push(child.id);
                assert(self.model() == before.after_child(*child, inner_width));
                Some((0, 0))
            }
        } else {
            let upper: i64 = child.margins.top as i64 + (child.height as i32) as i64;
            let whole: i64 = upper + child.margins.bottom as i64;
            let y: i64 = self.cursor.y as i64 + whole;
            if !wide_in_range(upper) || !wide_in_range(whole) || !wide_in_range(y) {
                return None;
            }
            self.cursor = Position { x: self.origin.x, y: y as i32 };
            self.line_width = 0;
            self.row_height = 0;
            self.line_has_content = false;
            self.rows.new_row(child.id, 0);
            self.max_child_width = self.max_child_width.max(child.width);
            self.children.push(child.id);
            assert(self.model() == before.after_child(*child, inner_width));
            Some((0, 0))
        }
    }

    /// Puts the text of a form control in a block that has no other child.
    pub fn add_input_text(&mut self, id: usize, width: u32)
        requires
            old(self).wf(),
        ensures
            final(self).wf(),
            final(self).model() == (FlowModel {
                max_child_width: width as int,
                children: old(self).children@.push(id),
                ..old(self).model()
            }),
    {
        self.max_child_width = width;
        self.children.push(id);
    }

    /// The size of the block, once all children are placed. Nothing where a sum does not fit its
    /// type.
    pub fn finish(
        &self,
        specified_height: Option<u32>,
        sizes: &ContainerSizes,
        padding: &Edges,
        fills: bool,
    ) -> (r: Option<BlockSize>)
        requires
            self.wf(),
        ensures
            match r {
                None => !block_size_in_range(
                    self.model(),
                    specified_height,
                    *sizes,
                    *padding,
                    fills,
                ),
                Some(size) => {
                    &&& block_size_in_range(
                        self.model(),
                        specified_height,
                        *sizes,
                        *padding,
                        fills,
                    )
                    &&& size == block_size(
                        self.model(),
                        specified_height,
                        *sizes,
                        *padding,
                        fills,
                    )
                },
            },
    {
        let used: i64 = self.cursor.y as i64 - self.origin.y as i64;
        if !wide_in_range(used) {
            return None;
        }
        let placed: u64 = (used as i32).max(0) as u64 + self.row_height as u64;
        if placed > u32::MAX as u64 {
            return None;
        }
        let content_height: u32 = (placed as u32).max(self.max_child_height);
        let height: u32 = match specified_height {
            Some(height) => height,
            None => {
                let padded: i64 = padding.top as i64 + padding.bottom as i64;
                if !wide_in_range(padded) {
                    return None;
                }
                let vertical: u32 = padded as i32 as u32;
                if self.children.len() == 0 && content_height == 0 {
                    vertical
                } else {
                    match content_height.checked_add(vertical) {
                        None => {
                            return None;
                        },
                        Some(height) => height,
                    }
                }
            },
        };
        let width: u32 = if fills {
            sizes.container_width
        } else {
            if sizes.clamp_width(self.max_child_width) as u64 + sizes.padding_x as u64
                > u32::MAX as u64 {
                return None;
            }
            sizes.compute_actual_container_width(self.max_child_width)
        };
        Some(
            BlockSize {
                width,
                height: hold_between(height, sizes.min_height, sizes.max_height),
                content_height,
            },
        )
    }
}

/// Placing children keeps their order and puts each on exactly one line: read line by line, the
/// lines list the children that were placed, in order.
pub open spec fn lines_list_children(flow: FlowModel) -> bool {
    flow.lines.flatten() == flow.children
}

/// Placing a child keeps the lines and the children in step: read line by line, the lines list the
/// children in the order in which they were placed.
pub proof fn lemma_lines_list_children(flow: FlowModel, child: PlacedChild, inner_width: u32)
    requires
        lines_list_children(flow),
        flow.line_has_content ==> flow.lines.len() > 0,
    ensures
        lines_list_children(flow.after_child(child, inner_width)),
        flow.after_child(child, inner_width).line_has_content ==> flow.after_child(
            child,
            inner_width,
        ).lines.len() > 0,
{
    let after = flow.after_child(child, inner_width);
    if after.lines == with_new_row(flow.lines, child.id) {
        flow.lines.lemma_flatten_push(seq![child.id]);
        assert(after.lines.flatten() =~= flow.children.push(child.id));
    } else {
        let init = flow.lines.drop_last();
        let last = flow.lines.last();
        assert(flow.lines =~= init.push(last));
        assert(after.lines =~= init.push(last.push(child.id)));
        init.lemma_flatten_push(last);
        init.lemma_flatten_push(last.push(child.id));
        assert(after.lines.flatten() =~= flow.children.push(child.id));
    }
}

/// A child shares a line with the one before it only where both fit: after a child has been
/// placed inline without starting a line, the line is no wider than the inside of the block.
pub proof fn lemma_shared_line_fits(flow: FlowModel, child: PlacedChild, inner_width: u32)
    requires
        child.inline_run,
        flow.line_width > 0,
        !flow.wraps(child, inner_width),
    ensures
        flow.after_child(child, inner_width).line_width <= (inner_width as i32),
{
}

} // verus!
