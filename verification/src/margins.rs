//! Automatic margins and text alignment: giving the free space of a line to its children.
use vstd::prelude::*;

use crate::boxes::box_models;
use crate::boxes::children_first;
use crate::boxes::in_i32;
use crate::boxes::is_box;
use crate::boxes::same_but_places;
use crate::boxes::shifted;
use crate::boxes::BoxModel;
use crate::boxes::LayoutBox;
use crate::boxes::LayoutTable;
use crate::flow::MarginRows;
use crate::raster::max2;

verus! {

broadcast use vstd::std_specs::hash::group_hash_axioms;

#[derive(Debug, Clone, Copy, PartialEq, Eq, Structural)]
pub enum StyleAlign {
    Left,
    Center,
    Right,
}

/// What a box's style says about its margins and its text.
#[derive(Debug, Clone, Copy, PartialEq, Eq, Structural)]
pub struct MarginStyle {
    pub left_auto: bool,
    pub right_auto: bool,
    pub top_auto: bool,
    pub bottom_auto: bool,
    pub text_align: StyleAlign,
}

/// The part of the free space that goes in front: half of it between two automatic margins, all
/// of it behind one in front, none otherwise.
pub open spec fn space_in_front(free_space: u32, first_auto: bool, last_auto: bool) -> u32 {
    if first_auto && last_auto {
        free_space / 2
    } else if first_auto {
        free_space
    } else {
        0
    }
}

pub fn get_margin_free_space_to_give(free_space: u32, first_auto: bool, last_auto: bool) -> (r: u32)
    ensures
        r == space_in_front(free_space, first_auto, last_auto),
{
    if first_auto && last_auto {
        free_space / 2
    } else if first_auto {
        free_space
    } else {
        0
    }
}

/// The widths of the first boxes of a line, added up; nothing where a partial sum leaves the
/// `i32` range.
pub open spec fn used_width(boxes: Seq<BoxModel>, row: Seq<usize>) -> Option<int>
    decreases row.len(),
{
    if row.len() == 0 {
        Some(0)
    } else {
        match used_width(boxes, row.drop_last()) {
            None => None,
            Some(used) => {
                let sum = used + (boxes[row.last() - 1].rect.width as i32);
                if in_i32(sum) {
                    Some(sum)
                } else {
                    None
                }
            },
        }
    }
}

/// Whether every child of a line has the text alignment `align`.
pub open spec fn all_aligned(facts: Seq<MarginStyle>, row: Seq<usize>, align: StyleAlign) -> bool {
    forall|k: int| 0 <= k < row.len() ==> facts[#[trigger] row[k] - 1].text_align == align
}

/// Which of the outer margins of a line count as automatic. A text alignment that all children of
/// the line share, other than to the left, overrules the margins themselves.
pub open spec fn outer_auto(facts: Seq<MarginStyle>, row: Seq<usize>) -> (bool, bool) {
    let first = facts[row.first() - 1];
    if first.text_align != StyleAlign::Left && all_aligned(facts, row, first.text_align) {
        (true, first.text_align == StyleAlign::Center)
    } else {
        (first.left_auto, facts[row.last() - 1].right_auto)
    }
}

/// How far to the right the children of a line go, before what they have been moved already.
pub open spec fn line_shift(
    boxes: Seq<BoxModel>,
    facts: Seq<MarginStyle>,
    row: Seq<usize>,
    container_width: i32,
) -> Option<u32> {
    match used_width(boxes, row) {
        None => None,
        Some(used) => if in_i32(container_width - used) {
            let autos = outer_auto(facts, row);
            Some(
                space_in_front(
                    max2(container_width - used, 0) as u32,
                    autos.0,
                    autos.1,
                ),
            )
        } else {
            None
        },
    }
}

/// The boxes after the children of a line have been moved, one after the other.
pub open spec fn line_moved(
    boxes: Seq<BoxModel>,
    row: Seq<usize>,
    moved_already: Map<usize, i32>,
    give_x: u32,
    give_y: u32,
) -> Option<Seq<BoxModel>>
    decreases row.len(),
{
    if row.len() == 0 {
        Some(boxes)
    } else {
        match line_moved(boxes, row.drop_last(), moved_already, give_x, give_y) {
            None => None,
            Some(before) => {
                let dx = (give_x as i32) - moved_already[row.last()];
                if in_i32(dx) {
                    shifted(before, row.last() as int, dx, (give_y as i32) as int)
                } else {
                    None
                }
            },
        }
    }
}

/// The boxes after the free space has been given to the margins of every line.
pub open spec fn lines_moved(
    boxes: Seq<BoxModel>,
    facts: Seq<MarginStyle>,
    lines: Seq<Seq<usize>>,
    moved_already: Map<usize, i32>,
    container_width: i32,
    give_y: u32,
) -> Option<Seq<BoxModel>>
    decreases lines.len(),
{
    if lines.len() == 0 {
        Some(boxes)
    } else {
        match lines_moved(
            boxes,
            facts,
            lines.drop_last(),
            moved_already,
            container_width,
            give_y,
        ) {
            None => None,
            Some(before) => match line_shift(before, facts, lines.last(), container_width) {
                None => None,
                Some(give_x) => line_moved(before, lines.last(), moved_already, give_x, give_y),
            },
        }
    }
}

/// The part of the free height that goes above the first line.
pub open spec fn height_in_front(
    facts: Seq<MarginStyle>,
    lines: Seq<Seq<usize>>,
    free_space_y: u32,
) -> u32 {
    if lines.len() == 0 {
        0
    } else {
        space_in_front(
            free_space_y,
            facts[lines.first().first() - 1].top_auto,
            facts[lines.last().last() - 1].bottom_auto,
        )
    }
}

/// Whether every entry of every line numbers a box.
pub open spec fn lines_of_boxes(boxes: Seq<BoxModel>, rows: Seq<Vec<usize>>) -> bool {
    forall|i: int, k: int|
        0 <= i < rows.len() && 0 <= k < rows[i]@.len() ==> is_box(
            boxes,
            #[trigger] rows[i]@[k] as int,
        )
}

fn row_used_width(boxes: &Vec<LayoutBox>, row: &Vec<usize>) -> (r: Option<i32>)
    requires
        forall|k: int| 0 <= k < row@.len() ==> is_box(boxes@, #[trigger] row@[k] as int),
    ensures
        match (r, used_width(box_models(boxes@), row@)) {
            (Some(used), Some(sum)) => used == sum,
            (None, None) => true,
            _ => false,
        },
{
    let mut used: i32 = 0;
    let mut at: usize = 0;
    while at < row.len()
        invariant
            at <= row@.len(),
            forall|k: int| 0 <= k < row@.len() ==> is_box(boxes@, #[trigger] row@[k] as int),
            used_width(box_models(boxes@), row@.take(at as int)) == Some(used as int),
        decreases row@.len() - at,
    {
        assert(is_box(boxes@, row@[at as int] as int));
        let ghost taken = row@.take(at + 1);
        assert(taken.drop_last() =~= row@.take(at as int));
        let sum: i64 = used as i64 + (boxes[row[at] - 1].rect.width as i32) as i64;
        if sum < i32::MIN as i64 || sum > i32::MAX as i64 {
            proof {
                lemma_used_prefix(box_models(boxes@), row@, at + 1);
            }
            return None;
        }
        used = sum as i32;
        at = at + 1;
    }
    assert(row@.take(row@.len() as int) =~= row@);
    Some(used)
}

proof fn lemma_used_prefix(boxes: Seq<BoxModel>, row: Seq<usize>, count: int)
    requires
        0 <= count <= row.len(),
        used_width(boxes, row.take(count)) is None,
    ensures
        used_width(boxes, row) is None,
    decreases row.len(),
{
    if count == row.len() {
        assert(row.take(count) =~= row);
    } else {
        assert(row.drop_last().take(count) =~= row.take(count));
        lemma_used_prefix(boxes, row.drop_last(), count);
    }
}

fn row_outer_auto(facts: &Vec<MarginStyle>, row: &Vec<usize>) -> (r: (bool, bool))
    requires
        row@.len() > 0,
        forall|k: int| 0 <= k < row@.len() ==> 1 <= #[trigger] row@[k] <= facts@.len(),
    ensures
        r == outer_auto(facts@, row@),
{
    assert(1 <= row@[0] <= facts@.len());
    assert(1 <= row@[row@.len() - 1] <= facts@.len());
    let first = facts[row[0] - 1];
    let last = facts[row[row.len() - 1] - 1];
    if first.text_align == StyleAlign::Left {
        return (first.left_auto, last.right_auto);
    }
    let mut at: usize = 0;
    while at < row.len()
        invariant
            at <= row@.len(),
            row@.len() > 0,
            forall|k: int| 0 <= k < row@.len() ==> 1 <= #[trigger] row@[k] <= facts@.len(),
            first == facts@[row@.first() - 1],
            last == facts@[row@.last() - 1],
            first.text_align != StyleAlign::Left,
            forall|k: int|
                0 <= k < at ==> facts@[#[trigger] row@[k] - 1].text_align == first.text_align,
        decreases row@.len() - at,
    {
        assert(1 <= row@[at as int] <= facts@.len());
        if facts[row[at] - 1].text_align != first.text_align {
            assert(!all_aligned(facts@, row@, first.text_align));
            return (first.left_auto, last.right_auto);
        }
        at = at + 1;
    }
    (true, first.text_align == StyleAlign::Center)
}

fn row_shift(
    boxes: &Vec<LayoutBox>,
    facts: &Vec<MarginStyle>,
    row: &Vec<usize>,
    container_width: i32,
) -> (r: Option<u32>)
    requires
        row@.len() > 0,
        facts@.len() == boxes@.len(),
        forall|k: int| 0 <= k < row@.len() ==> is_box(boxes@, #[trigger] row@[k] as int),
    ensures
        r == line_shift(box_models(boxes@), facts@, row@, container_width),
{
    let used: i32 = match row_used_width(boxes, row) {
        None => {
            return None;
        },
        Some(used) => used,
    };
    let free: i64 = container_width as i64 - used as i64;
    if free < i32::MIN as i64 || free > i32::MAX as i64 {
        return None;
    }
    proof {
        assert forall|k: int| 0 <= k < row@.len() implies 1 <= #[trigger] row@[k]
            <= facts@.len() by {
            assert(is_box(boxes@, row@[k] as int));
        }
    }
    let (first_auto, last_auto) = row_outer_auto(facts, row);
    Some(get_margin_free_space_to_give((free as i32).max(0) as u32, first_auto, last_auto))
}

proof fn lemma_line_prefix(
    boxes: Seq<BoxModel>,
    row: Seq<usize>,
    moved_already: Map<usize, i32>,
    give_x: u32,
    give_y: u32,
    count: int,
)
    requires
        0 <= count <= row.len(),
        line_moved(boxes, row.take(count), moved_already, give_x, give_y) is None,
    ensures
        line_moved(boxes, row, moved_already, give_x, give_y) is None,
    decreases row.len(),
{
    if count == row.len() {
        assert(row.take(count) =~= row);
    } else {
        assert(row.drop_last().take(count) =~= row.take(count));
        lemma_line_prefix(boxes, row.drop_last(), moved_already, give_x, give_y, count);
    }
}

proof fn lemma_lines_prefix(
    boxes: Seq<BoxModel>,
    facts: Seq<MarginStyle>,
    lines: Seq<Seq<usize>>,
    moved_already: Map<usize, i32>,
    container_width: i32,
    give_y: u32,
    count: int,
)
    requires
        0 <= count <= lines.len(),
        lines_moved(boxes, facts, lines.take(count), moved_already, container_width, give_y)
            is None,
    ensures
        lines_moved(boxes, facts, lines, moved_already, container_width, give_y) is None,
    decreases lines.len(),
{
    if count == lines.len() {
        assert(lines.take(count) =~= lines);
    } else {
        assert(lines.drop_last().take(count) =~= lines.take(count));
        lemma_lines_prefix(
            boxes,
            facts,
            lines.drop_last(),
            moved_already,
            container_width,
            give_y,
            count,
        );
    }
}

fn move_row(table: &mut LayoutTable, rows: &MarginRows, at: usize, give_x: u32, give_y: u32) -> (ok:
    bool)
    requires
        at < rows.rows@.len(),
        rows.wf(),
        children_first(old(table).models()),
    ensures
        match line_moved(
            old(table).models(),
            rows.rows@[at as int]@,
            rows.alignment_movements@,
            give_x,
            give_y,
        ) {
            None => !ok,
            Some(boxes) => ok && final(table).models() == boxes,
        },
        children_first(final(table).models()),
        same_but_places(old(table).models(), final(table).models()),
        final(table).node_layout == old(table).node_layout,
{
    let row = &rows.rows[at];
    let ghost before = table.models();
    let ghost moved_already = rows.alignment_movements@;
    let mut k: usize = 0;
    while k < row.len()
        invariant
            k <= row@.len(),
            at < rows.rows@.len(),
            row@ == rows.rows@[at as int]@,
            rows.wf(),
            moved_already == rows.alignment_movements@,
            before == old(table).models(),
            children_first(table.models()),
            same_but_places(before, table.models()),
            table.node_layout == old(table).node_layout,
            line_moved(before, row@.take(k as int), moved_already, give_x, give_y) == Some(
                table.models(),
            ),
        decreases row@.len() - k,
    {
        let ghost taken = row@.take(k + 1);
        proof {
            assert(taken.drop_last() =~= row@.take(k as int));
            assert(taken.last() == row@[k as int]);
            assert(rows.rows@[at as int]@[k as int] == row@[k as int]);
            if line_moved(before, taken, moved_already, give_x, give_y) is None {
                lemma_line_prefix(before, row@, moved_already, give_x, give_y, k + 1);
            }
        }
        let child: usize = row[k];
        let moved: i32 = *rows.alignment_movements.get(&child).unwrap();
        let dx: i64 = (give_x as i32) as i64 - moved as i64;
        if dx < i32::MIN as i64 || dx > i32::MAX as i64 {
            return false;
        }
        if !table.move_entire_box(child, dx as i32, give_y as i32) {
            return false;
        }
        k = k + 1;
    }
    assert(row@.take(row@.len() as int) =~= row@);
    true
}

/// Gives the free space of a container to the automatic margins of its lines by moving the boxes
/// on them. The result is `false` where a coordinate leaves the `i32` range.
pub fn divide_free_space_for_margin(
    table: &mut LayoutTable,
    facts: &Vec<MarginStyle>,
    children_rows: &MarginRows,
    container_width: i32,
    free_space_y: u32,
) -> (ok: bool)
    requires
        children_rows.wf(),
        children_rows.no_empty_row(),
        lines_of_boxes(old(table).models(), children_rows.rows@),
        facts@.len() == old(table).models().len(),
        children_first(old(table).models()),
    ensures
        match lines_moved(
            old(table).models(),
            facts@,
            children_rows.lines(),
            children_rows.alignment_movements@,
            container_width,
            height_in_front(facts@, children_rows.lines(), free_space_y),
        ) {
            None => !ok,
            Some(boxes) => ok && final(table).models() == boxes,
        },
        children_first(final(table).models()),
        same_but_places(old(table).models(), final(table).models()),
        final(table).node_layout == old(table).node_layout,
{
    let ghost lines = children_rows.lines();
    let ghost before = table.models();
    let mut give_y: u32 = 0;
    let count: usize = children_rows.rows.len();
    if count > 0 {
        let first_row = &children_rows.rows[0];
        let last_row = &children_rows.rows[count - 1];
        assert(first_row@.len() > 0 && last_row@.len() > 0);
        proof {
            assert(is_box(before, children_rows.rows@[0]@[0] as int));
            assert(is_box(before, children_rows.rows@[count - 1]@[last_row@.len() - 1] as int));
            assert(lines.first() == first_row@ && lines.last() == last_row@);
        }
        let first = facts[first_row[0] - 1];
        let last = facts[last_row[last_row.len() - 1] - 1];
        give_y = get_margin_free_space_to_give(free_space_y, first.top_auto, last.bottom_auto);
    }
    assert(give_y == height_in_front(facts@, lines, free_space_y));
    let mut at: usize = 0;
    while at < count
        invariant
            at <= count,
            count == children_rows.rows@.len(),
            lines == children_rows.lines(),
            give_y == height_in_front(facts@, lines, free_space_y),
            before == old(table).models(),
            children_rows.wf(),
            children_rows.no_empty_row(),
            lines_of_boxes(before, children_rows.rows@),
            facts@.len() == before.len(),
            children_first(table.models()),
            same_but_places(before, table.models()),
            table.node_layout == old(table).node_layout,
            lines_moved(
                before,
                facts@,
                lines.take(at as int),
                children_rows.alignment_movements@,
                container_width,
                give_y,
            ) == Some(table.models()),
        decreases count - at,
    {
        let ghost taken = lines.take(at + 1);
        let row = &children_rows.rows[at];
        proof {
            assert(taken.drop_last() =~= lines.take(at as int));
            assert(taken.last() == row@);
            if lines_moved(
                before,
                facts@,
                taken,
                children_rows.alignment_movements@,
                container_width,
                give_y,
            ) is None {
                lemma_lines_prefix(
                    before,
                    facts@,
                    lines,
                    children_rows.alignment_movements@,
                    container_width,
                    give_y,
                    at + 1,
                );
            }
            assert forall|k: int| 0 <= k < row@.len() implies is_box(
                table.models(),
                #[trigger] row@[k] as int,
            ) by {
                assert(is_box(before, children_rows.rows@[at as int]@[k] as int));
            }
        }
        let give_x: u32 = match row_shift(&table.boxes, facts, row, container_width) {
            None => {
                return false;
            },
            Some(give_x) => give_x,
        };
        if !move_row(table, children_rows, at, give_x, give_y) {
            return false;
        }
        at = at + 1;
    }
    assert(lines.take(lines.len() as int) =~= lines);
    true
}

/// Where the children of a line have been moved by the same amounts, they are moved alike.
proof fn lemma_line_agrees(
    boxes: Seq<BoxModel>,
    row: Seq<usize>,
    first: Map<usize, i32>,
    second: Map<usize, i32>,
    give_x: u32,
    give_y: u32,
)
    requires
        forall|k: int| 0 <= k < row.len() ==> first[#[trigger] row[k]] == second[row[k]],
    ensures
        line_moved(boxes, row, first, give_x, give_y) == line_moved(
            boxes,
            row,
            second,
            give_x,
            give_y,
        ),
    decreases row.len(),
{
    if row.len() > 0 {
        lemma_line_agrees(boxes, row.drop_last(), first, second, give_x, give_y);
        assert(first[row[row.len() - 1]] == second[row[row.len() - 1]]);
    }
}

/// Where the children of all lines have been moved by the same amounts, the lines are moved alike.
pub proof fn lemma_lines_agree(
    boxes: Seq<BoxModel>,
    facts: Seq<MarginStyle>,
    lines: Seq<Seq<usize>>,
    first: Map<usize, i32>,
    second: Map<usize, i32>,
    container_width: i32,
    give_y: u32,
)
    requires
        forall|i: int, k: int|
            0 <= i < lines.len() && 0 <= k < lines[i].len() ==> first[#[trigger] lines[i][k]]
                == second[lines[i][k]],
    ensures
        lines_moved(boxes, facts, lines, first, container_width, give_y) == lines_moved(
            boxes,
            facts,
            lines,
            second,
            container_width,
            give_y,
        ),
    decreases lines.len(),
{
    if lines.len() > 0 {
        assert forall|i: int, k: int|
            0 <= i < lines.drop_last().len() && 0 <= k
                < lines.drop_last()[i].len() implies first[#[trigger] lines.drop_last()[i][k]]
            == second[lines.drop_last()[i][k]] by {
            assert(lines.drop_last()[i] == lines[i]);
            assert(first[lines[i][k]] == second[lines[i][k]]);
        }
        lemma_lines_agree(
            boxes,
            facts,
            lines.drop_last(),
            first,
            second,
            container_width,
            give_y,
        );
        let row = lines.last();
        assert forall|k: int| 0 <= k < row.len() implies first[#[trigger] row[k]]
            == second[row[k]] by {
            assert(first[lines[lines.len() - 1][k]] == second[lines[lines.len() - 1][k]]);
        }
        match lines_moved(
            boxes,
            facts,
            lines.drop_last(),
            first,
            container_width,
            give_y,
        ) {
            Some(before) => match line_shift(before, facts, row, container_width) {
                Some(give_x) => {
                    lemma_line_agrees(before, row, first, second, give_x, give_y);
                },
                None => {},
            },
            None => {},
        }
    }
}

/// Automatic margins on both sides of a line centre it: the space in front and the space behind
/// differ by at most one pixel. One in front pushes the line to the end.
pub proof fn lemma_automatic_margins(free_space: u32)
    ensures
        0 <= (free_space - space_in_front(free_space, true, true)) - space_in_front(
            free_space,
            true,
            true,
        ) <= 1,
        space_in_front(free_space, true, false) == free_space,
        space_in_front(free_space, false, true) == 0,
        space_in_front(free_space, false, false) == 0,
{
}

} // verus!
