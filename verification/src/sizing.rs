//! The sizes of boxes: what a style asks for, what its surroundings allow, and what is left
//! inside.
use vstd::prelude::*;

use crate::boxes::in_i32;
use crate::paint::StylePosition;
use crate::raster::max2;
use crate::raster::min2;

verus! {

#[derive(Debug, Clone, Copy, PartialEq, Eq, Structural)]
pub struct Size {
    pub width: u32,
    pub height: u32,
}

#[derive(Debug, Clone, Copy, PartialEq, Eq, Structural)]
pub struct OptionalSize {
    pub width: Option<u32>,
    pub height: Option<u32>,
}

#[derive(Debug, Clone, Copy, PartialEq, Eq, Structural)]
pub struct Position {
    pub x: i32,
    pub y: i32,
}

/// Resolved lengths for the four sides of a box.
#[derive(Debug, Clone, Copy, PartialEq, Eq, Structural)]
pub struct Edges {
    pub left: i32,
    pub right: i32,
    pub top: i32,
    pub bottom: i32,
}

/// The sizes that a style asks for, resolved to pixels where they are lengths.
#[derive(Debug, Clone, Copy, PartialEq, Eq, Structural)]
pub struct SpecifiedSizes {
    pub width: Option<i32>,
    pub height: Option<i32>,
    pub min_width: Option<i32>,
    pub max_width: Option<i32>,
    pub min_height: Option<i32>,
    pub max_height: Option<i32>,
}

#[derive(Debug, Clone, Copy, PartialEq, Eq, Structural)]
pub struct ContainerSizes {
    pub inner_width: u32,
    pub inner_height: u32,
    pub container_width: u32,
    pub container_width_non_filling: Option<u32>,
    pub container_height: u32,
    pub container_height_non_filling: Option<u32>,
    pub min_height: Option<u32>,
    pub max_height: Option<u32>,
    pub min_width: Option<u32>,
    pub max_width: Option<u32>,
    pub padding_x: u32,
    pub has_specified_height: bool,
}

/// `value` held under an upper and then over a lower bound, where they are given.
pub open spec fn bounded(value: u32, lower: Option<u32>, upper: Option<u32>) -> u32 {
    let capped = match upper {
        Some(upper) => min2(value as int, upper as int),
        None => value as int,
    };
    match lower {
        Some(lower) => max2(capped, lower as int) as u32,
        None => capped as u32,
    }
}

/// `value` held under an upper and then over a lower bound, where they are given. The lower bound
/// wins where the two cross.
pub fn hold_between(value: u32, lower: Option<u32>, upper: Option<u32>) -> (r: u32)
    ensures
        r == bounded(value, lower, upper),
{
    let capped: u32 = match upper {
        Some(upper) => value.min(upper),
        None => value,
    };
    match lower {
        Some(lower) => capped.max(lower),
        None => capped,
    }
}

/// A resolved length read as an unsigned size.
pub open spec fn as_size(length: Option<i32>) -> Option<u32> {
    match length {
        Some(length) => Some(length as u32),
        None => None,
    }
}

pub fn to_size(length: Option<i32>) -> (r: Option<u32>)
    ensures
        r == as_size(length),
{
    match length {
        Some(length) => Some(length as u32),
        None => None,
    }
}

/// The first of two sizes that is given.
pub open spec fn either(first: Option<u32>, second: Option<u32>) -> Option<u32> {
    match first {
        Some(_) => first,
        None => second,
    }
}

pub fn first_given(first: Option<u32>, second: Option<u32>) -> (r: Option<u32>)
    ensures
        r == either(first, second),
{
    match first {
        Some(_) => first,
        None => second,
    }
}

impl ContainerSizes {
    pub open spec fn width_within(self, value: u32) -> u32 {
        bounded(value, self.min_width, self.max_width)
    }

    /// Holds a width between the style's limits.
    pub fn clamp_width(&self, value: u32) -> (r: u32)
        ensures
            r == self.width_within(value),
    {
        hold_between(value, self.min_width, self.max_width)
    }

    /// The width of a container that does not fill its surroundings.
    pub open spec fn actual_width(self, used_width: u32) -> int {
        match self.container_width_non_filling {
            Some(width) => width as int,
            None => self.width_within(used_width) + self.padding_x,
        }
    }

    /// The width of a container that does not fill its surroundings: the width that the style asks
    /// for, else what the content uses, held between the limits, and the padding.
    pub fn compute_actual_container_width(&self, used_width: u32) -> (r: u32)
        requires
            self.width_within(used_width) + self.padding_x <= u32::MAX,
        ensures
            r == self.actual_width(used_width),
    {
        let content: u32 = self.clamp_width(used_width) + self.padding_x;
        match self.container_width_non_filling {
            Some(width) => width,
            None => content,
        }
    }

    /// The height and width of an image that has not arrived, before the limits are applied.
    pub open spec fn placeholder(self) -> (int, int) {
        match (self.container_height_non_filling, self.container_width_non_filling) {
            (Some(height), Some(width)) => (height as int, width as int),
            (Some(height), None) => (height as int, min2(height * 2, u32::MAX as int)),
            (None, Some(width)) => ((width / 2) as int, width as int),
            (None, None) => (150, 300),
        }
    }

    /// The height and width to reserve for an image that has not arrived: twice as wide as high
    /// unless the style says otherwise.
    pub fn image_placeholder_size(&self, max_width: u32, max_height: u32) -> (r: (u32, u32))
        ensures
            r.0 == min2(
                max2(
                    self.placeholder().0,
                    match self.min_height {
                        Some(min) => min as int,
                        None => 0,
                    },
                ),
                max_height as int,
            ),
            r.1 == min2(
                max2(
                    self.placeholder().1,
                    match self.min_width {
                        Some(min) => min as int,
                        None => 0,
                    },
                ),
                max_width as int,
            ),
    {
        let (height, width): (u32, u32) = match (
            self.container_height_non_filling,
            self.container_width_non_filling,
        ) {
            (Some(height), Some(width)) => (height, width),
            (Some(height), None) => (
                height,
                if height > u32::MAX / 2 {
                    u32::MAX
                } else {
                    height * 2
                },
            ),
            (None, Some(width)) => (width / 2, width),
            (None, None) => (150, 300),
        };
        let min_height: u32 = match self.min_height {
            Some(min) => min,
            None => 0,
        };
        let min_width: u32 = match self.min_width {
            Some(min) => min,
            None => 0,
        };
        (height.max(min_height).min(max_height), width.max(min_width).min(max_width))
    }
}

/// The sum of two edge pairs, added from the left; nothing where a partial sum leaves the `i32`
/// range.
pub open spec fn edge_sum(a: i32, b: i32, c: i32, d: i32) -> Option<i32> {
    if in_i32(a + b) && in_i32(a + b + c) && in_i32(a + b + c + d) {
        Some((a + b + c + d) as i32)
    } else {
        None
    }
}

fn sum_edges(a: i32, b: i32, c: i32, d: i32) -> (r: Option<i32>)
    ensures
        r == edge_sum(a, b, c, d),
{
    match a.checked_add(b) {
        None => None,
        Some(two) => match two.checked_add(c) {
            None => None,
            Some(three) => three.checked_add(d),
        },
    }
}

pub open spec fn less(size: u32, amount: u32) -> u32 {
    if amount <= size {
        (size - amount) as u32
    } else {
        0
    }
}

/// The sizes of a container, from what is forced on it, what its style asks for, what is
/// available and what its padding and border take. Nothing where the padding and border do not
/// add up within the `i32` range.
pub open spec fn container_sizes(
    specified: SpecifiedSizes,
    forced: OptionalSize,
    available: Size,
    padding: Edges,
    border: Edges,
) -> Option<ContainerSizes> {
    let across = edge_sum(padding.left, padding.right, border.left, border.right);
    let down = edge_sum(padding.top, padding.bottom, border.top, border.bottom);
    let min_width = as_size(specified.min_width);
    let max_width = as_size(specified.max_width);
    let min_height = as_size(specified.min_height);
    let max_height = as_size(specified.max_height);
    let wanted_width = either(forced.width, as_size(specified.width));
    let wanted_height = either(forced.height, as_size(specified.height));
    let width = bounded(
        match wanted_width {
            Some(width) => width,
            None => available.width,
        },
        min_width,
        max_width,
    );
    let height = bounded(
        match either(wanted_height, min_height) {
            Some(height) => height,
            None => available.height,
        },
        min_height,
        max_height,
    );
    match (across, down) {
        (Some(across), Some(down)) => Some(
            ContainerSizes {
                inner_width: less(width, across as u32),
                inner_height: less(height, down as u32),
                container_width: width,
                container_width_non_filling: match wanted_width {
                    Some(wanted) => Some(bounded(wanted, min_width, max_width)),
                    None => None,
                },
                container_height: height,
                container_height_non_filling: match wanted_height {
                    Some(wanted) => Some(bounded(wanted, min_height, max_height)),
                    None => None,
                },
                min_height,
                max_height,
                min_width,
                max_width,
                padding_x: (padding.left + padding.right) as i32 as u32,
                has_specified_height: wanted_height is Some,
            },
        ),
        _ => None,
    }
}

/// The sizes of a container, from what is forced on it, what its style asks for, what is
/// available and what its padding and border take. Nothing where the padding and border do not
/// add up within the `i32` range.
pub fn get_container_sizes(
    specified: &SpecifiedSizes,
    forced_size: &OptionalSize,
    available_size: &Size,
    padding: &Edges,
    border: &Edges,
) -> (r: Option<ContainerSizes>)
    ensures
        r == container_sizes(*specified, *forced_size, *available_size, *padding, *border),
{
    let across: i32 = match sum_edges(padding.left, padding.right, border.left, border.right) {
        None => {
            return None;
        },
        Some(across) => across,
    };
    let down: i32 = match sum_edges(padding.top, padding.bottom, border.top, border.bottom) {
        None => {
            return None;
        },
        Some(down) => down,
    };
    let min_width = to_size(specified.min_width);
    let max_width = to_size(specified.max_width);
    let min_height = to_size(specified.min_height);
    let max_height = to_size(specified.max_height);
    let wanted_width = first_given(forced_size.width, to_size(specified.width));
    let wanted_height = first_given(forced_size.height, to_size(specified.height));
    let width: u32 = hold_between(
        match wanted_width {
            Some(width) => width,
            None => available_size.width,
        },
        min_width,
        max_width,
    );
    let height: u32 = hold_between(
        match first_given(wanted_height, min_height) {
            Some(height) => height,
            None => available_size.height,
        },
        min_height,
        max_height,
    );
    Some(
        ContainerSizes {
            inner_width: width.saturating_sub(across as u32),
            inner_height: height.saturating_sub(down as u32),
            container_width: width,
            container_width_non_filling: match wanted_width {
                Some(wanted) => Some(hold_between(wanted, min_width, max_width)),
                None => None,
            },
            container_height: height,
            container_height_non_filling: match wanted_height {
                Some(wanted) => Some(hold_between(wanted, min_height, max_height)),
                None => None,
            },
            min_height,
            max_height,
            min_width,
            max_width,
            padding_x: (padding.left + padding.right) as u32,
            has_specified_height: wanted_height.is_some(),
        },
    )
}

/// What is inside a container is never larger than the container.
pub proof fn lemma_inside_within_container(
    specified: SpecifiedSizes,
    forced: OptionalSize,
    available: Size,
    padding: Edges,
    border: Edges,
)
    ensures
        container_sizes(specified, forced, available, padding, border) matches Some(sizes)
            ==> sizes.inner_width <= sizes.container_width && sizes.inner_height
            <= sizes.container_height,
{
}

/// A container keeps its minimum size whatever is available or asked for, also where the minimum
/// exceeds the maximum; and it keeps its maximum size where that is at least the minimum.
pub proof fn lemma_container_keeps_limits(
    specified: SpecifiedSizes,
    forced: OptionalSize,
    available: Size,
    padding: Edges,
    border: Edges,
)
    ensures
        container_sizes(specified, forced, available, padding, border) matches Some(sizes) ==> {
            &&& sizes.min_width matches Some(min) ==> sizes.container_width >= min
            &&& sizes.min_height matches Some(min) ==> sizes.container_height >= min
            &&& sizes.max_width matches Some(max) ==> (sizes.min_width matches Some(min) ==> min
                <= max) ==> sizes.container_width <= max
            &&& sizes.max_height matches Some(max) ==> (sizes.min_height matches Some(min) ==> min
                <= max) ==> sizes.container_height <= max
        },
{
}

/// The sizes that layout has resolved for nodes so far. An entry is absent where the vector is
/// too short or holds `None`.
pub struct ResolvedSizes {
    pub content: Vec<Option<OptionalSize>>,
    pub heights: Vec<Option<u32>>,
    pub widths: Vec<Option<u32>>,
    pub specified_heights: Vec<Option<u32>>,
    pub specified_widths: Vec<Option<u32>>,
}

/// What [`ResolvedSizes`] holds.
#[verifier::ext_equal]
pub struct SizesModel {
    pub content: Seq<Option<OptionalSize>>,
    pub heights: Seq<Option<u32>>,
    pub widths: Seq<Option<u32>>,
    pub specified_heights: Seq<Option<u32>>,
    pub specified_widths: Seq<Option<u32>>,
}

impl View for ResolvedSizes {
    type V = SizesModel;

    open spec fn view(&self) -> SizesModel {
        SizesModel {
            content: self.content@,
            heights: self.heights@,
            widths: self.widths@,
            specified_heights: self.specified_heights@,
            specified_widths: self.specified_widths@,
        }
    }
}

/// A table after an entry has been set. What lies outside the table is not kept.
pub open spec fn with_entry<T>(table: Seq<Option<T>>, node_idx: int, value: Option<T>) -> Seq<
    Option<T>,
> {
    if 0 <= node_idx < table.len() {
        table.update(node_idx, value)
    } else {
        table
    }
}

impl SizesModel {
    pub open spec fn with_specified(
        self,
        node_idx: int,
        height: Option<u32>,
        width: Option<u32>,
    ) -> SizesModel {
        SizesModel {
            specified_heights: with_entry(self.specified_heights, node_idx, height),
            specified_widths: with_entry(self.specified_widths, node_idx, width),
            ..self
        }
    }

    pub open spec fn with_content(self, node_idx: int, size: OptionalSize) -> SizesModel {
        SizesModel { content: with_entry(self.content, node_idx, Some(size)), ..self }
    }

    pub open spec fn with_resolved(
        self,
        node_idx: int,
        height: Option<u32>,
        width: Option<u32>,
    ) -> SizesModel {
        SizesModel {
            heights: with_entry(self.heights, node_idx, height),
            widths: with_entry(self.widths, node_idx, width),
            ..self
        }
    }
}

fn set_size_entry(table: &mut Vec<Option<u32>>, node_idx: usize, value: Option<u32>)
    ensures
        final(table)@ == with_entry(old(table)@, node_idx as int, value),
{
    if node_idx < table.len() {
        table[node_idx] = value;
    }
}

impl ResolvedSizes {
    /// Tables for `count` nodes, of which nothing is known.
    pub fn new(count: usize) -> (r: ResolvedSizes)
        ensures
            r@.content == Seq::new(count as nat, |i: int| None::<OptionalSize>),
            r@.heights == Seq::new(count as nat, |i: int| None::<u32>),
            r@.widths == Seq::new(count as nat, |i: int| None::<u32>),
            r@.specified_heights == Seq::new(count as nat, |i: int| None::<u32>),
            r@.specified_widths == Seq::new(count as nat, |i: int| None::<u32>),
    {
        let mut r = ResolvedSizes {
            content: Vec::new(),
            heights: Vec::new(),
            widths: Vec::new(),
            specified_heights: Vec::new(),
            specified_widths: Vec::new(),
        };
        let mut at: usize = 0;
        while at < count
            invariant
                at <= count,
                r@.content == Seq::new(at as nat, |i: int| None::<OptionalSize>),
                r@.heights == Seq::new(at as nat, |i: int| None::<u32>),
                r@.widths == Seq::new(at as nat, |i: int| None::<u32>),
                r@.specified_heights == Seq::new(at as nat, |i: int| None::<u32>),
                r@.specified_widths == Seq::new(at as nat, |i: int| None::<u32>),
            decreases count - at,
        {
            r.content.push(None);
            r.heights.push(None);
            r.widths.push(None);
            r.specified_heights.push(None);
            r.specified_widths.push(None);
            at = at + 1;
        }
        r
    }

    /// Notes the height and width that are asked of a node.
    pub fn set_specified(&mut self, node_idx: usize, height: Option<u32>, width: Option<u32>)
        ensures
            final(self)@ == old(self)@.with_specified(node_idx as int, height, width),
    {
        set_size_entry(&mut self.specified_heights, node_idx, height);
        set_size_entry(&mut self.specified_widths, node_idx, width);
    }

    /// Notes the size of the inside of a node.
    pub fn set_content(&mut self, node_idx: usize, size: OptionalSize)
        ensures
            final(self)@ == old(self)@.with_content(node_idx as int, size),
    {
        if node_idx < self.content.len() {
            self.content[node_idx] = Some(size);
        }
    }

    /// Notes, or forgets, the height and width of a node.
    pub fn set_resolved(&mut self, node_idx: usize, height: Option<u32>, width: Option<u32>)
        ensures
            final(self)@ == old(self)@.with_resolved(node_idx as int, height, width),
    {
        set_size_entry(&mut self.heights, node_idx, height);
        set_size_entry(&mut self.widths, node_idx, width);
    }
}

pub open spec fn entry<T>(table: Seq<Option<T>>, node_idx: int) -> Option<T> {
    if 0 <= node_idx < table.len() {
        table[node_idx]
    } else {
        None
    }
}

fn size_entry(table: &Vec<Option<u32>>, node_idx: usize) -> (r: Option<u32>)
    ensures
        r == entry(table@, node_idx as int),
{
    if node_idx < table.len() {
        table[node_idx]
    } else {
        None
    }
}

fn content_entry(table: &Vec<Option<OptionalSize>>, node_idx: usize) -> (r: Option<OptionalSize>)
    ensures
        r == entry(table@, node_idx as int),
{
    if node_idx < table.len() {
        table[node_idx]
    } else {
        None
    }
}

/// The height and width that percentages of a node refer to.
pub open spec fn containing_block(
    sizes: SizesModel,
    position: StylePosition,
    parent: Option<usize>,
    containing_node_idx: usize,
    is_root: bool,
    window: Size,
) -> (Option<u32>, Option<u32>) {
    let root_height = if is_root {
        Some(window.height)
    } else {
        None
    };
    let root_width = if is_root {
        Some(window.width)
    } else {
        None
    };
    match (position.leaves_flow(), parent) {
        (true, _) => {
            let block = containing_node_idx as int;
            (
                either(
                    either(
                        entry(sizes.heights, block),
                        entry(sizes.specified_heights, block),
                    ),
                    root_height,
                ),
                either(
                    either(entry(sizes.widths, block), entry(sizes.specified_widths, block)),
                    root_width,
                ),
            )
        },
        (false, Some(parent)) => match entry(sizes.content, parent as int) {
            Some(content) => (either(content.height, root_height), either(
                content.width,
                root_width,
            )),
            None => (root_height, root_width),
        },
        (false, None) => (root_height, root_width),
    }
}

/// The height and width that percentages of a node refer to: the inside of its parent, or for a
/// node out of the flow its containing node; the root falls back on the window.
pub fn get_containing_block_size(
    sizes: &ResolvedSizes,
    position: StylePosition,
    parent: Option<usize>,
    containing_node_idx: usize,
    is_root: bool,
    window: &Size,
) -> (r: (Option<u32>, Option<u32>))
    ensures
        r == containing_block(sizes@, position, parent, containing_node_idx, is_root, *window),
{
    let root_height = if is_root {
        Some(window.height)
    } else {
        None
    };
    let root_width = if is_root {
        Some(window.width)
    } else {
        None
    };
    if position.is_free() {
        let height = first_given(
            size_entry(&sizes.heights, containing_node_idx),
            size_entry(&sizes.specified_heights, containing_node_idx),
        );
        let width = first_given(
            size_entry(&sizes.widths, containing_node_idx),
            size_entry(&sizes.specified_widths, containing_node_idx),
        );
        return (first_given(height, root_height), first_given(width, root_width));
    }
    match parent {
        Some(parent) => match content_entry(&sizes.content, parent) {
            Some(content) => (
                first_given(content.height, root_height),
                first_given(content.width, root_width),
            ),
            None => (root_height, root_width),
        },
        None => (root_height, root_width),
    }
}

/// The width that percentages of a container's own sizes refer to: the containing block's where
/// that is not zero, else what is available.
pub open spec fn usable_width(containing_block_width: Option<u32>, available_width: u32) -> u32 {
    match containing_block_width {
        Some(width) if width > 0 => width,
        _ => available_width,
    }
}

pub fn usable_block_width(containing_block_width: Option<u32>, available_width: u32) -> (r: u32)
    ensures
        r == usable_width(containing_block_width, available_width),
{
    match containing_block_width {
        Some(width) => if width > 0 {
            width
        } else {
            available_width
        },
        None => available_width,
    }
}

pub open spec fn content_box(sizes: ContainerSizes) -> OptionalSize {
    OptionalSize {
        width: Some(sizes.inner_width),
        height: if sizes.has_specified_height {
            Some(sizes.inner_height)
        } else {
            None
        },
    }
}

/// The size that a node's own percentages see once it is laid out: its height only where that was
/// specified.
pub fn content_size(sizes: &ContainerSizes) -> (r: OptionalSize)
    ensures
        r == content_box(*sizes),
{
    OptionalSize {
        width: Some(sizes.inner_width),
        height: if sizes.has_specified_height {
            Some(sizes.inner_height)
        } else {
            None
        },
    }
}

} // verus!
