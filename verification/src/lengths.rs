//! What layout reads of a node and its style, and the lengths of a style in pixels.
use vstd::prelude::*;

use crate::boxes::in_i32;
use crate::boxes::StyleBackground;
use crate::boxes::StyleBorderStyle;
use crate::calc::get_specified_size;
use crate::calc::size_value;
use crate::calc::CalcError;
use crate::calc::Share;
use crate::calc::SizeContext;
use crate::calc::SizeTerm;
use crate::calc::SizeUnit;
use crate::flex::StyleFlexDirection;
use crate::flex::StyleJustifyContent;
use crate::margins::MarginStyle;
use crate::margins::StyleAlign;
use crate::needs::Need;
use crate::paint::StylePosition;
use crate::sizing::as_size;
use crate::sizing::container_sizes;
use crate::sizing::containing_block;
use crate::sizing::either;
use crate::sizing::first_given;
use crate::sizing::get_container_sizes;
use crate::sizing::get_containing_block_size;
use crate::sizing::to_size;
use crate::sizing::usable_block_width;
use crate::sizing::usable_width;
use crate::sizing::ContainerSizes;
use crate::sizing::Edges;
use crate::sizing::OptionalSize;
use crate::sizing::ResolvedSizes;
use crate::sizing::Size;
use crate::sizing::SizesModel;
use crate::sizing::SpecifiedSizes;
use crate::stylesheet::StyleDisplay;
use crate::stylesheet::StyleZIndex;

verus! {

/// Why a layout could not be finished.
#[derive(Debug, Clone, Copy, PartialEq, Eq, Structural)]
pub enum Stop {
    /// Something has to be measured or drawn first.
    Need(Need),
    /// A number left the range of its type.
    Range,
    /// A length could not be worked out.
    Length(CalcError),
    /// Nodes are nested deeper than there are nodes.
    Depth,
    /// A node is missing, or has no style.
    NoStyle,
    /// A child out of the flow has no containing node.
    NoContainingNode,
    /// The text of a form control cannot be shown.
    InputText,
    /// An item stands in a `minmax()` track whose lower end is a fraction, or the sizes of a grid
    /// with such a track leave the range of their type.
    Template,
}

/// A length for each side of a box.
#[derive(Debug)]
pub struct Sides {
    pub left: SizeTerm,
    pub right: SizeTerm,
    pub top: SizeTerm,
    pub bottom: SizeTerm,
}

#[derive(Debug)]
pub struct StyleBorder {
    pub style: StyleBorderStyle,
    pub size: SizeTerm,
    pub color: StyleBackground,
}

#[derive(Debug)]
pub struct Borders {
    pub left: StyleBorder,
    pub right: StyleBorder,
    pub top: StyleBorder,
    pub bottom: StyleBorder,
}

#[derive(Debug)]
pub struct Corners {
    pub top_left: SizeTerm,
    pub top_right: SizeTerm,
    pub bottom_right: SizeTerm,
    pub bottom_left: SizeTerm,
}

/// The width of a column or the height of a row.
#[derive(Debug, Clone, Copy, PartialEq, Eq, Structural)]
pub enum TrackLength {
    Px(i32),
    Share(Share),
    Fraction(i32),
    Auto,
}

#[derive(Debug, Clone, Copy, PartialEq, Eq, Structural)]
pub enum TrackStyle {
    Size(TrackLength),
    MinMax(TrackLength, TrackLength),
}

/// What layout reads of a style. Lengths that depend on the font are resolved already.
#[derive(Debug)]
pub struct LayoutStyle {
    pub font_size: u32,
    pub display: StyleDisplay,
    pub position: StylePosition,
    pub width: SizeTerm,
    pub height: SizeTerm,
    pub min_width: SizeTerm,
    pub max_width: SizeTerm,
    pub min_height: SizeTerm,
    pub max_height: SizeTerm,
    pub padding: Sides,
    pub margin: Sides,
    pub border: Borders,
    pub border_radius: Corners,
    /// The distances to the sides of the containing node.
    pub inset: Sides,
    pub gap: SizeTerm,
    pub flex_basis: SizeTerm,
    pub flex_direction: StyleFlexDirection,
    pub justify_content: StyleJustifyContent,
    pub justify_items: StyleJustifyContent,
    pub align_items: StyleJustifyContent,
    pub align_self: StyleJustifyContent,
    pub order: i32,
    pub flex_shrink: u32,
    pub flex_grow: u32,
    pub grid_template_columns: Option<Vec<TrackStyle>>,
    pub grid_template_rows: Option<Vec<TrackStyle>>,
    pub grid_column_span: i32,
    pub z_index: StyleZIndex,
    pub text_align: StyleAlign,
    pub background: StyleBackground,
    pub color: StyleBackground,
}

/// The `value` of a form control.
#[derive(Debug, Clone, Copy, PartialEq, Eq, Structural)]
pub enum InputValue {
    Absent,
    /// It holds nothing but white space.
    Blank,
    Given,
}

/// What a node is to layout.
#[derive(Debug, Clone, Copy, PartialEq, Eq, Structural)]
pub enum Shape {
    Comment,
    Text,
    /// An `svg` or `video` element, which is left out where it cannot be drawn.
    Drawing,
    /// An `img` element, which keeps its place where it cannot be drawn.
    Image,
    Canvas { width: u32, height: u32 },
    /// An `iframe`; without a size it could not be opened.
    Frame(Option<Size>),
    /// A `br` element.
    Break,
    Element(InputValue),
}

/// What layout reads of a node.
#[derive(Debug)]
pub struct LayoutNode {
    pub shape: Shape,
    pub parent: Option<usize>,
    pub children: Vec<usize>,
    pub style: Option<LayoutStyle>,
}

/// What layout starts from.
#[derive(Debug)]
pub struct LayoutInput {
    pub nodes: Vec<LayoutNode>,
    pub root: usize,
    pub window: Size,
    /// The number of the image that stands for one that cannot be drawn.
    pub blank_image: usize,
}

impl LayoutInput {
    /// The style of a node.
    pub open spec fn style(self, node_idx: usize) -> Option<LayoutStyle> {
        if node_idx < self.nodes@.len() {
            self.nodes@[node_idx as int].style
        } else {
            None
        }
    }

    pub fn style_of(&self, node_idx: usize) -> (r: Option<&LayoutStyle>)
        ensures
            match (r, self.style(node_idx)) {
                (Some(found), Some(style)) => *found == style,
                (None, None) => true,
                _ => false,
            },
            r is Some ==> node_idx < self.nodes@.len(),
    {
        if node_idx < self.nodes.len() {
            self.nodes[node_idx].style.as_ref()
        } else {
            None
        }
    }
}

impl StyleDisplay {
    /// Whether a box stands on a line together with others.
    pub open spec fn on_line(self) -> bool {
        self is Inline || self is InlineBlock || self is InlineFlex
    }

    pub fn is_inline(self) -> (r: bool)
        ensures
            r == self.on_line(),
    {
        matches!(self, StyleDisplay::Inline | StyleDisplay::InlineBlock | StyleDisplay::InlineFlex)
    }
}

/// What a style says about its margins and its text.
pub open spec fn margin_style(style: LayoutStyle) -> MarginStyle {
    MarginStyle {
        left_auto: style.margin.left is Auto,
        right_auto: style.margin.right is Auto,
        top_auto: style.margin.top is Auto,
        bottom_auto: style.margin.bottom is Auto,
        text_align: style.text_align,
    }
}

pub fn is_auto(size: &SizeTerm) -> (r: bool)
    ensures
        r == (*size is Auto),
{
    matches!(size, SizeTerm::Auto)
}

pub fn get_margin_style(style: &LayoutStyle) -> (r: MarginStyle)
    ensures
        r == margin_style(*style),
{
    MarginStyle {
        left_auto: is_auto(&style.margin.left),
        right_auto: is_auto(&style.margin.right),
        top_auto: is_auto(&style.margin.top),
        bottom_auto: is_auto(&style.margin.bottom),
        text_align: style.text_align,
    }
}

pub open spec fn length_context(font_size: u32, available: Option<u32>, window: Size) -> SizeContext {
    SizeContext {
        font_size,
        available_size: available,
        auto_size: None,
        window_width: window.width,
        window_height: window.height,
        default_unit: SizeUnit::Px,
    }
}

/// A length in pixels, where `available` is what a percentage refers to.
pub open spec fn length(size: SizeTerm, font_size: u32, available: Option<u32>, window: Size) -> Result<
    Option<i32>,
    Stop,
> {
    match size_value(size, length_context(font_size, available, window)) {
        Err(error) => Err(Stop::Length(error)),
        Ok(None) => Ok(None),
        Ok(Some(value)) => Ok(Some(value as i32)),
    }
}

/// A length in pixels, where `available` is what a percentage refers to.
pub fn get_length(size: &SizeTerm, font_size: u32, available: Option<u32>, window: &Size) -> (r: Result<
    Option<i32>,
    Stop,
>)
    ensures
        r == length(*size, font_size, available, *window),
{
    let context = SizeContext {
        font_size,
        available_size: available,
        auto_size: None,
        window_width: window.width,
        window_height: window.height,
        default_unit: SizeUnit::Px,
    };
    match get_specified_size(size, &context) {
        Err(error) => Err(Stop::Length(error)),
        Ok(value) => Ok(value),
    }
}

/// A length in pixels, or nothing at all where there is none.
pub open spec fn length_or_zero(
    size: SizeTerm,
    font_size: u32,
    available: Option<u32>,
    window: Size,
) -> Result<i32, Stop> {
    match length(size, font_size, available, window) {
        Err(stop) => Err(stop),
        Ok(None) => Ok(0),
        Ok(Some(value)) => Ok(value),
    }
}

pub fn get_length_or_zero(
    size: &SizeTerm,
    font_size: u32,
    available: Option<u32>,
    window: &Size,
) -> (r: Result<i32, Stop>)
    ensures
        r == length_or_zero(*size, font_size, available, *window),
{
    match get_length(size, font_size, available, window) {
        Err(stop) => Err(stop),
        Ok(None) => Ok(0),
        Ok(Some(value)) => Ok(value),
    }
}

/// Four lengths as one, or the first reason why not.
pub open spec fn edges_of(
    left: Result<i32, Stop>,
    right: Result<i32, Stop>,
    top: Result<i32, Stop>,
    bottom: Result<i32, Stop>,
) -> Result<Edges, Stop> {
    match (left, right, top, bottom) {
        (Ok(left), Ok(right), Ok(top), Ok(bottom)) => Ok(Edges { left, right, top, bottom }),
        (Err(stop), _, _, _) => Err(stop),
        (_, Err(stop), _, _) => Err(stop),
        (_, _, Err(stop), _) => Err(stop),
        (_, _, _, Err(stop)) => Err(stop),
    }
}

/// The lengths of four sides, where percentages refer to `across` for the sides at the left and
/// right and to `down` for the others.
pub open spec fn sides(
    sides: Sides,
    font_size: u32,
    across: Option<u32>,
    down: Option<u32>,
    window: Size,
) -> Result<Edges, Stop> {
    edges_of(
        length_or_zero(sides.left, font_size, across, window),
        length_or_zero(sides.right, font_size, across, window),
        length_or_zero(sides.top, font_size, down, window),
        length_or_zero(sides.bottom, font_size, down, window),
    )
}

fn get_sides(
    sides: &Sides,
    font_size: u32,
    across: Option<u32>,
    down: Option<u32>,
    window: &Size,
) -> (r: Result<Edges, Stop>)
    ensures
        r == self::sides(*sides, font_size, across, down, *window),
{
    let left: i32 = match get_length_or_zero(&sides.left, font_size, across, window) {
        Err(stop) => {
            return Err(stop);
        },
        Ok(left) => left,
    };
    let right: i32 = match get_length_or_zero(&sides.right, font_size, across, window) {
        Err(stop) => {
            return Err(stop);
        },
        Ok(right) => right,
    };
    let top: i32 = match get_length_or_zero(&sides.top, font_size, down, window) {
        Err(stop) => {
            return Err(stop);
        },
        Ok(top) => top,
    };
    let bottom: i32 = match get_length_or_zero(&sides.bottom, font_size, down, window) {
        Err(stop) => {
            return Err(stop);
        },
        Ok(bottom) => bottom,
    };
    Ok(Edges { left, right, top, bottom })
}

/// The padding of a style, whose percentages all refer to the width of the containing block.
pub open spec fn paddings(style: LayoutStyle, block_width: Option<u32>, window: Size) -> Result<
    Edges,
    Stop,
> {
    sides(style.padding, style.font_size, block_width, block_width, window)
}

pub fn get_paddings(style: &LayoutStyle, block_width: Option<u32>, window: &Size) -> (r: Result<
    Edges,
    Stop,
>)
    ensures
        r == paddings(*style, block_width, *window),
{
    get_sides(&style.padding, style.font_size, block_width, block_width, window)
}

/// The margins of a style. Automatic ones count as nothing.
pub open spec fn margins(style: LayoutStyle, available: Size, window: Size) -> Result<Edges, Stop> {
    sides(
        style.margin,
        style.font_size,
        Some(available.width),
        Some(available.height),
        window,
    )
}

pub fn get_margins(style: &LayoutStyle, available: &Size, window: &Size) -> (r: Result<Edges, Stop>)
    ensures
        r == margins(*style, *available, *window),
{
    get_sides(
        &style.margin,
        style.font_size,
        Some(available.width),
        Some(available.height),
        window,
    )
}

/// The width of one side of a border: nothing where it is not drawn.
pub open spec fn border_size(
    border: StyleBorder,
    font_size: u32,
    available: Option<u32>,
    window: Size,
) -> Result<i32, Stop> {
    if border.style is Solid {
        length_or_zero(border.size, font_size, available, window)
    } else {
        Ok(0)
    }
}

fn get_border_size(
    border: &StyleBorder,
    font_size: u32,
    available: Option<u32>,
    window: &Size,
) -> (r: Result<i32, Stop>)
    ensures
        r == border_size(*border, font_size, available, *window),
{
    if border.style == StyleBorderStyle::Solid {
        get_length_or_zero(&border.size, font_size, available, window)
    } else {
        Ok(0)
    }
}

/// The widths of the border of a style.
pub open spec fn border_sizes(
    style: LayoutStyle,
    block_height: Option<u32>,
    block_width: Option<u32>,
    window: Size,
) -> Result<Edges, Stop> {
    edges_of(
        border_size(style.border.left, style.font_size, block_width, window),
        border_size(style.border.right, style.font_size, block_width, window),
        border_size(style.border.top, style.font_size, block_height, window),
        border_size(style.border.bottom, style.font_size, block_height, window),
    )
}

pub fn get_border_sizes(
    style: &LayoutStyle,
    block_height: Option<u32>,
    block_width: Option<u32>,
    window: &Size,
) -> (r: Result<Edges, Stop>)
    ensures
        r == border_sizes(*style, block_height, block_width, *window),
{
    let font_size: u32 = style.font_size;
    let left: i32 = match get_border_size(&style.border.left, font_size, block_width, window) {
        Err(stop) => {
            return Err(stop);
        },
        Ok(left) => left,
    };
    let right: i32 = match get_border_size(&style.border.right, font_size, block_width, window) {
        Err(stop) => {
            return Err(stop);
        },
        Ok(right) => right,
    };
    let top: i32 = match get_border_size(&style.border.top, font_size, block_height, window) {
        Err(stop) => {
            return Err(stop);
        },
        Ok(top) => top,
    };
    let bottom: i32 = match get_border_size(&style.border.bottom, font_size, block_height, window) {
        Err(stop) => {
            return Err(stop);
        },
        Ok(bottom) => bottom,
    };
    Ok(Edges { left, right, top, bottom })
}

/// The height and width that percentages of a node refer to.
pub open spec fn block_of(
    input: LayoutInput,
    known: SizesModel,
    node_idx: usize,
    style: LayoutStyle,
    containing: usize,
) -> (Option<u32>, Option<u32>) {
    containing_block(
        known,
        style.position,
        if node_idx < input.nodes@.len() {
            input.nodes@[node_idx as int].parent
        } else {
            None
        },
        containing,
        node_idx == input.root,
        input.window,
    )
}

pub fn get_block(
    input: &LayoutInput,
    known: &ResolvedSizes,
    node_idx: usize,
    style: &LayoutStyle,
    containing: usize,
) -> (r: (Option<u32>, Option<u32>))
    ensures
        r == block_of(*input, known@, node_idx, *style, containing),
{
    let parent = if node_idx < input.nodes.len() {
        input.nodes[node_idx].parent
    } else {
        None
    };
    get_containing_block_size(
        known,
        style.position,
        parent,
        containing,
        node_idx == input.root,
        &input.window,
    )
}

/// The height and width that are asked of a node, by what is forced on it or by its style.
pub open spec fn specified(
    input: LayoutInput,
    style: LayoutStyle,
    forced: OptionalSize,
    block: (Option<u32>, Option<u32>),
) -> Result<(Option<u32>, Option<u32>), Stop> {
    match (
        length(style.width, style.font_size, block.1, input.window),
        length(style.height, style.font_size, block.0, input.window),
    ) {
        (Err(stop), _) => Err(stop),
        (_, Err(stop)) => Err(stop),
        (Ok(width), Ok(height)) => Ok(
            (either(forced.height, as_size(height)), either(forced.width, as_size(width))),
        ),
    }
}

pub fn get_specified(
    input: &LayoutInput,
    style: &LayoutStyle,
    forced: &OptionalSize,
    block: (Option<u32>, Option<u32>),
) -> (r: Result<(Option<u32>, Option<u32>), Stop>)
    ensures
        r == specified(*input, *style, *forced, block),
{
    let width = match get_length(&style.width, style.font_size, block.1, &input.window) {
        Err(stop) => {
            return Err(stop);
        },
        Ok(width) => width,
    };
    let height = match get_length(&style.height, style.font_size, block.0, &input.window) {
        Err(stop) => {
            return Err(stop);
        },
        Ok(height) => height,
    };
    Ok((first_given(forced.height, to_size(height)), first_given(forced.width, to_size(width))))
}

/// The sizes that a style asks for.
pub open spec fn specified_sizes(
    style: LayoutStyle,
    height: Option<u32>,
    width: Option<u32>,
    window: Size,
) -> Result<SpecifiedSizes, Stop> {
    let font = style.font_size;
    match (
        length(style.min_height, font, height, window),
        length(style.max_height, font, height, window),
        length(style.min_width, font, width, window),
        length(style.max_width, font, width, window),
        length(style.width, font, width, window),
        length(style.height, font, height, window),
    ) {
        (
            Ok(min_height),
            Ok(max_height),
            Ok(min_width),
            Ok(max_width),
            Ok(width),
            Ok(height),
        ) => Ok(SpecifiedSizes { width, height, min_width, max_width, min_height, max_height }),
        (Err(stop), _, _, _, _, _) => Err(stop),
        (_, Err(stop), _, _, _, _) => Err(stop),
        (_, _, Err(stop), _, _, _) => Err(stop),
        (_, _, _, Err(stop), _, _) => Err(stop),
        (_, _, _, _, Err(stop), _) => Err(stop),
        (_, _, _, _, _, Err(stop)) => Err(stop),
    }
}

fn get_specified_sizes(
    style: &LayoutStyle,
    block_height: Option<u32>,
    block_width: Option<u32>,
    window: &Size,
) -> (r: Result<SpecifiedSizes, Stop>)
    ensures
        r == specified_sizes(*style, block_height, block_width, *window),
{
    let font: u32 = style.font_size;
    let min_height = match get_length(&style.min_height, font, block_height, window) {
        Err(stop) => {
            return Err(stop);
        },
        Ok(size) => size,
    };
    let max_height = match get_length(&style.max_height, font, block_height, window) {
        Err(stop) => {
            return Err(stop);
        },
        Ok(size) => size,
    };
    let min_width = match get_length(&style.min_width, font, block_width, window) {
        Err(stop) => {
            return Err(stop);
        },
        Ok(size) => size,
    };
    let max_width = match get_length(&style.max_width, font, block_width, window) {
        Err(stop) => {
            return Err(stop);
        },
        Ok(size) => size,
    };
    let width = match get_length(&style.width, font, block_width, window) {
        Err(stop) => {
            return Err(stop);
        },
        Ok(size) => size,
    };
    let height = match get_length(&style.height, font, block_height, window) {
        Err(stop) => {
            return Err(stop);
        },
        Ok(size) => size,
    };
    Ok(SpecifiedSizes { width, height, min_width, max_width, min_height, max_height })
}

/// The sizes of a node as a container: from what is forced on it, what its style asks for and what
/// is available.
pub open spec fn container(
    input: LayoutInput,
    style: LayoutStyle,
    forced: OptionalSize,
    available: Size,
    block: (Option<u32>, Option<u32>),
) -> Result<ContainerSizes, Stop> {
    match (
        paddings(style, block.1, input.window),
        border_sizes(style, block.0, block.1, input.window),
        specified_sizes(
            style,
            block.0,
            Some(usable_width(block.1, available.width)),
            input.window,
        ),
    ) {
        (Ok(padding), Ok(border), Ok(specified)) => match container_sizes(
            specified,
            forced,
            available,
            padding,
            border,
        ) {
            Some(sizes) => Ok(sizes),
            None => Err(Stop::Range),
        },
        (Err(stop), _, _) => Err(stop),
        (_, Err(stop), _) => Err(stop),
        (_, _, Err(stop)) => Err(stop),
    }
}

pub fn get_container(
    input: &LayoutInput,
    style: &LayoutStyle,
    forced: &OptionalSize,
    available: &Size,
    block: (Option<u32>, Option<u32>),
) -> (r: Result<ContainerSizes, Stop>)
    ensures
        r == container(*input, *style, *forced, *available, block),
{
    let padding = match get_paddings(style, block.1, &input.window) {
        Err(stop) => {
            return Err(stop);
        },
        Ok(padding) => padding,
    };
    let border = match get_border_sizes(style, block.0, block.1, &input.window) {
        Err(stop) => {
            return Err(stop);
        },
        Ok(border) => border,
    };
    let width: u32 = usable_block_width(block.1, available.width);
    let specified = match get_specified_sizes(style, block.0, Some(width), &input.window) {
        Err(stop) => {
            return Err(stop);
        },
        Ok(specified) => specified,
    };
    match get_container_sizes(&specified, forced, available, &padding, &border) {
        Some(sizes) => Ok(sizes),
        None => Err(Stop::Range),
    }
}

/// The height of the lines of a text; nothing where the style does not say or it is not positive.
pub open spec fn line_height(size: SizeTerm, font_size: u32, window: Size) -> Result<
    Option<u32>,
    Stop,
> {
    let context = SizeContext {
        default_unit: SizeUnit::Em,
        ..length_context(font_size, Some(font_size), window)
    };
    match size_value(size, context) {
        Err(error) => Err(Stop::Length(error)),
        Ok(Some(height)) if height > 0 => Ok(Some(height as u32)),
        Ok(_) => Ok(None),
    }
}

pub fn get_line_height(size: &SizeTerm, font_size: u32, window: &Size) -> (r: Result<
    Option<u32>,
    Stop,
>)
    ensures
        r == line_height(*size, font_size, *window),
{
    let context = SizeContext {
        font_size,
        available_size: Some(font_size),
        auto_size: None,
        window_width: window.width,
        window_height: window.height,
        default_unit: SizeUnit::Em,
    };
    match get_specified_size(size, &context) {
        Err(error) => Err(Stop::Length(error)),
        Ok(Some(height)) => Ok(
            if height > 0 {
                Some(height as u32)
            } else {
                None
            },
        ),
        Ok(None) => Ok(None),
    }
}

/// The size of the font of a node, from that of its parent; 16 pixels where neither says.
pub open spec fn font_size(size: SizeTerm, parent: Option<u32>, window: Size) -> Result<u32, Stop> {
    let inherited = match parent {
        Some(size) => size,
        None => 16,
    };
    match length(size, inherited, Some(inherited), window) {
        Err(stop) => Err(stop),
        Ok(Some(size)) => Ok(size as u32),
        Ok(None) => Ok(16),
    }
}

pub fn resolve_font_size(size: &SizeTerm, parent: Option<u32>, window: &Size) -> (r: Result<u32, Stop>)
    ensures
        r == font_size(*size, parent, *window),
{
    let inherited: u32 = match parent {
        Some(size) => size,
        None => 16,
    };
    match get_length(size, inherited, Some(inherited), window) {
        Err(stop) => Err(stop),
        Ok(Some(size)) => Ok(size as u32),
        Ok(None) => Ok(16),
    }
}

/// A translation of a transform.
#[derive(Debug)]
pub struct Translation {
    pub x: SizeTerm,
    pub y: SizeTerm,
}

/// One coordinate of a translation, where `auto` counts as nothing.
pub open spec fn translated(size: SizeTerm, font_size: u32, extent: u32, window: Size) -> Result<
    i32,
    Stop,
> {
    let context = SizeContext {
        auto_size: Some(0),
        ..length_context(font_size, Some(extent), window)
    };
    match size_value(size, context) {
        Err(error) => Err(Stop::Length(error)),
        Ok(Some(value)) => Ok(value as i32),
        Ok(None) => Ok(0),
    }
}

fn get_translated(size: &SizeTerm, font_size: u32, extent: u32, window: &Size) -> (r: Result<i32, Stop>)
    ensures
        r == translated(*size, font_size, extent, *window),
{
    let context = SizeContext {
        font_size,
        available_size: Some(extent),
        auto_size: Some(0),
        window_width: window.width,
        window_height: window.height,
        default_unit: SizeUnit::Px,
    };
    match get_specified_size(size, &context) {
        Err(error) => Err(Stop::Length(error)),
        Ok(Some(value)) => Ok(value),
        Ok(None) => Ok(0),
    }
}

/// How far the translations from a place on move a box of the given size beyond where it is.
pub open spec fn translated_from(
    operations: Seq<Translation>,
    font_size: u32,
    size: Size,
    window: Size,
    at: int,
    x: int,
    y: int,
) -> Result<(int, int), Stop>
    decreases operations.len() - at,
{
    if at < 0 || at >= operations.len() {
        Ok((x, y))
    } else {
        match (
            translated(operations[at].x, font_size, size.width, window),
            translated(operations[at].y, font_size, size.height, window),
        ) {
            (Err(stop), _) => Err(stop),
            (_, Err(stop)) => Err(stop),
            (Ok(dx), Ok(dy)) => if in_i32(x + dx) && in_i32(y + dy) {
                translated_from(operations, font_size, size, window, at + 1, x + dx, y + dy)
            } else {
                Err(Stop::Range)
            },
        }
    }
}

/// How far the transform of a style moves a box of the given size.
pub fn resolve_transform_offset(
    operations: &Vec<Translation>,
    font_size: u32,
    size: &Size,
    window: &Size,
) -> (r: Result<(i32, i32), Stop>)
    ensures
        match (r, translated_from(operations@, font_size, *size, *window, 0, 0, 0)) {
            (Ok(offset), Ok(sum)) => offset.0 == sum.0 && offset.1 == sum.1,
            (Err(stop), Err(reason)) => stop == reason,
            _ => false,
        },
{
    let mut x: i32 = 0;
    let mut y: i32 = 0;
    let mut at: usize = 0;
    while at < operations.len()
        invariant
            at <= operations@.len(),
            translated_from(operations@, font_size, *size, *window, 0, 0, 0) == translated_from(
                operations@,
                font_size,
                *size,
                *window,
                at as int,
                x as int,
                y as int,
            ),
        decreases operations@.len() - at,
    {
        let dx: i32 = match get_translated(&operations[at].x, font_size, size.width, window) {
            Err(stop) => {
                return Err(stop);
            },
            Ok(dx) => dx,
        };
        let dy: i32 = match get_translated(&operations[at].y, font_size, size.height, window) {
            Err(stop) => {
                return Err(stop);
            },
            Ok(dy) => dy,
        };
        match (x.checked_add(dx), y.checked_add(dy)) {
            (Some(next_x), Some(next_y)) => {
                x = next_x;
                y = next_y;
            },
            _ => {
                return Err(Stop::Range);
            },
        }
        at = at + 1;
    }
    Ok((x, y))
}

} // verus!
