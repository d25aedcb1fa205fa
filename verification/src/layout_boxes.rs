//! The boxes of single nodes: texts, pictures and frames, and an element once its inside has been
//! laid out.
use vstd::prelude::*;

use crate::boxes::border_side;
use crate::boxes::BoxModel;
use crate::boxes::LayoutBox;
use crate::boxes::LayoutKind;
use crate::boxes::Rect;
use crate::boxes::RectBorder;
use crate::boxes::RectBorderSide;
use crate::boxes::StyleBackground;
use crate::calc::SizeTerm;
use crate::flex::ChildFact;
use crate::layout_state::all_boxes;
use crate::layout_state::LayoutModel;
use crate::layout_state::LayoutState;
use crate::lengths::block_of;
use crate::lengths::container;
use crate::lengths::get_block;
use crate::lengths::get_container;
use crate::lengths::get_length;
use crate::lengths::get_length_or_zero;
use crate::lengths::get_margin_style;
use crate::lengths::get_margins;
use crate::lengths::is_auto;
use crate::lengths::length;
use crate::lengths::length_or_zero;
use crate::lengths::margin_style;
use crate::lengths::margins;
use crate::lengths::LayoutInput;
use crate::lengths::LayoutStyle;
use crate::lengths::Shape;
use crate::lengths::Stop;
use crate::lengths::StyleBorder;
use crate::needs::Answer;
use crate::needs::Answers;
use crate::needs::Drawn;
use crate::needs::Need;
use crate::order::arranged;
use crate::order::stable_order;
use crate::order::stable_positions;
use crate::raster::max2;
use crate::raster::min2;
use crate::raster::BorderRadius;
use crate::sizing::ContainerSizes;
use crate::sizing::OptionalSize;
use crate::sizing::Position;
use crate::sizing::Size;
use crate::stylesheet::StyleDisplay;
use crate::stylesheet::StyleZIndex;
use crate::waiters::WaiterStyle;

verus! {

/// A node to lay out, and what its surroundings say about it.
#[derive(Debug, Clone, Copy)]
pub struct Call {
    pub node_idx: usize,
    pub cursor: Position,
    pub available: Size,
    pub forced: OptionalSize,
    /// The node that boxes out of the flow are placed in.
    pub containing: usize,
    pub allow_fill: bool,
    /// Whether the box is the one that the node is known by.
    pub save: bool,
    /// Whether the node is laid out for good, and not only to learn its size.
    pub complete: bool,
}

/// The inside of an element that has been laid out.
pub struct Body {
    pub width: u32,
    pub height: u32,
    pub content_height: u32,
    pub children: Vec<usize>,
}

/// What a [`Body`] holds.
#[verifier::ext_equal]
pub struct BodyModel {
    pub width: u32,
    pub height: u32,
    pub content_height: u32,
    pub children: Seq<usize>,
}

impl View for Body {
    type V = BodyModel;

    open spec fn view(&self) -> BodyModel {
        BodyModel {
            width: self.width,
            height: self.height,
            content_height: self.content_height,
            children: self.children@,
        }
    }
}

pub open spec fn no_size() -> OptionalSize {
    OptionalSize { width: None, height: None }
}

/// What was drawn for a need; nothing where that is impossible.
pub open spec fn drawn(answers: Answers, need: Need) -> Result<Option<Drawn>, Stop> {
    match answers.answer(need) {
        Some(Answer::Drawn(drawn)) => Ok(drawn),
        _ => Err(Stop::Need(need)),
    }
}

pub fn get_drawn(answers: &Answers, need: Need) -> (r: Result<Option<Drawn>, Stop>)
    ensures
        r == drawn(*answers, need),
{
    match answers.find(need) {
        Some(Answer::Drawn(drawn)) => Ok(drawn),
        _ => Err(Stop::Need(need)),
    }
}

pub open spec fn z_index(style: LayoutStyle) -> i32 {
    match style.z_index {
        StyleZIndex::Auto => 0,
        StyleZIndex::Number(value) => value,
    }
}

fn get_z_index(style: &LayoutStyle) -> (r: i32)
    ensures
        r == z_index(*style),
{
    match style.z_index {
        StyleZIndex::Auto => 0,
        StyleZIndex::Number(value) => value,
    }
}

/// A box without background, border and children.
pub open spec fn plain_box(
    kind: LayoutKind,
    node_idx: usize,
    cursor: Position,
    width: u32,
    height: u32,
    z_index: i32,
) -> BoxModel {
    BoxModel {
        rect: Rect {
            x: cursor.x,
            y: cursor.y,
            width,
            height,
            background: StyleBackground::Transparent,
            border: RectBorder { left: None, top: None, right: None, bottom: None },
            border_radius: BorderRadius {
                top_left: 0,
                top_right: 0,
                bottom_right: 0,
                bottom_left: 0,
            },
        },
        kind,
        children: Seq::empty(),
        node_idx,
        content_height: height,
        z_index,
    }
}

fn make_plain_box(
    kind: LayoutKind,
    node_idx: usize,
    cursor: Position,
    width: u32,
    height: u32,
    z_index: i32,
) -> (r: LayoutBox)
    ensures
        r@ == plain_box(kind, node_idx, cursor, width, height, z_index),
{
    let r = LayoutBox {
        rect: Rect {
            x: cursor.x,
            y: cursor.y,
            width,
            height,
            background: StyleBackground::Transparent,
            border: RectBorder::new_empty(),
            border_radius: BorderRadius::new_empty(),
        },
        kind,
        children: Vec::new(),
        node_idx,
        content_height: height,
        z_index,
    };
    assert(r@.children =~= Seq::empty());
    r
}

/// A box that was added, as the result for its node.
pub open spec fn added(registered: Result<(LayoutModel, usize), Stop>) -> Result<
    (LayoutModel, Option<usize>),
    Stop,
> {
    match registered {
        Err(stop) => Err(stop),
        Ok((state, id)) => Ok((state, Some(id))),
    }
}

/// Whether the outcome for a node is the one of its model.
pub open spec fn same_outcome(
    r: Result<Option<usize>, Stop>,
    state: LayoutModel,
    model: Result<(LayoutModel, Option<usize>), Stop>,
) -> bool {
    match (r, model) {
        (Ok(id), Ok(after)) => id == after.1 && state == after.0,
        (Err(stop), Err(reason)) => stop == reason,
        _ => false,
    }
}

/// Whether a box has been added since, if the node has one, and none has been lost.
pub open spec fn grown(r: Result<Option<usize>, Stop>, before: LayoutModel, after: LayoutModel) -> bool {
    &&& r is Ok ==> before.boxes.len() <= after.boxes.len()
    &&& r matches Ok(Some(id)) ==> 1 <= id <= after.boxes.len()
}

fn add_plain_box(
    state: &mut LayoutState,
    style: &LayoutStyle,
    kind: LayoutKind,
    call: &Call,
    width: u32,
    height: u32,
    z_index: i32,
) -> (r: Result<Option<usize>, Stop>)
    requires
        old(state).wf(),
    ensures
        final(state).wf(),
        grown(r, old(state)@, final(state)@),
        same_outcome(
            r,
            final(state)@,
            added(
                old(state)@.registered(
                    plain_box(kind, call.node_idx, call.cursor, width, height, z_index),
                    margin_style(*style),
                    call.save,
                ),
            ),
        ),
{
    let layout_box = make_plain_box(kind, call.node_idx, call.cursor, width, height, z_index);
    assert(all_boxes(layout_box@.children, state@.boxes.len()));
    match state.register(layout_box, get_margin_style(style), call.save) {
        Err(stop) => Err(stop),
        Ok(id) => Ok(Some(id)),
    }
}

/// The box of a text: none where its colour is no colour or it cannot be drawn.
pub open spec fn text_box(
    answers: Answers,
    state: LayoutModel,
    call: Call,
    style: LayoutStyle,
) -> Result<(LayoutModel, Option<usize>), Stop> {
    let need = Need::Text { node_idx: call.node_idx, line_width: Some(call.available.width) };
    match style.color {
        StyleBackground::Hex(_) => match drawn(answers, need) {
            Err(stop) => Err(stop),
            Ok(None) => Ok((state, None)),
            Ok(Some(text)) => added(
                state.registered(
                    plain_box(
                        LayoutKind::Text { image: text.image },
                        call.node_idx,
                        call.cursor,
                        text.width,
                        text.height,
                        0,
                    ),
                    margin_style(style),
                    call.save,
                ),
            ),
        },
        _ => Ok((state, None)),
    }
}

pub fn layout_text(state: &mut LayoutState, answers: &Answers, call: &Call, style: &LayoutStyle) -> (r:
    Result<Option<usize>, Stop>)
    requires
        old(state).wf(),
    ensures
        final(state).wf(),
        grown(r, old(state)@, final(state)@),
        same_outcome(r, final(state)@, text_box(*answers, old(state)@, *call, *style)),
{
    match style.color {
        StyleBackground::Hex(_) => {},
        _ => {
            return Ok(None);
        },
    }
    let need = Need::Text { node_idx: call.node_idx, line_width: Some(call.available.width) };
    match get_drawn(answers, need) {
        Err(stop) => Err(stop),
        Ok(None) => Ok(None),
        Ok(Some(text)) => {
            let kind = LayoutKind::Text { image: text.image };
            add_plain_box(state, style, kind, call, text.width, text.height, 0)
        },
    }
}

/// A limit of a picture: the one of its style, else its own size, else what is available.
pub open spec fn picture_limit(
    size: SizeTerm,
    font_size: u32,
    block: Option<u32>,
    window: Size,
    own: Option<u32>,
    available: u32,
) -> Result<u32, Stop> {
    match length(size, font_size, block, window) {
        Err(stop) => Err(stop),
        Ok(Some(limit)) => Ok(limit as u32),
        Ok(None) => Ok(
            match own {
                Some(own) => own,
                None => available,
            },
        ),
    }
}

fn get_picture_limit(
    size: &SizeTerm,
    font_size: u32,
    block: Option<u32>,
    window: &Size,
    own: Option<u32>,
    available: u32,
) -> (r: Result<u32, Stop>)
    ensures
        r == picture_limit(*size, font_size, block, *window, own, available),
{
    match get_length(size, font_size, block, window) {
        Err(stop) => Err(stop),
        Ok(Some(limit)) => Ok(limit as u32),
        Ok(None) => Ok(
            match own {
                Some(own) => own,
                None => available,
            },
        ),
    }
}

/// The height and width that are kept for a picture that cannot be drawn.
pub open spec fn kept_place(sizes: ContainerSizes, max_width: u32, max_height: u32) -> (u32, u32) {
    (
        min2(
            max2(
                sizes.placeholder().0,
                match sizes.min_height {
                    Some(min) => min as int,
                    None => 0,
                },
            ),
            max_height as int,
        ) as u32,
        min2(
            max2(
                sizes.placeholder().1,
                match sizes.min_width {
                    Some(min) => min as int,
                    None => 0,
                },
            ),
            max_width as int,
        ) as u32,
    )
}

/// The box of an element that is drawn as a whole, once its limits are known.
pub open spec fn picture_box(
    input: LayoutInput,
    answers: Answers,
    state: LayoutModel,
    call: Call,
    style: LayoutStyle,
    sizes: ContainerSizes,
    max_height: u32,
    max_width: u32,
) -> Result<(LayoutModel, Option<usize>), Stop> {
    let node_idx = call.node_idx;
    let shape = input.nodes@[node_idx as int].shape;
    let margin = margin_style(style);
    match shape {
        Shape::Canvas { width, height } => {
            let kind = LayoutKind::Canvas { bitmap: Some(node_idx) };
            added(
                (LayoutModel {
                    canvases: state.canvases.push((node_idx, Size { width, height })),
                    ..state
                }).registered(
                    plain_box(
                        kind,
                        node_idx,
                        call.cursor,
                        sizes.container_width,
                        sizes.container_height,
                        z_index(style),
                    ),
                    margin,
                    call.save,
                ),
            )
        },
        _ => {
            let need = Need::Picture {
                node_idx,
                wanted_width: sizes.container_width_non_filling,
                wanted_height: sizes.container_height_non_filling,
                max_width,
                max_height,
                complete: call.complete,
            };
            match drawn(answers, need) {
                Err(stop) => Err(stop),
                Ok(Some(picture)) => added(
                    state.registered(
                        plain_box(
                            LayoutKind::PixMap { image: picture.image, opaque: picture.opaque },
                            node_idx,
                            call.cursor,
                            picture.width,
                            picture.height,
                            z_index(style),
                        ),
                        margin,
                        call.save,
                    ),
                ),
                Ok(None) => if shape is Image {
                    let place = kept_place(sizes, max_width, max_height);
                    added(
                        state.registered(
                            plain_box(
                                LayoutKind::PixMap { image: input.blank_image, opaque: false },
                                node_idx,
                                call.cursor,
                                place.1,
                                place.0,
                                z_index(style),
                            ),
                            margin,
                            call.save,
                        ),
                    )
                } else {
                    Ok((state, None))
                },
            }
        },
    }
}

/// The box of an element that is drawn as a whole: none where it is not displayed.
pub open spec fn replaced_box(
    input: LayoutInput,
    answers: Answers,
    state: LayoutModel,
    call: Call,
    style: LayoutStyle,
) -> Result<(LayoutModel, Option<usize>), Stop> {
    let node_idx = call.node_idx;
    if style.display is Absent {
        Ok((state, None))
    } else {
        match input.nodes@[node_idx as int].shape {
            Shape::Frame(None) => Ok((state, None)),
            Shape::Frame(Some(size)) => added(
                state.registered(
                    plain_box(
                        LayoutKind::Iframe { surface: Some(node_idx) },
                        node_idx,
                        call.cursor,
                        size.width,
                        size.height,
                        z_index(style),
                    ),
                    margin_style(style),
                    call.save,
                ),
            ),
            _ => {
                let block = block_of(input, state.sizes, node_idx, style, call.containing);
                match container(input, style, no_size(), call.available, block) {
                    Err(stop) => Err(stop),
                    Ok(sizes) => match (
                        picture_limit(
                            style.max_height,
                            style.font_size,
                            block.0,
                            input.window,
                            sizes.container_height_non_filling,
                            call.available.height,
                        ),
                        picture_limit(
                            style.max_width,
                            style.font_size,
                            block.1,
                            input.window,
                            sizes.container_width_non_filling,
                            call.available.width,
                        ),
                    ) {
                        (Err(stop), _) => Err(stop),
                        (_, Err(stop)) => Err(stop),
                        (Ok(max_height), Ok(max_width)) => picture_box(
                            input,
                            answers,
                            state,
                            call,
                            style,
                            sizes,
                            max_height,
                            max_width,
                        ),
                    },
                }
            },
        }
    }
}

fn layout_picture(
    state: &mut LayoutState,
    input: &LayoutInput,
    answers: &Answers,
    call: &Call,
    style: &LayoutStyle,
    sizes: &ContainerSizes,
    max_height: u32,
    max_width: u32,
) -> (r: Result<Option<usize>, Stop>)
    requires
        old(state).wf(),
        call.node_idx < input.nodes@.len(),
    ensures
        final(state).wf(),
        grown(r, old(state)@, final(state)@),
        same_outcome(
            r,
            final(state)@,
            picture_box(
                *input,
                *answers,
                old(state)@,
                *call,
                *style,
                *sizes,
                max_height,
                max_width,
            ),
        ),
{
    let node_idx: usize = call.node_idx;
    let shape = input.nodes[node_idx].shape;
    let z_index: i32 = get_z_index(style);
    match shape {
        Shape::Canvas { width, height } => {
            state.canvases.push((node_idx, Size { width, height }));
            let kind = LayoutKind::Canvas { bitmap: Some(node_idx) };
            return add_plain_box(
                state,
                style,
                kind,
                call,
                sizes.container_width,
                sizes.container_height,
                z_index,
            );
        },
        _ => {},
    }
    let need = Need::Picture {
        node_idx,
        wanted_width: sizes.container_width_non_filling,
        wanted_height: sizes.container_height_non_filling,
        max_width,
        max_height,
        complete: call.complete,
    };
    match get_drawn(answers, need) {
        Err(stop) => Err(stop),
        Ok(Some(picture)) => {
            let kind = LayoutKind::PixMap { image: picture.image, opaque: picture.opaque };
            add_plain_box(state, style, kind, call, picture.width, picture.height, z_index)
        },
        Ok(None) => match shape {
            Shape::Image => {
                let (height, width) = sizes.image_placeholder_size(max_width, max_height);
                let kind = LayoutKind::PixMap { image: input.blank_image, opaque: false };
                add_plain_box(state, style, kind, call, width, height, z_index)
            },
            _ => Ok(None),
        },
    }
}

pub fn layout_replaced(
    state: &mut LayoutState,
    input: &LayoutInput,
    answers: &Answers,
    call: &Call,
    style: &LayoutStyle,
) -> (r: Result<Option<usize>, Stop>)
    requires
        old(state).wf(),
        call.node_idx < input.nodes@.len(),
    ensures
        final(state).wf(),
        grown(r, old(state)@, final(state)@),
        same_outcome(r, final(state)@, replaced_box(*input, *answers, old(state)@, *call, *style)),
{
    let node_idx: usize = call.node_idx;
    if style.display == StyleDisplay::Absent {
        return Ok(None);
    }
    match input.nodes[node_idx].shape {
        Shape::Frame(None) => {
            return Ok(None);
        },
        Shape::Frame(Some(size)) => {
            let kind = LayoutKind::Iframe { surface: Some(node_idx) };
            let z_index: i32 = get_z_index(style);
            return add_plain_box(state, style, kind, call, size.width, size.height, z_index);
        },
        _ => {},
    }
    let block = get_block(input, &state.sizes, node_idx, style, call.containing);
    let forced = OptionalSize { width: None, height: None };
    let sizes = match get_container(input, style, &forced, &call.available, block) {
        Err(stop) => {
            return Err(stop);
        },
        Ok(sizes) => sizes,
    };
    let max_height: u32 = match get_picture_limit(
        &style.max_height,
        style.font_size,
        block.0,
        &input.window,
        sizes.container_height_non_filling,
        call.available.height,
    ) {
        Err(stop) => {
            return Err(stop);
        },
        Ok(limit) => limit,
    };
    let max_width: u32 = match get_picture_limit(
        &style.max_width,
        style.font_size,
        block.1,
        &input.window,
        sizes.container_width_non_filling,
        call.available.width,
    ) {
        Err(stop) => {
            return Err(stop);
        },
        Ok(limit) => limit,
    };
    layout_picture(state, input, answers, call, style, &sizes, max_height, max_width)
}

/// One side of the border of an element.
pub open spec fn drawn_side(
    border: StyleBorder,
    style: LayoutStyle,
    available: Size,
    window: Size,
) -> Result<Option<RectBorderSide>, Stop> {
    match length(border.size, style.font_size, Some(available.width), window) {
        Err(stop) => Err(stop),
        Ok(size) => Ok(border_side(border.style, size, border.color, style.color)),
    }
}

fn get_drawn_side(border: &StyleBorder, style: &LayoutStyle, available: &Size, window: &Size) -> (r:
    Result<Option<RectBorderSide>, Stop>)
    ensures
        r == drawn_side(*border, *style, *available, *window),
{
    match get_length(&border.size, style.font_size, Some(available.width), window) {
        Err(stop) => Err(stop),
        Ok(size) => Ok(
            RectBorderSide::parse_from_style(border.style, size, border.color, style.color),
        ),
    }
}

/// The border of an element.
pub open spec fn drawn_border(style: LayoutStyle, available: Size, window: Size) -> Result<
    RectBorder,
    Stop,
> {
    match (
        drawn_side(style.border.left, style, available, window),
        drawn_side(style.border.top, style, available, window),
        drawn_side(style.border.right, style, available, window),
        drawn_side(style.border.bottom, style, available, window),
    ) {
        (Ok(left), Ok(top), Ok(right), Ok(bottom)) => Ok(
            RectBorder { left, top, right, bottom },
        ),
        (Err(stop), _, _, _) => Err(stop),
        (_, Err(stop), _, _) => Err(stop),
        (_, _, Err(stop), _) => Err(stop),
        (_, _, _, Err(stop)) => Err(stop),
    }
}

fn get_drawn_border(style: &LayoutStyle, available: &Size, window: &Size) -> (r: Result<
    RectBorder,
    Stop,
>)
    ensures
        r == drawn_border(*style, *available, *window),
{
    let left = match get_drawn_side(&style.border.left, style, available, window) {
        Err(stop) => {
            return Err(stop);
        },
        Ok(side) => side,
    };
    let top = match get_drawn_side(&style.border.top, style, available, window) {
        Err(stop) => {
            return Err(stop);
        },
        Ok(side) => side,
    };
    let right = match get_drawn_side(&style.border.right, style, available, window) {
        Err(stop) => {
            return Err(stop);
        },
        Ok(side) => side,
    };
    let bottom = match get_drawn_side(&style.border.bottom, style, available, window) {
        Err(stop) => {
            return Err(stop);
        },
        Ok(side) => side,
    };
    Ok(RectBorder { left, top, right, bottom })
}

/// The radius of one corner of an element.
pub open spec fn radius(size: SizeTerm, style: LayoutStyle, available: Size, window: Size) -> Result<
    u32,
    Stop,
> {
    match length_or_zero(size, style.font_size, Some(available.width), window) {
        Err(stop) => Err(stop),
        Ok(radius) => Ok(max2(radius as int, 0) as u32),
    }
}

fn get_radius(size: &SizeTerm, style: &LayoutStyle, available: &Size, window: &Size) -> (r: Result<
    u32,
    Stop,
>)
    ensures
        r == radius(*size, *style, *available, *window),
{
    match get_length_or_zero(size, style.font_size, Some(available.width), window) {
        Err(stop) => Err(stop),
        Ok(radius) => Ok(radius.max(0) as u32),
    }
}

/// The radii of the corners of an element.
pub open spec fn radii(style: LayoutStyle, available: Size, window: Size) -> Result<
    BorderRadius,
    Stop,
> {
    match (
        radius(style.border_radius.top_left, style, available, window),
        radius(style.border_radius.top_right, style, available, window),
        radius(style.border_radius.bottom_right, style, available, window),
        radius(style.border_radius.bottom_left, style, available, window),
    ) {
        (Ok(top_left), Ok(top_right), Ok(bottom_right), Ok(bottom_left)) => Ok(
            BorderRadius { top_left, top_right, bottom_right, bottom_left },
        ),
        (Err(stop), _, _, _) => Err(stop),
        (_, Err(stop), _, _) => Err(stop),
        (_, _, Err(stop), _) => Err(stop),
        (_, _, _, Err(stop)) => Err(stop),
    }
}

fn get_radii(style: &LayoutStyle, available: &Size, window: &Size) -> (r: Result<BorderRadius, Stop>)
    ensures
        r == radii(*style, *available, *window),
{
    let corners = &style.border_radius;
    let top_left: u32 = match get_radius(&corners.top_left, style, available, window) {
        Err(stop) => {
            return Err(stop);
        },
        Ok(radius) => radius,
    };
    let top_right: u32 = match get_radius(&corners.top_right, style, available, window) {
        Err(stop) => {
            return Err(stop);
        },
        Ok(radius) => radius,
    };
    let bottom_right: u32 = match get_radius(&corners.bottom_right, style, available, window) {
        Err(stop) => {
            return Err(stop);
        },
        Ok(radius) => radius,
    };
    let bottom_left: u32 = match get_radius(&corners.bottom_left, style, available, window) {
        Err(stop) => {
            return Err(stop);
        },
        Ok(radius) => radius,
    };
    Ok(BorderRadius { top_left, top_right, bottom_right, bottom_left })
}

/// The background of an element. A picture is drawn in the size of the element as a container.
pub open spec fn background(
    input: LayoutInput,
    answers: Answers,
    state: LayoutModel,
    call: Call,
    style: LayoutStyle,
) -> Result<StyleBackground, Stop> {
    match style.background {
        StyleBackground::DataUrl(_) => {
            let block = block_of(input, state.sizes, call.node_idx, style, call.containing);
            match container(input, style, no_size(), call.available, block) {
                Err(stop) => Err(stop),
                Ok(sizes) => {
                    let need = Need::Background {
                        node_idx: call.node_idx,
                        width: sizes.container_width,
                        height: sizes.container_height,
                        complete: call.complete,
                    };
                    match drawn(answers, need) {
                        Err(stop) => Err(stop),
                        Ok(None) => Ok(StyleBackground::DataUrl(None)),
                        Ok(Some(picture)) => Ok(StyleBackground::DataUrl(Some(picture.image))),
                    }
                },
            }
        },
        other => Ok(other),
    }
}

fn get_background(
    state: &LayoutState,
    input: &LayoutInput,
    answers: &Answers,
    call: &Call,
    style: &LayoutStyle,
) -> (r: Result<StyleBackground, Stop>)
    ensures
        r == background(*input, *answers, state@, *call, *style),
{
    match style.background {
        StyleBackground::DataUrl(_) => {},
        other => {
            return Ok(other);
        },
    }
    let block = get_block(input, &state.sizes, call.node_idx, style, call.containing);
    let forced = OptionalSize { width: None, height: None };
    let sizes = match get_container(input, style, &forced, &call.available, block) {
        Err(stop) => {
            return Err(stop);
        },
        Ok(sizes) => sizes,
    };
    let need = Need::Background {
        node_idx: call.node_idx,
        width: sizes.container_width,
        height: sizes.container_height,
        complete: call.complete,
    };
    match get_drawn(answers, need) {
        Err(stop) => Err(stop),
        Ok(None) => Ok(StyleBackground::DataUrl(None)),
        Ok(Some(picture)) => Ok(StyleBackground::DataUrl(Some(picture.image))),
    }
}

/// The stacking order of boxes.
pub open spec fn stacking(boxes: Seq<BoxModel>, ids: Seq<usize>) -> Seq<i128> {
    Seq::new(ids.len(), |i: int| boxes[ids[i] - 1].z_index as i128)
}

/// Boxes by ascending stacking order; equal ones keep their order.
pub open spec fn stacked(boxes: Seq<BoxModel>, ids: Seq<usize>) -> Seq<usize> {
    arranged(ids, stable_positions(stacking(boxes, ids)))
}

fn sort_by_stacking(state: &LayoutState, ids: &Vec<usize>) -> (r: Vec<usize>)
    requires
        all_boxes(ids@, state@.boxes.len()),
    ensures
        r@ == stacked(state@.boxes, ids@),
        all_boxes(r@, state@.boxes.len()),
{
    let mut keys: Vec<i128> = Vec::new();
    let mut at: usize = 0;
    while at < ids.len()
        invariant
            at <= ids@.len(),
            all_boxes(ids@, state@.boxes.len()),
            keys@ =~= stacking(state@.boxes, ids@).take(at as int),
        decreases ids@.len() - at,
    {
        assert(1 <= ids@[at as int] <= state@.boxes.len());
        keys.push(state.z_index_of(ids[at]) as i128);
        at = at + 1;
    }
    assert(keys@ =~= stacking(state@.boxes, ids@));
    let order = stable_order(&keys);
    let mut sorted: Vec<usize> = Vec::new();
    let mut k: usize = 0;
    while k < order.len()
        invariant
            k <= order@.len(),
            order@ == stable_positions(stacking(state@.boxes, ids@)),
            forall|i: int| 0 <= i < order@.len() ==> (#[trigger] order@[i]) < ids@.len(),
            sorted@ =~= stacked(state@.boxes, ids@).take(k as int),
            all_boxes(ids@, state@.boxes.len()),
            all_boxes(sorted@, state@.boxes.len()),
        decreases order@.len() - k,
    {
        assert(order@[k as int] < ids@.len());
        assert(1 <= ids@[order@[k as int] as int] <= state@.boxes.len());
        sorted.push(ids[order[k]]);
        k = k + 1;
    }
    assert(sorted@ =~= stacked(state@.boxes, ids@));
    sorted
}

/// The box of an element whose inside has been laid out.
pub open spec fn element_box(
    input: LayoutInput,
    answers: Answers,
    state: LayoutModel,
    call: Call,
    style: LayoutStyle,
    body: BodyModel,
) -> Result<(LayoutModel, Option<usize>), Stop> {
    match (
        drawn_border(style, call.available, input.window),
        radii(style, call.available, input.window),
        background(input, answers, state, call, style),
    ) {
        (Ok(border), Ok(border_radius), Ok(background)) => added(
            state.registered(
                BoxModel {
                    rect: Rect {
                        x: call.cursor.x,
                        y: call.cursor.y,
                        width: body.width,
                        height: body.height,
                        background,
                        border,
                        border_radius,
                    },
                    kind: LayoutKind::Element,
                    children: stacked(state.boxes, body.children),
                    node_idx: call.node_idx,
                    content_height: body.content_height,
                    z_index: z_index(style),
                },
                margin_style(style),
                call.save,
            ),
        ),
        (Err(stop), _, _) => Err(stop),
        (_, Err(stop), _) => Err(stop),
        (_, _, Err(stop)) => Err(stop),
    }
}

pub fn finish_element(
    state: &mut LayoutState,
    input: &LayoutInput,
    answers: &Answers,
    call: &Call,
    style: &LayoutStyle,
    body: Body,
) -> (r: Result<Option<usize>, Stop>)
    requires
        old(state).wf(),
        all_boxes(body.children@, old(state)@.boxes.len()),
    ensures
        final(state).wf(),
        grown(r, old(state)@, final(state)@),
        same_outcome(
            r,
            final(state)@,
            element_box(*input, *answers, old(state)@, *call, *style, body@),
        ),
{
    let border = match get_drawn_border(style, &call.available, &input.window) {
        Err(stop) => {
            return Err(stop);
        },
        Ok(border) => border,
    };
    let border_radius = match get_radii(style, &call.available, &input.window) {
        Err(stop) => {
            return Err(stop);
        },
        Ok(border_radius) => border_radius,
    };
    let background = match get_background(state, input, answers, call, style) {
        Err(stop) => {
            return Err(stop);
        },
        Ok(background) => background,
    };
    let children = sort_by_stacking(state, &body.children);
    let layout_box = LayoutBox {
        rect: Rect {
            x: call.cursor.x,
            y: call.cursor.y,
            width: body.width,
            height: body.height,
            background,
            border,
            border_radius,
        },
        kind: LayoutKind::Element,
        children,
        node_idx: call.node_idx,
        content_height: body.content_height,
        z_index: get_z_index(style),
    };
    match state.register(layout_box, get_margin_style(style), call.save) {
        Err(stop) => Err(stop),
        Ok(id) => Ok(Some(id)),
    }
}

/// The box of the text of a form control, which stands where the inside of the control starts.
pub open spec fn input_text_box(
    answers: Answers,
    state: LayoutModel,
    call: Call,
    style: LayoutStyle,
    cursor: Position,
) -> Result<(LayoutModel, Option<usize>), Stop> {
    match style.color {
        StyleBackground::Hex(_) => match drawn(
            answers,
            Need::Text { node_idx: call.node_idx, line_width: None },
        ) {
            Err(stop) => Err(stop),
            Ok(None) => Ok((state, None)),
            Ok(Some(text)) => added(
                state.registered(
                    plain_box(
                        LayoutKind::Text { image: text.image },
                        call.node_idx,
                        cursor,
                        text.width,
                        text.height,
                        0,
                    ),
                    margin_style(style),
                    call.save,
                ),
            ),
        },
        _ => Ok((state, None)),
    }
}

/// Adds the box of the text of a form control. There is none where the colour of the text is no
/// colour or the text cannot be drawn.
pub fn create_input_text_box(
    state: &mut LayoutState,
    answers: &Answers,
    call: &Call,
    style: &LayoutStyle,
    cursor: Position,
) -> (r: Result<Option<usize>, Stop>)
    requires
        old(state).wf(),
    ensures
        final(state).wf(),
        grown(r, old(state)@, final(state)@),
        same_outcome(
            r,
            final(state)@,
            input_text_box(*answers, old(state)@, *call, *style, cursor),
        ),
{
    match style.color {
        StyleBackground::Hex(_) => {},
        _ => {
            return Ok(None);
        },
    }
    let need = Need::Text { node_idx: call.node_idx, line_width: None };
    match get_drawn(answers, need) {
        Err(stop) => Err(stop),
        Ok(None) => Ok(None),
        Ok(Some(text)) => {
            let kind = LayoutKind::Text { image: text.image };
            let place = Call { cursor, ..*call };
            add_plain_box(state, style, kind, &place, text.width, text.height, 0)
        },
    }
}

/// The children that have a style, as the flow sees them.
pub open spec fn child_facts(input: LayoutInput, children: Seq<usize>) -> Seq<ChildFact>
    decreases children.len(),
{
    if children.len() == 0 {
        Seq::empty()
    } else {
        let before = child_facts(input, children.drop_last());
        match input.style(children.last()) {
            Some(style) => before.push(
                ChildFact {
                    node_idx: children.last(),
                    free: style.position.leaves_flow(),
                    order: style.order,
                },
            ),
            None => before,
        }
    }
}

pub fn get_child_facts(input: &LayoutInput, children: &Vec<usize>) -> (r: Vec<ChildFact>)
    ensures
        r@ == child_facts(*input, children@),
{
    let mut facts: Vec<ChildFact> = Vec::new();
    let mut at: usize = 0;
    while at < children.len()
        invariant
            at <= children@.len(),
            facts@ == child_facts(*input, children@.take(at as int)),
        decreases children@.len() - at,
    {
        assert(children@.take(at + 1).drop_last() =~= children@.take(at as int));
        match input.style_of(children[at]) {
            Some(style) => {
                facts.push(
                    ChildFact {
                        node_idx: children[at],
                        free: style.position.is_free(),
                        order: style.order,
                    },
                );
            },
            None => {},
        }
        at = at + 1;
    }
    assert(children@.take(children@.len() as int) =~= children@);
    facts
}

/// What the placing of a waiting node reads of its style.
pub open spec fn waiter_style(style: LayoutStyle, frame: Size, window: Size) -> Result<
    WaiterStyle,
    Stop,
> {
    let font = style.font_size;
    let across = Some(frame.width);
    let down = Some(frame.height);
    match (
        length(style.inset.top, font, down, window),
        length(style.inset.right, font, across, window),
        length(style.inset.bottom, font, down, window),
        length(style.inset.left, font, across, window),
        length(style.margin.left, font, across, window),
        length(style.margin.right, font, across, window),
        margins(style, frame, window),
    ) {
        (
            Ok(top),
            Ok(right),
            Ok(bottom),
            Ok(left),
            Ok(margin_left),
            Ok(margin_right),
            Ok(edges),
        ) => Ok(
            WaiterStyle {
                position: style.position,
                width_auto: style.width is Auto,
                height_auto: style.height is Auto,
                top,
                right,
                bottom,
                left,
                margin_left,
                margin_right,
                margin_left_auto: style.margin.left is Auto,
                margin_right_auto: style.margin.right is Auto,
                margin_top: edges.top,
                margin_bottom: edges.bottom,
            },
        ),
        (Err(stop), _, _, _, _, _, _) => Err(stop),
        (_, Err(stop), _, _, _, _, _) => Err(stop),
        (_, _, Err(stop), _, _, _, _) => Err(stop),
        (_, _, _, Err(stop), _, _, _) => Err(stop),
        (_, _, _, _, Err(stop), _, _) => Err(stop),
        (_, _, _, _, _, Err(stop), _) => Err(stop),
        (_, _, _, _, _, _, Err(stop)) => Err(stop),
    }
}

pub fn get_waiter_style(style: &LayoutStyle, frame: &Size, window: &Size) -> (r: Result<
    WaiterStyle,
    Stop,
>)
    ensures
        r == waiter_style(*style, *frame, *window),
{
    let font: u32 = style.font_size;
    let across = Some(frame.width);
    let down = Some(frame.height);
    let top = match get_length(&style.inset.top, font, down, window) {
        Err(stop) => {
            return Err(stop);
        },
        Ok(length) => length,
    };
    let right = match get_length(&style.inset.right, font, across, window) {
        Err(stop) => {
            return Err(stop);
        },
        Ok(length) => length,
    };
    let bottom = match get_length(&style.inset.bottom, font, down, window) {
        Err(stop) => {
            return Err(stop);
        },
        Ok(length) => length,
    };
    let left = match get_length(&style.inset.left, font, across, window) {
        Err(stop) => {
            return Err(stop);
        },
        Ok(length) => length,
    };
    let margin_left = match get_length(&style.margin.left, font, across, window) {
        Err(stop) => {
            return Err(stop);
        },
        Ok(length) => length,
    };
    let margin_right = match get_length(&style.margin.right, font, across, window) {
        Err(stop) => {
            return Err(stop);
        },
        Ok(length) => length,
    };
    let edges = match get_margins(style, frame, window) {
        Err(stop) => {
            return Err(stop);
        },
        Ok(edges) => edges,
    };
    Ok(
        WaiterStyle {
            position: style.position,
            width_auto: is_auto(&style.width),
            height_auto: is_auto(&style.height),
            top,
            right,
            bottom,
            left,
            margin_left,
            margin_right,
            margin_left_auto: is_auto(&style.margin.left),
            margin_right_auto: is_auto(&style.margin.right),
            margin_top: edges.top,
            margin_bottom: edges.bottom,
        },
    )
}

} // verus!
