//! What layout promises about places and sizes: how large a container is and what is inside of it, how
//! one child stands beside or below the next, and where a box out of the flow goes.
use vstd::prelude::*;

use crate::boxes::border_side;
use crate::boxes::final_box;
use crate::boxes::is_box;
use crate::boxes::lemma_shift_keeps_all_but_places;
use crate::boxes::lemma_shift_stays_below;
use crate::boxes::shifted;
use crate::boxes::shifted_box;
use crate::boxes::shifted_children;
use crate::boxes::BoxModel;
use crate::boxes::StyleBackground;
use crate::boxes::StyleBorderStyle;
use crate::calc::applied;
use crate::calc::is_operator;
use crate::calc::lemma_small_numbers_are_exact;
use crate::calc::next_operator;
use crate::calc::operator_from;
use crate::calc::share_value;
use crate::calc::size_value;
use crate::calc::CalcSlot;
use crate::calc::CalcTerm;
use crate::calc::Share;
use crate::calc::SizeContext;
use crate::calc::SizeTerm;
use crate::calc::StyleCalcOperator;
use crate::flow::block_size;
use crate::flow::flow_begun;
use crate::flow::FlowModel;
use crate::flow::PlacedChild;
use crate::layout_boxes::child_facts;
use crate::layout_boxes::element_box;
use crate::layout_boxes::replaced_box;
use crate::layout_boxes::stacked;
use crate::layout_boxes::stacking;
use crate::layout_boxes::text_box;
use crate::layout_boxes::z_index;
use crate::layout_boxes::BodyModel;
use crate::layout_boxes::Call;
use crate::layout_model::block_laid_out;
use crate::layout_model::finished;
use crate::layout_model::flex_laid_out;
use crate::layout_model::free_room;
use crate::layout_model::grid_laid_out;
use crate::layout_model::node_laid_out;
use crate::layout_state::LayoutModel;
use crate::lengths::border_sizes;
use crate::lengths::font_size;
use crate::lengths::length;
use crate::lengths::margins;
use crate::lengths::paddings;
use crate::lengths::sides;
use crate::lengths::specified;
use crate::lengths::LayoutInput;
use crate::lengths::LayoutStyle;
use crate::lengths::Sides;
use crate::lengths::Stop;
use crate::margins::line_shift;
use crate::margins::used_width;
use crate::margins::MarginStyle;
use crate::margins::StyleAlign;
use crate::needs::Answers;
use crate::order::lemma_stable_positions;
use crate::order::precedes;
use crate::order::stable_positions;
use crate::paint::StylePosition;
use crate::sizing::bounded;
use crate::sizing::container_sizes;
use crate::sizing::containing_block;
use crate::sizing::entry;
use crate::sizing::ContainerSizes;
use crate::sizing::Edges;
use crate::sizing::OptionalSize;
use crate::sizing::Position;
use crate::sizing::Size;
use crate::sizing::SizesModel;
use crate::sizing::SpecifiedSizes;
use crate::stylesheet::StyleDisplay;
use crate::stylesheet::StyleZIndex;
use crate::waiters::frame_size;
use crate::waiters::move_across;
use crate::waiters::move_down;
use crate::waiters::waiter_moves;
use crate::waiters::waiter_x;
use crate::waiters::waiter_y;
use crate::waiters::ResumableNode;
use crate::waiters::WaiterStyle;

verus! {

/// A size between its limits stays as it is; one below the lower limit becomes it, and one above the
/// upper limit becomes that, unless the lower limit is larger still.
pub proof fn lemma_limits(value: u32, lower: Option<u32>, upper: Option<u32>)
    ensures
        ({
            let held = bounded(value, lower, upper);
            &&& lower matches Some(low) ==> held >= low
            &&& upper matches Some(high) ==> held <= high || (lower matches Some(low) && held == low)
            &&& (lower matches Some(low) ==> value >= low) && (upper matches Some(high) ==> value
                <= high) ==> held == value
            &&& held == value || lower == Some(held) || upper == Some(held)
        }),
{
}

/// A container has the size that is forced on it, else the one that its style asks for, else what is
/// available. What its padding and border take is missing inside, and nothing else is.
pub proof fn lemma_container_has_its_size(
    specified: SpecifiedSizes,
    forced: OptionalSize,
    available: Size,
    padding: Edges,
    border: Edges,
)
    requires
        specified.min_width is None,
        specified.max_width is None,
        specified.min_height is None,
        specified.max_height is None,
        specified.width matches Some(width) ==> width >= 0,
        specified.height matches Some(height) ==> height >= 0,
        padding.left >= 0 && padding.right >= 0 && padding.top >= 0 && padding.bottom >= 0,
        border.left >= 0 && border.right >= 0 && border.top >= 0 && border.bottom >= 0,
    ensures
        container_sizes(specified, forced, available, padding, border) matches Some(sizes) ==> {
            let across = padding.left + padding.right + border.left + border.right;
            let down = padding.top + padding.bottom + border.top + border.bottom;
            &&& match (forced.width, specified.width) {
                (Some(width), _) => sizes.container_width == width
                    && sizes.container_width_non_filling == Some(width),
                (None, Some(width)) => sizes.container_width == width
                    && sizes.container_width_non_filling == Some(width as u32),
                (None, None) => sizes.container_width == available.width
                    && sizes.container_width_non_filling is None,
            }
            &&& match (forced.height, specified.height) {
                (Some(height), _) => sizes.container_height == height
                    && sizes.container_height_non_filling == Some(height),
                (None, Some(height)) => sizes.container_height == height
                    && sizes.container_height_non_filling == Some(height as u32),
                (None, None) => sizes.container_height == available.height
                    && sizes.container_height_non_filling is None,
            }
            &&& across <= sizes.container_width ==> sizes.inner_width + across
                == sizes.container_width
            &&& across > sizes.container_width ==> sizes.inner_width == 0
            &&& down <= sizes.container_height ==> sizes.inner_height + down
                == sizes.container_height
            &&& down > sizes.container_height ==> sizes.inner_height == 0
            &&& sizes.padding_x == padding.left + padding.right
            &&& sizes.has_specified_height == (forced.height is Some || specified.height is Some)
        },
{
}

/// A container that does not fill its surroundings is as wide as its style asks for, else as wide as
/// its content and its padding. A picture that has not arrived is kept twice as wide as high.
pub proof fn lemma_unfilled_container(sizes: ContainerSizes, used: u32)
    requires
        sizes.min_width is None,
        sizes.max_width is None,
    ensures
        sizes.container_width_non_filling matches Some(width) ==> sizes.actual_width(used) == width,
        sizes.container_width_non_filling is None ==> sizes.actual_width(used) == used
            + sizes.padding_x,
        sizes.container_width_non_filling matches Some(width) ==> sizes.placeholder().1 == width,
        sizes.container_height_non_filling matches Some(height) ==> sizes.placeholder().0 == height,
        sizes.container_width_non_filling is None || sizes.container_height_non_filling is None
            ==> sizes.placeholder().1 == 2 * sizes.placeholder().0 || sizes.placeholder().1 == 2
            * sizes.placeholder().0 + 1 || sizes.placeholder().1 == u32::MAX,
{
}

/// Percentages of a node in the flow refer to the inside of its parent, those of one out of the flow to
/// its containing node, whatever its parent is. Only the root falls back on the window.
pub proof fn lemma_percentages_refer(
    sizes: SizesModel,
    position: StylePosition,
    parent: usize,
    other: Option<usize>,
    containing: usize,
    elsewhere: usize,
    window: Size,
    inside: OptionalSize,
)
    requires
        entry(sizes.content, parent as int) == Some(inside),
    ensures
        position is Static || position is Relative || position is Sticky ==> containing_block(
            sizes,
            position,
            Some(parent),
            containing,
            false,
            window,
        ) == (inside.height, inside.width),
        position is Absolute || position is Fixed ==> {
            let block = containing_block(sizes, position, other, containing, false, window);
            &&& entry(sizes.heights, containing as int) is Some ==> block.0 == entry(
                sizes.heights,
                containing as int,
            )
            &&& entry(sizes.widths, containing as int) is Some ==> block.1 == entry(
                sizes.widths,
                containing as int,
            )
            &&& block == containing_block(
                sizes,
                position,
                Some(parent),
                containing,
                false,
                window,
            )
        },
        position is Static && other is None ==> containing_block(
            sizes,
            position,
            other,
            containing,
            true,
            window,
        ) == (Some(window.height), Some(window.width)),
{
}

/// The four sides of a padding, a margin or a border have the lengths that were written for them, each
/// its own. A border that is not drawn takes nothing.
pub proof fn lemma_sides_have_their_lengths(
    style: LayoutStyle,
    left: i32,
    right: i32,
    top: i32,
    bottom: i32,
    block: (Option<u32>, Option<u32>),
    available: Size,
    window: Size,
)
    ensures
        style.padding.left == SizeTerm::Px(left) && style.padding.right == SizeTerm::Px(right)
            && style.padding.top == SizeTerm::Px(top) && style.padding.bottom == SizeTerm::Px(
            bottom,
        ) ==> paddings(style, block.1, window) == Ok::<Edges, Stop>(
            Edges { left, right, top, bottom },
        ),
        style.margin.left == SizeTerm::Px(left) && style.margin.right == SizeTerm::Px(right)
            && style.margin.top == SizeTerm::Px(top) && style.margin.bottom == SizeTerm::Px(bottom)
            ==> margins(style, available, window) == Ok::<Edges, Stop>(
            Edges { left, right, top, bottom },
        ),
        style.border.left.size == SizeTerm::Px(left) && style.border.right.size == SizeTerm::Px(
            right,
        ) && style.border.top.size == SizeTerm::Px(top) && style.border.bottom.size == SizeTerm::Px(
            bottom,
        ) ==> border_sizes(style, block.0, block.1, window) == Ok::<Edges, Stop>(
            Edges {
                left: if style.border.left.style is Solid {
                    left
                } else {
                    0
                },
                right: if style.border.right.style is Solid {
                    right
                } else {
                    0
                },
                top: if style.border.top.style is Solid {
                    top
                } else {
                    0
                },
                bottom: if style.border.bottom.style is Solid {
                    bottom
                } else {
                    0
                },
            },
        ),
        style.margin.left is Auto && style.margin.right is Auto && style.margin.top is Auto
            && style.margin.bottom is Auto ==> margins(style, available, window) == Ok::<Edges, Stop>(
            Edges { left: 0, right: 0, top: 0, bottom: 0 },
        ),
{
}

/// Percentages of the sides at the left and right refer to one length, those above and below to the
/// other: for paddings both are the width of the containing block.
pub proof fn lemma_sides_refer(
    given: Sides,
    style: LayoutStyle,
    font: u32,
    across: Option<u32>,
    down: Option<u32>,
    window: Size,
)
    ensures
        sides(given, font, across, down, window) matches Ok(edges) ==> {
            &&& length(given.left, font, across, window) matches Ok(Some(value)) ==> edges.left
                == value
            &&& length(given.right, font, across, window) matches Ok(Some(value)) ==> edges.right
                == value
            &&& length(given.top, font, down, window) matches Ok(Some(value)) ==> edges.top == value
            &&& length(given.bottom, font, down, window) matches Ok(Some(value)) ==> edges.bottom
                == value
        },
        paddings(style, across, window) matches Ok(edges) ==> {
            &&& length(style.padding.top, style.font_size, across, window) matches Ok(Some(value))
                ==> edges.top == value
            &&& length(style.padding.left, style.font_size, across, window) matches Ok(Some(value))
                ==> edges.left == value
        },
{
}

/// A length in pixels is what it says, whatever is around it. A share of the window refers to the side
/// of the window that it names, and an automatic length and one of the content are none.
pub proof fn lemma_lengths(value: i32, font: u32, available: Option<u32>, window: Size)
    requires
        window.width <= 0x7fff_ffff,
        window.height <= 0x7fff_ffff,
    ensures
        length(SizeTerm::Px(value), font, available, window) == Ok::<Option<i32>, Stop>(
            Some(value),
        ),
        length(SizeTerm::Auto, font, available, window) == Ok::<Option<i32>, Stop>(None),
        length(SizeTerm::Content, font, available, window) == Ok::<Option<i32>, Stop>(None),
        length(SizeTerm::ViewportWidth(100), font, available, window) matches Ok(Some(width))
            ==> width == window.width,
        length(SizeTerm::ViewportHeight(100), font, available, window) matches Ok(Some(height))
            ==> height == window.height,
        window.width <= 0x100_0000 ==> length(
            SizeTerm::ViewportWidth(100),
            font,
            available,
            window,
        ) is Ok,
        window.height <= 0x100_0000 ==> length(
            SizeTerm::ViewportHeight(100),
            font,
            available,
            window,
        ) is Ok,
        length(SizeTerm::ViewportWidth(0), font, available, window) == Ok::<Option<i32>, Stop>(
            Some(0),
        ),
{
}

/// A share is the part of what is available that it says: all of it, half of it, nothing. Without
/// something available there is none.
pub proof fn lemma_shares(available: u32, share: Share, font: u32, window: Size)
    requires
        available < 0x100_0000,
    ensures
        share.numerator == 0 ==> share_value(available, share) == 0,
        share.numerator == 1 && share.halvings == 0 ==> share_value(available, share) == available,
        share.numerator == 1 && share.halvings == 1 ==> {
            let half = share_value(available, share);
            2 * half <= available <= 2 * half + 1
        },
        length(SizeTerm::Share(share), font, None, window) == Ok::<Option<i32>, Stop>(None),
        length(SizeTerm::Share(share), font, Some(available), window) == Ok::<Option<i32>, Stop>(
            Some(share_value(available, share) as i32),
        ),
{
    lemma_small_numbers_are_exact(available as int);
    lemma_small_numbers_are_exact(0);
    reveal_with_fuel(crate::calc::halved, 3);
    if share.numerator == 0 {
        assert(available as int * share.numerator == 0);
        lemma_halving_nothing(share.halvings as nat);
    }
    if share.numerator == 1 {
        assert(available as int * share.numerator == available);
    }
}

proof fn lemma_halving_nothing(times: nat)
    ensures
        crate::calc::halved(0, times) == 0,
    decreases times,
{
    if times > 0 {
        lemma_halving_nothing((times - 1) as nat);
    }
}

/// A length between two others is held between them, and the lower one counts where they cross.
pub proof fn lemma_clamped_length(
    min: SizeTerm,
    value: SizeTerm,
    max: SizeTerm,
    context: SizeContext,
    low: int,
    wanted: int,
    high: int,
)
    requires
        size_value(min, context) == Ok::<Option<int>, crate::calc::CalcError>(Some(low)),
        size_value(value, context) == Ok::<Option<int>, crate::calc::CalcError>(Some(wanted)),
        size_value(max, context) == Ok::<Option<int>, crate::calc::CalcError>(Some(high)),
    ensures
        size_value(
            SizeTerm::Clamp { min: Box::new(min), value: Box::new(value), max: Box::new(max) },
            context,
        ) matches Ok(Some(held)) && {
            &&& held >= low
            &&& held <= high || held == low
            &&& low <= wanted <= high ==> held == wanted
            &&& held == low || held == wanted || held == high
        },
{
}

/// Operators do what they are called: what was added can be taken away again, a product is a multiple
/// of its factor, and a quotient times its divisor is never more than what was divided.
pub proof fn lemma_operators(a: int, b: int)
    ensures
        applied(StyleCalcOperator::Minus, applied(StyleCalcOperator::Plus, a, b), b) == a,
        applied(StyleCalcOperator::Plus, a, b) == applied(StyleCalcOperator::Plus, b, a),
        applied(StyleCalcOperator::Plus, a, 0) == a,
        applied(StyleCalcOperator::Multiply, a, 1) == a,
        applied(StyleCalcOperator::Multiply, a, 2) == applied(StyleCalcOperator::Plus, a, a),
        applied(StyleCalcOperator::Divide, a, 1) == a,
        applied(StyleCalcOperator::Divide, a, 0) == a,
        a >= 0 && b >= 1 ==> {
            let q = applied(StyleCalcOperator::Divide, a, b);
            q * b <= a < (q + 1) * b
        },
        a >= 0 && b >= 1 ==> applied(StyleCalcOperator::Divide, -a, b) == -applied(
            StyleCalcOperator::Divide,
            a,
            b,
        ),
{
    if a >= 0 && b >= 1 {
        vstd::arithmetic::div_mod::lemma_fundamental_div_mod(a, b);
        vstd::arithmetic::mul::lemma_mul_is_commutative(b, a / b);
        assert((a / b + 1) * b == (a / b) * b + b) by (nonlinear_arith);
        if a == 0 {
            assert(0int / b == 0) by (nonlinear_arith)
                requires
                    b >= 1,
            ;
        }
    }
}

/// A multiplication or division is solved before any addition or subtraction, wherever it stands, and
/// of the same strength the one further to the left.
pub proof fn lemma_strong_operators_come_first(terms: Seq<CalcTerm>, slots: Seq<CalcSlot>)
    ensures
        ({
            let at = next_operator(terms, slots);
            &&& 0 <= at <= slots.len()
            &&& at < slots.len() ==> is_operator(terms, slots[at], true) || is_operator(
                terms,
                slots[at],
                false,
            )
            &&& at < slots.len() && is_operator(terms, slots[at], false) ==> forall|i: int|
                0 <= i < slots.len() ==> !is_operator(terms, #[trigger] slots[i], true)
            &&& at < slots.len() && is_operator(terms, slots[at], true) ==> forall|i: int|
                0 <= i < at ==> !is_operator(terms, #[trigger] slots[i], true)
            &&& at < slots.len() && is_operator(terms, slots[at], false) ==> forall|i: int|
                0 <= i < at ==> !is_operator(terms, #[trigger] slots[i], false)
        }),
        forall|k: usize|
            k < terms.len() && (terms[k as int] == CalcTerm::Operator(StyleCalcOperator::Multiply)
                || terms[k as int] == CalcTerm::Operator(StyleCalcOperator::Divide))
                ==> #[trigger] is_operator(terms, CalcSlot::Term(k), true),
        forall|k: usize|
            k < terms.len() && (terms[k as int] == CalcTerm::Operator(StyleCalcOperator::Plus)
                || terms[k as int] == CalcTerm::Operator(StyleCalcOperator::Minus))
                ==> #[trigger] is_operator(terms, CalcSlot::Term(k), false),
{
    lemma_operator_from(terms, slots, true, 0);
    lemma_operator_from(terms, slots, false, 0);
}

proof fn lemma_operator_from(
    terms: Seq<CalcTerm>,
    slots: Seq<CalcSlot>,
    strong: bool,
    from: int,
)
    requires
        0 <= from <= slots.len(),
    ensures
        ({
            let at = operator_from(terms, slots, strong, from);
            &&& from <= at <= slots.len()
            &&& at < slots.len() ==> is_operator(terms, slots[at], strong)
            &&& forall|i: int|
                from <= i < at ==> !is_operator(terms, #[trigger] slots[i], strong)
        }),
    decreases slots.len() - from,
{
    if from < slots.len() && !is_operator(terms, slots[from], strong) {
        lemma_operator_from(terms, slots, strong, from + 1);
    }
}

/// What is asked of a node is what is forced on it, else what its style says: a height for its height
/// and a width for its width.
pub proof fn lemma_asked_sizes(
    input: LayoutInput,
    style: LayoutStyle,
    forced: OptionalSize,
    block: (Option<u32>, Option<u32>),
    width: i32,
    height: i32,
)
    requires
        style.width == SizeTerm::Px(width),
        style.height == SizeTerm::Px(height),
        width >= 0,
        height >= 0,
    ensures
        specified(input, style, forced, block) matches Ok(asked) && {
            &&& asked.0 == (if forced.height is Some {
                forced.height
            } else {
                Some(height as u32)
            })
            &&& asked.1 == (if forced.width is Some {
                forced.width
            } else {
                Some(width as u32)
            })
        },
{
}

/// A font size in pixels is what it says, and a share of a font size is one of the size around it. The
/// root has a size of its own.
pub proof fn lemma_font_sizes(value: i32, parent: Option<u32>, share: Share, window: Size)
    requires
        value >= 0,
    ensures
        font_size(SizeTerm::Px(value), parent, window) == Ok::<u32, Stop>(value as u32),
        parent matches Some(own) && own < 0x100_0000 && share.numerator == 1 && share.halvings == 0
            ==> font_size(SizeTerm::Share(share), parent, window) == Ok::<u32, Stop>(parent->0),
        font_size(SizeTerm::Auto, None, window) == Ok::<u32, Stop>(16),
{
    if let Some(own) = parent {
        if own < 0x100_0000 && share.numerator == 1 && share.halvings == 0 {
            lemma_shares(own, share, own, window);
        }
    }
}

/// The first child of a block stands where its padding ends.
pub proof fn lemma_first_child(cursor: Position, padding: Edges)
    ensures
        flow_begun(cursor, padding) matches Some(flow) ==> {
            &&& flow.x == cursor.x + padding.left
            &&& flow.y == cursor.y + padding.top
            &&& flow.children.len() == 0
            &&& flow.lines.len() == 0
            &&& flow.content_height() == 0
        },
{
}

/// Blocks stand below each other: the next child starts at the left edge again, below the child before
/// it and both of its margins. Each block is a line of its own.
pub proof fn lemma_blocks_stand_below_each_other(
    flow: FlowModel,
    child: PlacedChild,
    inner_width: u32,
)
    requires
        !child.inline_run,
        child.height <= i32::MAX,
    ensures
        ({
            let after = flow.after_child(child, inner_width);
            &&& after.x == flow.origin_x
            &&& after.y == flow.y + child.margins.top + child.height + child.margins.bottom
            &&& after.children == flow.children.push(child.id)
            &&& after.lines == flow.lines.push(seq![child.id])
            &&& after.max_child_width >= child.width && after.max_child_width
                >= flow.max_child_width
            &&& after.max_child_width == child.width || after.max_child_width
                == flow.max_child_width
            &&& after.row_height == 0
            &&& flow.correction(child, inner_width) == (0int, 0int)
        }),
{
}

/// Inline children stand beside each other while they fit: the next one starts where the one before it
/// and its margin end, on the same line. One that does not fit starts a line below the highest of the
/// line before, at the left edge.
pub proof fn lemma_inline_children_stand_on_lines(
    flow: FlowModel,
    child: PlacedChild,
    inner_width: u32,
)
    requires
        child.inline_run,
        child.width <= i32::MAX,
        inner_width <= i32::MAX,
        0 <= flow.row_height <= i32::MAX,
    ensures
        ({
            let after = flow.after_child(child, inner_width);
            let outer = child.width + child.margins.right;
            let fits = flow.line_width <= 0 || flow.line_width + outer <= inner_width;
            let moved = flow.correction(child, inner_width);
            &&& after.children == flow.children.push(child.id)
            &&& after.row_height >= child.height && after.row_height >= flow.row_height
            &&& after.row_height == child.height || after.row_height == flow.row_height
            &&& after.max_child_height >= after.row_height && after.max_child_height
                >= flow.max_child_height
            &&& after.max_child_height == after.row_height || after.max_child_height
                == flow.max_child_height
            &&& 0 <= after.line_width <= i32::MAX ==> after.max_child_width >= after.line_width
            &&& after.max_child_width >= flow.max_child_width
            &&& after.line_has_content
            &&& fits ==> {
                &&& moved == (0int, 0int)
                &&& after.x == flow.x + outer
                &&& after.y == flow.y
                &&& after.line_width == flow.line_width + outer
                &&& flow.line_has_content && flow.lines.len() > 0 ==> after.lines.len()
                    == flow.lines.len() && after.lines.last() == flow.lines.last().push(child.id)
            }
            &&& !fits ==> {
                &&& flow.x + moved.0 == flow.origin_x
                &&& moved.1 == flow.row_height
                &&& after.x == flow.origin_x + outer
                &&& after.y == flow.y + flow.row_height
                &&& after.line_width == outer
                &&& after.lines == flow.lines.push(seq![child.id])
            }
        }),
{
    let after = flow.after_child(child, inner_width);
    if flow.line_has_content && flow.lines.len() > 0 && !flow.wraps(child, inner_width) {
        assert(after.lines.last() == flow.lines.last().push(child.id));
    }
}

/// A line break goes to the start of the next line, below what stands on the line and at least as far
/// as a line of text is high.
pub proof fn lemma_line_break(flow: FlowModel, font: u32)
    requires
        font <= i32::MAX,
        0 <= flow.row_height <= i32::MAX,
    ensures
        ({
            let after = flow.after_break(font);
            &&& after.x == flow.origin_x
            &&& after.y >= flow.y + font
            &&& after.y >= flow.y + flow.row_height
            &&& after.y == flow.y + font || after.y == flow.y + flow.row_height
            &&& after.line_width == 0
            &&& !after.line_has_content
            &&& after.children == flow.children
            &&& after.lines == flow.lines
        }),
{
}

/// A block is as high as it is asked to be, else as its content and its padding. It is as wide as what
/// is available where it fills that, else as its widest child. Its limits hold in any case.
pub proof fn lemma_block_has_its_size(
    flow: FlowModel,
    specified_height: Option<u32>,
    sizes: ContainerSizes,
    padding: Edges,
    fills: bool,
)
    requires
        sizes.min_height is None,
        sizes.max_height is None,
        sizes.min_width is None,
        sizes.max_width is None,
        padding.top >= 0,
        padding.bottom >= 0,
        padding.top + padding.bottom <= i32::MAX,
        0 <= flow.row_height,
        0 <= flow.max_child_height,
        0 <= flow.max_child_width <= u32::MAX,
        flow.content_height() + padding.top + padding.bottom <= u32::MAX,
        flow.max_child_width + sizes.padding_x <= u32::MAX,
    ensures
        ({
            let size = block_size(flow, specified_height, sizes, padding, fills);
            &&& specified_height matches Some(height) ==> size.height == height
            &&& specified_height is None ==> size.height == size.content_height + padding.top
                + padding.bottom
            &&& size.content_height >= flow.y - flow.origin_y + flow.row_height
            &&& size.content_height >= flow.max_child_height
            &&& fills ==> size.width == sizes.container_width
            &&& !fills && sizes.container_width_non_filling is None ==> size.width
                == flow.max_child_width + sizes.padding_x
            &&& !fills ==> (sizes.container_width_non_filling matches Some(width) ==> size.width
                == width)
        }),
{
}

/// What stands on a line and what does not.
pub proof fn lemma_displays(display: StyleDisplay)
    ensures
        display is Inline || display is InlineBlock || display is InlineFlex ==> display.on_line(),
        display is Block || display is Flex || display is Grid || display is Absent
            ==> !display.on_line(),
{
}

/// The widths of the boxes of a line, added up.
pub open spec fn widths_of(boxes: Seq<BoxModel>, row: Seq<usize>) -> int
    decreases row.len(),
{
    if row.len() == 0 {
        0
    } else {
        widths_of(boxes, row.drop_last()) + boxes[row.last() - 1].rect.width
    }
}

proof fn lemma_used_width(boxes: Seq<BoxModel>, row: Seq<usize>)
    requires
        forall|k: int|
            0 <= k < row.len() ==> (#[trigger] boxes[row[k] - 1]).rect.width <= i32::MAX,
    ensures
        used_width(boxes, row) matches Some(used) ==> used == widths_of(boxes, row),
    decreases row.len(),
{
    if row.len() > 0 {
        let less = row.drop_last();
        assert forall|k: int| 0 <= k < less.len() implies (#[trigger] boxes[less[k] - 1]).rect.width
            <= i32::MAX by {
            assert(less[k] == row[k]);
        }
        lemma_used_width(boxes, less);
        assert(row.last() == row[row.len() - 1]);
        assert(boxes[row[row.len() - 1] - 1].rect.width <= i32::MAX);
    }
}

/// A line whose texts are all centred stands in the middle of its container, one whose texts are all
/// to the right at its end, and one whose texts are all to the left at its start, unless its outer
/// margins are automatic. Nothing is moved where there is no space.
pub proof fn lemma_lines_are_aligned(
    boxes: Seq<BoxModel>,
    facts: Seq<MarginStyle>,
    row: Seq<usize>,
    width: i32,
    align: StyleAlign,
)
    requires
        row.len() > 0,
        forall|k: int|
            0 <= k < row.len() ==> (#[trigger] boxes[row[k] - 1]).rect.width <= i32::MAX,
        forall|k: int| 0 <= k < row.len() ==> facts[(#[trigger] row[k]) - 1].text_align == align,
    ensures
        line_shift(boxes, facts, row, width) matches Some(shift) ==> {
            let free = if width >= widths_of(boxes, row) {
                width - widths_of(boxes, row)
            } else {
                0
            };
            let behind = free - shift;
            &&& behind >= 0
            &&& align is Center ==> shift <= behind <= shift + 1
            &&& align is Right ==> behind == 0
            &&& align is Left && !facts[row[0] - 1].left_auto ==> shift == 0
            &&& align is Left && facts[row[0] - 1].left_auto && !facts[row[row.len() - 1]
                - 1].right_auto ==> behind == 0
            &&& align is Left && facts[row[0] - 1].left_auto && facts[row[row.len() - 1]
                - 1].right_auto ==> shift <= behind <= shift + 1
        },
{
    lemma_used_width(boxes, row);
    assert(facts[row[0] - 1].text_align == align);
    assert(row.first() == row[0]);
    assert(row.last() == row[row.len() - 1]);
}

/// What is left of a width once the padding is taken, and of a height once the content is.
pub proof fn lemma_free_room(width: u32, padding: Edges, inner_height: u32, content_height: u32)
    requires
        width <= i32::MAX,
        inner_height <= i32::MAX,
        content_height <= i32::MAX,
    ensures
        free_room(width, padding, inner_height, content_height) matches Some((room, below)) ==> {
            &&& room + padding.left + padding.right == width
            &&& content_height <= inner_height ==> below + content_height == inner_height
            &&& content_height >= inner_height ==> below == 0
        },
{
}

/// A fixed node is placed in the window, any other in its containing node. It starts at the corner of
/// that, or where it would have stood in the flow along an axis for which it has no offset.
pub proof fn lemma_waiting_nodes_start(
    style: WaiterStyle,
    waiter: ResumableNode,
    cursor: Position,
    container: Size,
    window: Size,
)
    ensures
        style.position is Fixed ==> frame_size(style.position, container, window) == window,
        !(style.position is Fixed) ==> frame_size(style.position, container, window) == container,
        style.position is Fixed ==> waiter_x(style, waiter, cursor) == 0 && waiter_y(
            style,
            waiter,
            cursor,
        ) == 0,
        style.position is Absolute && (style.left is Some || style.right is Some) ==> waiter_x(
            style,
            waiter,
            cursor,
        ) == cursor.x,
        style.position is Absolute && (style.top is Some || style.bottom is Some) ==> waiter_y(
            style,
            waiter,
            cursor,
        ) == cursor.y,
        style.position is Absolute && waiter.static_position_offset is None ==> waiter_x(
            style,
            waiter,
            cursor,
        ) == cursor.x && waiter_y(style, waiter, cursor) == cursor.y,
        style.position is Absolute && style.left is None && style.right is None ==> (
        waiter.static_position_offset matches Some(found) ==> waiter_x(style, waiter, cursor)
            == cursor.x + found.offset.x),
        style.position is Absolute && style.top is None && style.bottom is None ==> (
        waiter.static_position_offset matches Some(found) ==> waiter_y(style, waiter, cursor)
            == cursor.y + found.offset.y),
{
}

/// A node with a left or top offset stands that far from the edge; one with a right or bottom offset
/// leaves exactly that free at the other side. One without offsets whose margins are automatic on both
/// sides stands in the middle.
pub proof fn lemma_offsets(style: WaiterStyle, frame: Size, width: u32, height: u32)
    requires
        style.position is Absolute || style.position is Fixed,
        !style.width_auto,
        width <= i32::MAX,
        height <= i32::MAX,
        frame.width <= i32::MAX,
        frame.height <= i32::MAX,
        style.margin_left == Some(0i32),
        style.margin_right == Some(0i32),
    ensures
        style.right is None ==> (style.left matches Some(left) ==> move_across(style, frame, width).0
            == Some(left as int)),
        style.right matches Some(right) ==> (move_across(style, frame, width).0 matches Some(dx) && dx
            + width + right == frame.width),
        style.top matches Some(top) ==> move_down(style, frame, height).0 == Some(top as int),
        style.top is None ==> (style.bottom matches Some(bottom) ==> (move_down(
            style,
            frame,
            height,
        ).0 matches Some(dy) && dy + height + bottom == frame.height)),
        style.left is None && style.right is None && style.margin_left_auto
            && style.margin_right_auto && width <= frame.width ==> (move_across(
            style,
            frame,
            width,
        ).0 matches Some(dx) && dx <= frame.width - width - dx <= dx + 1),
        style.left is None && style.right is None && !(style.margin_left_auto
            && style.margin_right_auto) ==> move_across(style, frame, width).0 is None,
        style.top is None && style.bottom is None ==> move_down(style, frame, height).0 is None,
{
}

/// Only nodes out of the flow are moved by offsets.
pub proof fn lemma_nodes_in_the_flow_stay(
    style: WaiterStyle,
    waiter: ResumableNode,
    frame: Size,
    width: u32,
    height: u32,
)
    ensures
        style.position is Static || style.position is Relative || style.position is Sticky
            ==> waiter_moves(style, waiter, frame, width, height).len() == 0,
{
}

/// A box that is shifted goes as far to the right and as far down as asked, and keeps its size; so does
/// everything directly below it.
pub proof fn lemma_shifted_box(boxes: Seq<BoxModel>, id: int, dx: int, dy: int)
    requires
        is_box(boxes, id),
    ensures
        shifted(boxes, id, dx, dy) matches Some(after) ==> {
            &&& after.len() == boxes.len()
            &&& after[id - 1].rect.x == boxes[id - 1].rect.x + dx
            &&& after[id - 1].rect.y == boxes[id - 1].rect.y + dy
            &&& after[id - 1].rect.width == boxes[id - 1].rect.width
            &&& after[id - 1].rect.height == boxes[id - 1].rect.height
        },
{
    if let Some(after) = shifted(boxes, id, dx, dy) {
        let own = boxes.update(id - 1, shifted_box(boxes[id - 1], dx, dy));
        lemma_children_leave_parent(own, id, boxes[id - 1].children, dx, dy);
    }
}

proof fn lemma_children_leave_parent(
    boxes: Seq<BoxModel>,
    id: int,
    children: Seq<usize>,
    dx: int,
    dy: int,
)
    requires
        is_box(boxes, id),
    ensures
        shifted_children(boxes, id, children, dx, dy) matches Some(after) ==> after.len()
            == boxes.len() && after[id - 1] == boxes[id - 1],
    decreases children.len(),
{
    if children.len() > 0 {
        lemma_children_leave_parent(boxes, id, children.drop_last(), dx, dy);
        if let Some(before) = shifted_children(boxes, id, children.drop_last(), dx, dy) {
            if 0 < children.last() < id && shifted(before, children.last() as int, dx, dy) is Some {
                lemma_shift_stays_below(before, children.last() as int, dx, dy);
                lemma_shift_keeps_all_but_places(before, children.last() as int, dx, dy);
                let after = shifted(before, children.last() as int, dx, dy)->0;
                assert(after[id - 1] == before[id - 1]);
            }
        }
    }
}

/// Whether a node got a box of its own, the last one, at the place that was asked for.
pub open spec fn stands_where_asked(
    outcome: Result<(LayoutModel, Option<usize>), Stop>,
    call: Call,
) -> bool {
    outcome matches Ok((after, Some(id))) ==> {
        &&& id == after.boxes.len()
        &&& id > 0
        &&& after.boxes[id - 1].rect.x == call.cursor.x
        &&& after.boxes[id - 1].rect.y == call.cursor.y
        &&& after.boxes[id - 1].node_idx == call.node_idx
    }
}

/// A node that is laid out gets a box of its own, the last one, at the place that was asked for.
pub proof fn lemma_box_stands_where_asked(
    input: LayoutInput,
    answers: Answers,
    state: LayoutModel,
    call: Call,
    fuel: nat,
)
    ensures
        stands_where_asked(node_laid_out(input, answers, state, call, fuel), call),
{
    if fuel > 0 {
        if let Some(style) = input.style(call.node_idx) {
            let started = if call.complete {
                LayoutModel {
                    sizes: state.sizes.with_resolved(call.node_idx as int, None, None),
                    ..state
                }
            } else {
                state
            };
            let inside = (fuel - 1) as nat;
            lemma_text_stands_where_asked(answers, started, call, style);
            lemma_picture_stands_where_asked(input, answers, started, call, style);
            lemma_element_stands_where_asked(
                input,
                answers,
                call,
                style,
                block_laid_out(input, answers, started, call, style, inside),
            );
            lemma_element_stands_where_asked(
                input,
                answers,
                call,
                style,
                flex_laid_out(input, answers, started, call, style, inside),
            );
            lemma_element_stands_where_asked(
                input,
                answers,
                call,
                style,
                grid_laid_out(input, answers, started, call, style, inside),
            );
            lemma_node_is_one_of_these(input, answers, state, started, call, style, fuel);
        }
    }
}

proof fn lemma_node_is_one_of_these(
    input: LayoutInput,
    answers: Answers,
    state: LayoutModel,
    started: LayoutModel,
    call: Call,
    style: LayoutStyle,
    fuel: nat,
)
    requires
        fuel > 0,
        input.style(call.node_idx) == Some(style),
        started == (if call.complete {
            LayoutModel {
                sizes: state.sizes.with_resolved(call.node_idx as int, None, None),
                ..state
            }
        } else {
            state
        }),
    ensures
        ({
            let outcome = node_laid_out(input, answers, state, call, fuel);
            let inside = (fuel - 1) as nat;
            ||| outcome == Ok::<(LayoutModel, Option<usize>), Stop>((started, None))
            ||| outcome == text_box(answers, started, call, style)
            ||| outcome == replaced_box(input, answers, started, call, style)
            ||| outcome == finished(
                input,
                answers,
                call,
                style,
                block_laid_out(input, answers, started, call, style, inside),
            )
            ||| outcome == finished(
                input,
                answers,
                call,
                style,
                flex_laid_out(input, answers, started, call, style, inside),
            )
            ||| outcome == finished(
                input,
                answers,
                call,
                style,
                grid_laid_out(input, answers, started, call, style, inside),
            )
        }),
{
}

proof fn lemma_text_stands_where_asked(
    answers: Answers,
    state: LayoutModel,
    call: Call,
    style: LayoutStyle,
)
    ensures
        stands_where_asked(text_box(answers, state, call, style), call),
{
}

proof fn lemma_picture_stands_where_asked(
    input: LayoutInput,
    answers: Answers,
    state: LayoutModel,
    call: Call,
    style: LayoutStyle,
)
    ensures
        stands_where_asked(replaced_box(input, answers, state, call, style), call),
{
}

proof fn lemma_element_stands_where_asked(
    input: LayoutInput,
    answers: Answers,
    call: Call,
    style: LayoutStyle,
    inside: Result<(LayoutModel, BodyModel), Stop>,
)
    ensures
        stands_where_asked(finished(input, answers, call, style, inside), call),
{
}

/// The box of an element has the size of its inside and its `z-index`, and is found under its node
/// where it is kept.
pub proof fn lemma_box_of_an_element(
    input: LayoutInput,
    answers: Answers,
    state: LayoutModel,
    call: Call,
    style: LayoutStyle,
    body: BodyModel,
)
    ensures
        element_box(input, answers, state, call, style, body) matches Ok((after, Some(id))) ==> {
            let own = after.boxes[id - 1];
            &&& id == state.boxes.len() + 1
            &&& after.boxes.drop_last() == state.boxes
            &&& own.rect.width == body.width
            &&& own.rect.height == body.height
            &&& own.content_height == body.content_height
            &&& own.kind is Element
            &&& style.z_index matches StyleZIndex::Number(value) ==> own.z_index
                == value
            &&& style.z_index is Auto ==> own.z_index == 0
            &&& !(style.background is DataUrl) ==> own.rect.background == style.background
            &&& call.save && final_box(state.finals, call.node_idx) is None ==> final_box(
                after.finals,
                call.node_idx,
            ) == Some(id)
        },
{
    if let Ok((after, Some(id))) = element_box(input, answers, state, call, style, body) {
        assert(after.boxes.drop_last() =~= state.boxes);
    }
}

/// The boxes in an element stand by ascending `z-index`; those with the same keep their order, and none
/// is lost.
pub proof fn lemma_children_are_stacked(boxes: Seq<BoxModel>, ids: Seq<usize>)
    requires
        ids.len() <= usize::MAX,
    ensures
        stacked(boxes, ids).len() == ids.len(),
        forall|i: int, j: int|
            0 <= i < j < ids.len() ==> boxes[(#[trigger] stacked(boxes, ids)[i]) - 1].z_index
                <= boxes[(#[trigger] stacked(boxes, ids)[j]) - 1].z_index,
        forall|k: int| 0 <= k < ids.len() ==> stacked(boxes, ids).contains(#[trigger] ids[k]),
{
    let keys = stacking(boxes, ids);
    lemma_stable_positions(keys);
    let sorted = stable_positions(keys);
    let after = stacked(boxes, ids);
    assert forall|i: int, j: int| 0 <= i < j < ids.len() implies boxes[(#[trigger] after[i])
        - 1].z_index <= boxes[(#[trigger] after[j]) - 1].z_index by {
        assert(precedes(keys, sorted[i], sorted[j]));
        assert(keys[sorted[i] as int] == boxes[after[i] - 1].z_index);
        assert(keys[sorted[j] as int] == boxes[after[j] - 1].z_index);
    }
    assert forall|k: int| 0 <= k < ids.len() implies after.contains(#[trigger] ids[k]) by {
        assert(sorted.contains(k as usize));
        let i = choose|i: int| 0 <= i < sorted.len() && sorted[i] == k as usize;
        assert(after[i] == ids[k]);
    }
}

/// A child is out of the flow exactly where it is absolute or fixed, and children keep their order.
pub proof fn lemma_child_facts(input: LayoutInput, children: Seq<usize>)
    requires
        forall|i: int| 0 <= i < children.len() ==> input.style(#[trigger] children[i]) is Some,
    ensures
        child_facts(input, children).len() == children.len(),
        forall|i: int|
            0 <= i < children.len() ==> {
                let fact = #[trigger] child_facts(input, children)[i];
                let style = input.style(children[i])->0;
                &&& fact.node_idx == children[i]
                &&& fact.free == (style.position is Absolute || style.position is Fixed)
                &&& fact.order == style.order
            },
    decreases children.len(),
{
    if children.len() > 0 {
        let less = children.drop_last();
        assert forall|i: int| 0 <= i < less.len() implies input.style(#[trigger] less[i]) is Some by {
            assert(less[i] == children[i]);
        }
        lemma_child_facts(input, less);
        assert(children.last() == children[children.len() - 1]);
        assert forall|i: int| 0 <= i < children.len() implies ({
            let fact = #[trigger] child_facts(input, children)[i];
            let style = input.style(children[i])->0;
            &&& fact.node_idx == children[i]
            &&& fact.free == (style.position is Absolute || style.position is Fixed)
            &&& fact.order == style.order
        }) by {
            if i < less.len() {
                assert(child_facts(input, children)[i] == child_facts(input, less)[i]);
                assert(less[i] == children[i]);
            }
        }
    }
}

/// A border side is drawn only where it is solid and has a size. It has its own colour, or that of the
/// text where it asks for it.
pub proof fn lemma_border_sides(
    style: StyleBorderStyle,
    size: i32,
    color: StyleBackground,
    text: u32,
)
    requires
        size >= 0,
    ensures
        style is Absent ==> border_side(style, Some(size), color, StyleBackground::Hex(text)) is None,
        border_side(style, None, color, StyleBackground::Hex(text)) is None,
        style is Solid ==> {
            let side = border_side(style, Some(size), color, StyleBackground::Hex(text));
            &&& side matches Some(side) ==> side.size == size
            &&& color matches StyleBackground::Hex(hex) ==> (side matches Some(side) && side.color
                == hex)
            &&& color is CurrentColor ==> (side matches Some(side) && side.color == text)
            &&& color is Transparent ==> (side matches Some(side) && side.color & 0xFF == 0)
        },
{
    assert(0xFFFF_FF00u32 & 0xFF == 0) by (bit_vector);
}

} // verus!
