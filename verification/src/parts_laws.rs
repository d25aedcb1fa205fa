//! What the parts of a layout, of a script and of the window hand on to each other.
use vstd::prelude::*;

use crate::blit::Pixmap;
use crate::boxes::LayoutBox;
use crate::boxes::LayoutTable;
use crate::calc::lemma_small_numbers_are_exact;
use crate::calc::rounded_to;
use crate::calc::single_unit;
use crate::calc::to_single;
use crate::canvas::CanvasModel;
use crate::canvas::RECT_COLOR;
use crate::cascade::css_children;
use crate::cascade::declared_text;
use crate::cascade::definitions_in;
use crate::css_laws::lemma_trimmed_stays;
use crate::custom_elements::shadow_mode;
use crate::custom_elements::ShadowRootMode;
use crate::dom::lookup;
use crate::dom::node_at;
use crate::dom::AttributesModel;
use crate::dom::NodesModel;
use crate::elements::has_loaded;
use crate::elements::in_all_classes;
use crate::elements::selected_by;
use crate::elements::LoadPhase;
use crate::flex::basis_available;
use crate::flex::line_size;
use crate::flex::LineModel;
use crate::flex::SizeDependentStaticOffset;
use crate::flex::StaticPositionOffset;
use crate::flex::StyleFlexDirection;
use crate::flex_sizes::scaled_shrink;
use crate::flex_sizes::target_need;
use crate::flex_sizes::FlexBase;
use crate::flex_sizes::FlexPlan;
use crate::flow::block_size;
use crate::flow::FlowModel;
use crate::frame::navigated;
use crate::frame::UserNavigateUrl;
use crate::grid::GridTrack;
use crate::grid::PlacerModel;
use crate::grid::TrackMax;
use crate::grid_axis::track_of;
use crate::header::address_bar;
use crate::header::fps_text;
use crate::header::ADDRESS_CHANGED;
use crate::header::ADDRESS_CONFIRMED;
use crate::host::input_type;
use crate::html::char_of;
use crate::html::decoded;
use crate::images::reader_name;
use crate::images::ImageData;
use crate::images::PictureModel;
use crate::index::place_of_text;
use crate::layout_boxes::no_size;
use crate::layout_boxes::Call;
use crate::layout_model::basis_forced;
use crate::layout_model::block_finished;
use crate::layout_model::call_inside;
use crate::layout_model::call_to_measure;
use crate::layout_model::flex_base;
use crate::layout_model::flex_basis;
use crate::layout_model::flex_finished;
use crate::layout_model::grid_base;
use crate::layout_model::measured_item;
use crate::layout_model::node_laid_out;
use crate::layout_model::queued_from;
use crate::layout_model::Run;
use crate::layout_state::LayoutModel;
use crate::lengths::length;
use crate::lengths::specified_sizes;
use crate::lengths::LayoutInput;
use crate::lengths::LayoutStyle;
use crate::lengths::Stop;
use crate::lengths::TrackLength;
use crate::lengths::TrackStyle;
use crate::matching::MatchEnv;
use crate::needs::Answers;
use crate::needs::Need;
use crate::numbers::decimal;
use crate::numbers::unsigned_value;
use crate::observers::mutation_record;
use crate::observers::told_at;
use crate::observers::with_wish;
use crate::paint::whole_window;
use crate::paint::RenderedNode;
use crate::paint::SurfaceModel;
use crate::picture_laws::canvas_pixel;
use crate::picture_laws::lemma_rectangle_is_filled;
use crate::pixel::pack_rgba;
use crate::redirect::element_target;
use crate::redirect::instruction_target;
use crate::script_runs::document_pairs;
use crate::script_runs::run_from;
use crate::script_runs::RunModel;
use crate::scripts::script_kind;
use crate::scripts::ScriptType;
use crate::shapes::collapsed;
use crate::shapes::input_value;
use crate::sizing::entry;
use crate::sizing::ContainerSizes;
use crate::sizing::Edges;
use crate::sizing::OptionalSize;
use crate::sizing::Position;
use crate::sizing::Size;
use crate::snapshots::is_picture;
use crate::snapshots::snapshot_outcome;
use crate::stylesheet::condition_of_text;
use crate::stylesheet::CssNodeModel;
use crate::text::ascii_lower;
use crate::text::index_of;
use crate::text::is_space;
use crate::text::lemma_index_of;
use crate::text::pieces;
use crate::text::starts;
use crate::text::trimmed;
use crate::text::trimmed_start;
use crate::ui_layout::UiBox;
use crate::ui_runtime::same_corners;
use crate::ui_runtime::ui_painted;
use crate::urls::joined_url;
use crate::urls::url_with_pairs;
use crate::viewport::box_in_view;
use crate::viewport::first_rendered;
use crate::viewport::scrolled_at;
use crate::waiters::move_static;
use crate::waiters::ResumableNode;
use crate::waiters::WaiterStyle;

verus! {

/// Each side and each bound of a box is the length of the property of its own name, heights measured
/// against the height of the containing block and widths against its width.
pub proof fn lemma_bounds_are_read_from_their_properties(
    style: LayoutStyle,
    height: Option<u32>,
    width: Option<u32>,
    window: Size,
)
    ensures
        specified_sizes(style, height, width, window) matches Ok(sizes) ==> {
            &&& length(style.width, style.font_size, width, window) == Ok::<_, Stop>(sizes.width)
            &&& length(style.min_width, style.font_size, width, window) == Ok::<_, Stop>(
                sizes.min_width,
            )
            &&& length(style.max_width, style.font_size, width, window) == Ok::<_, Stop>(
                sizes.max_width,
            )
            &&& length(style.height, style.font_size, height, window) == Ok::<_, Stop>(sizes.height)
            &&& length(style.min_height, style.font_size, height, window) == Ok::<_, Stop>(
                sizes.min_height,
            )
            &&& length(style.max_height, style.font_size, height, window) == Ok::<_, Stop>(
                sizes.max_height,
            )
        },
{
}

/// What is measured leaves no box behind and fills nothing; what is laid out inside a node is kept as the
/// node itself is.
pub proof fn lemma_measuring_leaves_no_mark(
    run: Run,
    node_idx: usize,
    cursor: Position,
    available: Size,
    forced: OptionalSize,
)
    ensures
        ({
            let call = call_to_measure(run, node_idx, cursor, forced);
            &&& !call.save && !call.complete && !call.allow_fill
            &&& call.node_idx == node_idx && call.cursor == cursor && call.forced == forced
            &&& call.available == run.inner && call.containing == run.containing
        }),
        ({
            let call = call_inside(run, node_idx, cursor, available, forced);
            &&& call.save == run.call.save && call.complete == run.call.complete
            &&& call.allow_fill == run.fill
            &&& call.node_idx == node_idx && call.cursor == cursor && call.forced == forced
            &&& call.available == available && call.containing == run.containing
        }),
{
}

/// Whether a node is being measured only: nothing of it is kept and it fills nothing.
pub open spec fn only_measured(call: Call, run: Run, item: usize) -> bool {
    &&& call.node_idx == item
    &&& !call.save
    &&& !call.complete
    &&& !call.allow_fill
    &&& call.available == run.inner
    &&& call.containing == run.containing
}

/// The items of a flex container are measured before they are placed.
pub proof fn lemma_items_are_measured(
    input: LayoutInput,
    answers: Answers,
    state: LayoutModel,
    run: Run,
    style: LayoutStyle,
    sizes: ContainerSizes,
    definite: bool,
    item: usize,
    fuel: nat,
)
    ensures
        flex_base(input, answers, state, Seq::empty(), run, style, sizes, definite, item, fuel) matches Ok(
            (after, bases),
        ) ==> {
            &&& bases.len() <= 1
            &&& bases.len() == 1 ==> bases[0].node_idx == item
            &&& exists|call: Call|
                only_measured(call, run, item) && (#[trigger] node_laid_out(
                    input,
                    answers,
                    state,
                    call,
                    fuel,
                ) matches Ok((end, made)) && end == after && (made is Some) == (bases.len() == 1))
        },
{
    if let Some(child) = input.style(item) {
        if let Ok(basis) = flex_basis(child, style.flex_direction, sizes, definite, input.window) {
            let call = call_to_measure(
                run,
                item,
                Position { x: 0, y: 0 },
                basis_forced(style.flex_direction, basis),
            );
            assert(only_measured(call, run, item));
            let made = node_laid_out(input, answers, state, call, fuel);
        }
    }
}

/// The items of a grid are measured before they are placed.
pub proof fn lemma_cells_are_measured(
    input: LayoutInput,
    answers: Answers,
    state: LayoutModel,
    placer: PlacerModel,
    run: Run,
    origin: Position,
    item: usize,
    fuel: nat,
)
    ensures
        grid_base(input, answers, state, placer, run, origin, item, fuel) matches Ok((after, next))
            ==> exists|call: Call|
            only_measured(call, run, item) && (#[trigger] node_laid_out(
                input,
                answers,
                state,
                call,
                fuel,
            ) matches Ok((end, made)) && end == after),
{
    let call = call_to_measure(run, item, origin, no_size());
    assert(only_measured(call, run, item));
    let made = node_laid_out(input, answers, state, call, fuel);
}

/// An item of a flex container starts from what was measured of it, cut to its own limits: along a row its
/// width, along a column its height. It grows and shrinks by its own factors.
pub proof fn lemma_item_is_as_measured(
    style: LayoutStyle,
    child: LayoutStyle,
    node_idx: usize,
    allow_fill: bool,
    sizes: ContainerSizes,
    window: Size,
    margin: i32,
    width: u32,
    height: u32,
)
    requires
        width < 0x100_0000,
        height < 0x100_0000,
    ensures
        measured_item(style, child, node_idx, allow_fill, sizes, window, margin, width, height) matches Ok(
            base,
        ) ==> {
            let row = style.flex_direction is Row;
            let max_width = length(
                child.max_width,
                style.font_size,
                Some(sizes.inner_width),
                window,
            );
            let max_height = length(
                child.max_height,
                style.font_size,
                Some(sizes.inner_height),
                window,
            );
            &&& base.node_idx == node_idx && base.margin == margin
            &&& base.grow == child.flex_grow && base.shrink == child.flex_shrink
            &&& max_width matches Ok(None) ==> (if row {
                base.base
            } else {
                base.cross
            }) == width
            &&& max_height matches Ok(None) ==> (if row {
                base.cross
            } else {
                base.base
            }) == height
            &&& (max_width matches Ok(Some(most)) && 0 <= most < 0x100_0000) ==> {
                let most = max_width->Ok_0->Some_0 as int;
                &&& (if row {
                    base.base
                } else {
                    base.cross
                }) == (if width <= most {
                    width as int
                } else {
                    most
                })
                &&& (if row {
                    base.max
                } else {
                    base.max_cross
                }) == most
            }
            &&& (max_height matches Ok(Some(most)) && 0 <= most < 0x100_0000) ==> {
                let most = max_height->Ok_0->Some_0 as int;
                &&& (if row {
                    base.cross
                } else {
                    base.base
                }) == (if height <= most {
                    height as int
                } else {
                    most
                })
                &&& (if row {
                    base.max_cross
                } else {
                    base.max
                }) == most
            }
        },
{
    lemma_small_numbers_are_exact(width as int);
    lemma_small_numbers_are_exact(height as int);
    lemma_no_limit_is_large();
    if let Ok(Some(most)) = length(
        child.max_width,
        style.font_size,
        Some(sizes.inner_width),
        window,
    ) {
        if 0 <= most < 0x100_0000 {
            lemma_small_numbers_are_exact(most as int);
        }
    }
    if let Ok(Some(most)) = length(
        child.max_height,
        style.font_size,
        Some(sizes.inner_height),
        window,
    ) {
        if 0 <= most < 0x100_0000 {
            lemma_small_numbers_are_exact(most as int);
        }
    }
}

/// The limit that stands for no limit stays above the small numbers.
proof fn lemma_no_limit_is_large()
    ensures
        to_single(i32::MAX as int) >= 0x100_0000,
{
    reveal_with_fuel(single_unit, 10);
    assert(single_unit(0x7fff_ffff) == 128);
    assert(0x7fff_ffffint / 128 == 0xff_ffff);
    assert(0x7fff_ffffint % 128 == 127);
    assert(rounded_to(0x7fff_ffff, 128) == 0x8000_0000);
}

/// A flex container fills the width that it is given, unless it stands on a line or may not fill.
pub proof fn lemma_flex_container_fills(
    input: LayoutInput,
    answers: Answers,
    state: LayoutModel,
    line: LineModel,
    run: Run,
    style: LayoutStyle,
    sizes: ContainerSizes,
    padding: Edges,
    specified_height: Option<u32>,
    free: Seq<usize>,
    fuel: nat,
)
    ensures
        flex_finished(
            input,
            answers,
            state,
            line,
            run,
            style,
            sizes,
            padding,
            specified_height,
            free,
            fuel,
        ) matches Ok((end, body)) ==> {
            &&& !run.call.allow_fill || style.display is InlineFlex ==> body.width == line_size(
                line,
                specified_height,
                sizes,
                padding,
                false,
            ).width
            &&& run.call.allow_fill && style.display is Flex ==> body.width == line_size(
                line,
                specified_height,
                sizes,
                padding,
                true,
            ).width
            &&& specified_height is Some ==> body.height == line_size(
                line,
                specified_height,
                sizes,
                padding,
                false,
            ).height
        },
{
}

/// A block fills the width that it is given, unless it stands on a line, is as wide as its content or may
/// not fill.
pub proof fn lemma_block_fills(
    input: LayoutInput,
    answers: Answers,
    state: LayoutModel,
    flow: FlowModel,
    run: Run,
    style: LayoutStyle,
    sizes: ContainerSizes,
    padding: Edges,
    specified_height: Option<u32>,
    free: Seq<usize>,
    fuel: nat,
)
    ensures
        block_finished(
            input,
            answers,
            state,
            flow,
            run,
            style,
            sizes,
            padding,
            specified_height,
            free,
            fuel,
        ) matches Ok((end, body)) ==> {
            &&& run.call.allow_fill && style.display is Block && !(style.width is Content)
                ==> body.width == sizes.container_width
            &&& !run.call.allow_fill || style.display is InlineBlock || style.display is Inline
                || style.width is Content ==> body.width == sizes.actual_width(
                flow.max_child_width as u32,
            ) as u32
            &&& body.content_height == flow.content_height() as u32
            &&& body.height == block_size(flow, specified_height, sizes, padding, true).height
        },
{
}

/// A fixed node waits for the root, and any other node out of the flow for its containing node.
pub proof fn lemma_fixed_nodes_wait_at_the_root(
    input: LayoutInput,
    state: LayoutModel,
    containing: usize,
    waiter: ResumableNode,
)
    requires
        containing != input.root,
    ensures
        queued_from(input, state, containing, seq![waiter], 0) matches Ok(after) ==> {
            let fixed = input.style(waiter.node_idx) matches Some(style) && style.position is Fixed;
            let (with, without) = if fixed {
                (input.root, containing)
            } else {
                (containing, input.root)
            };
            &&& entry(after.containing, without as int) == entry(state.containing, without as int)
            &&& entry(state.containing, with as int) matches Some(before) && entry(
                after.containing,
                with as int,
            ) matches Some(now) && now.waiters == before.waiters.push(waiter) && now.node_idx
                == before.node_idx && now.cursor == before.cursor
            &&& after.boxes == state.boxes
        },
{
    reveal_with_fuel(queued_from, 2);
}

/// A change to an attribute is told as one, and every other change as one of text. What is told names the
/// node that changed, the attribute and the value before.
pub proof fn lemma_records_name_the_change(
    target: usize,
    name: Seq<char>,
    old_value: Option<Seq<char>>,
)
    ensures
        mutation_record(target, Some(name), old_value).kind is Attributes,
        mutation_record(target, None, old_value).kind is CharacterData,
        mutation_record(target, Some(name), old_value).attribute_name == Some(name),
        mutation_record(target, None, old_value).attribute_name is None,
        mutation_record(target, Some(name), old_value).old_value == old_value,
        mutation_record(target, None, old_value).old_value == old_value,
        mutation_record(target, Some(name), old_value).target == target,
        mutation_record(target, None, old_value).target == target,
{
}

/// A script that calls itself a module, in capital or small letters and with spaces around, is one; one that
/// says nothing, or names the language, is classic.
pub proof fn lemma_modules_are_told_apart(value: Seq<char>)
    ensures
        ascii_lower(trimmed(value)) == "module"@ ==> script_kind(value) == Some(ScriptType::Module),
        ascii_lower(trimmed(value)) == ""@ || ascii_lower(trimmed(value)) == "text/javascript"@
            ==> script_kind(value) == Some(ScriptType::Classic),
        ascii_lower(trimmed(value)) == "text/plain"@ ==> script_kind(value) is None,
        trimmed(trimmed(value)) == trimmed(value) ==> script_kind(trimmed(value)) == script_kind(
            value,
        ),
{
    reveal_strlit("module");
    reveal_strlit("");
    reveal_strlit("text/javascript");
    reveal_strlit("text/plain");
    reveal_strlit("application/javascript");
    reveal_strlit("text/ecmascript");
    reveal_strlit("application/ecmascript");
    assert("text/javascript"@[0] == 't');
    assert("application/javascript"@[0] == 'a');
    let name = ascii_lower(trimmed(value));
    if name == "module"@ || name == ""@ || name == "text/javascript"@ || name == "text/plain"@ {
        assert forall|i: int| 0 <= i < name.len() implies name[i] != '-' by {}
        lemma_one_piece(name, '-');
    }
    assert("text/plain"@.len() == 10);
    assert("text/ecmascript"@.len() == 15);
    assert("application/ecmascript"@.len() == 22);
}

/// A text without a character is one piece.
proof fn lemma_one_piece(s: Seq<char>, c: char)
    requires
        forall|i: int| 0 <= i < s.len() ==> s[i] != c,
    ensures
        pieces(s, c) =~= seq![s],
{
    lemma_index_of(s, c);
}

/// A shadow root is open where it is asked to be open, closed where it is asked to be closed.
pub proof fn lemma_roots_are_as_asked(mode: Seq<char>)
    ensures
        mode == "open"@ <==> shadow_mode(mode) == Some(ShadowRootMode::Open),
        mode == "closed"@ <==> shadow_mode(mode) == Some(ShadowRootMode::Closed),
{
    reveal_strlit("open");
    reveal_strlit("closed");
    assert("open"@.len() != "closed"@.len());
}

/// The address bar shows the address, tells of each change to it, and tells otherwise once it is confirmed.
pub proof fn lemma_address_bar_shows_the_address(parent: Option<usize>, url: Seq<char>)
    ensures
        address_bar(parent, url).typeable matches Some(typeable) && typeable.text == url
            && typeable.on_input == Some(ADDRESS_CHANGED) && typeable.on_enter == Some(
            ADDRESS_CONFIRMED,
        ),
        address_bar(parent, url).parent == parent,
        ADDRESS_CHANGED != ADDRESS_CONFIRMED,
{
}

/// A box that was not painted is in view where it stands inside the window, and not where it stands to the
/// right of it, below it, to the left of it or above it.
pub proof fn lemma_box_in_the_window_is_in_view(
    layout: LayoutBox,
    id: usize,
    rendered: Seq<RenderedNode>,
    width: u32,
    height: u32,
)
    requires
        first_rendered(rendered, id) is None,
        width <= i32::MAX,
        height <= i32::MAX,
        0 < layout.rect.width <= i32::MAX,
        0 < layout.rect.height <= i32::MAX,
    ensures
        0 <= layout.rect.x < width && 0 <= layout.rect.y < height ==> box_in_view(
            layout,
            id,
            rendered,
            width,
            height,
        ),
        layout.rect.x >= width || layout.rect.y >= height ==> !box_in_view(
            layout,
            id,
            rendered,
            width,
            height,
        ),
        layout.rect.x + layout.rect.width <= 0 || layout.rect.y + layout.rect.height < 0
            ==> !box_in_view(layout, id, rendered, width, height),
{
}

/// Where nothing under the pointer scrolls, the page itself does, as much of it as is in the window.
pub proof fn lemma_page_scrolls(
    nodes: NodesModel,
    table: LayoutTable,
    allowed: Seq<bool>,
    root: usize,
    window_height: u32,
)
    requires
        0 < root <= table.boxes@.len(),
    ensures
        scrolled_at(nodes, table, allowed, None, seq![root], window_height) matches Some(found) && {
            &&& found.node_idx == table.boxes@[root - 1].node_idx
            &&& found.content_height == table.boxes@[root - 1].content_height
            &&& found.shown_height == window_height
        },
        scrolled_at(nodes, table, allowed, None, Seq::empty(), window_height) is None,
{
}

/// The border of a rectangle is drawn inside of it, as wide as the line on each of its four sides; nothing
/// else changes.
pub proof fn lemma_rectangle_is_stroked(
    canvas: CanvasModel,
    x: i32,
    y: i32,
    width: u32,
    height: u32,
    line_width: u32,
    px: int,
    py: int,
)
    requires
        canvas.pixels.len() == canvas.width * canvas.height,
        canvas.state.clip_mask is None,
        0 <= px < canvas.width,
        0 <= py < canvas.height,
        line_width <= width,
        line_width <= height,
        width <= i32::MAX,
        height <= i32::MAX,
        x + width <= i32::MAX,
        y + height <= i32::MAX,
    ensures
        ({
            let stroked = canvas.rect_stroked(x, y, width, height, line_width);
            let inside = x <= px < x + width && y <= py < y + height;
            let within = x + line_width <= px < x + width - line_width && y + line_width <= py < y
                + height - line_width;
            canvas_pixel(stroked, px, py) == (if inside && !within {
                pack_rgba(0, 0, 0, 255)
            } else {
                canvas_pixel(canvas, px, py)
            })
        }),
{
    assert(pack_rgba(0, 0, 0, 255) == 0xff) by {
        assert((0u32 << 24) | (0u32 << 16) | (0u32 << 8) | 255u32 == 0xff) by (bit_vector);
    }
    let right = (x + width - line_width) as i32;
    let low = (y + height - line_width) as i32;
    let one = canvas.rect_drawn(x, y, line_width, height, RECT_COLOR);
    lemma_rectangle_is_filled(canvas, x, y, line_width, height, 0, 0, 0, px, py);
    let two = one.rect_drawn(x, y, width, line_width, RECT_COLOR);
    lemma_rectangle_is_filled(one, x, y, width, line_width, 0, 0, 0, px, py);
    let three = two.rect_drawn(right, y, line_width, height, RECT_COLOR);
    lemma_rectangle_is_filled(two, right, y, line_width, height, 0, 0, 0, px, py);
    lemma_rectangle_is_filled(three, x, low, width, line_width, 0, 0, 0, px, py);
}

/// A picture has loaded once it is among the loaded ones, a frame once frames have, and anything else once
/// the scripts have run.
pub proof fn lemma_what_has_loaded(nodes: NodesModel, images: Seq<usize>, idx: usize, phase: LoadPhase)
    ensures
        node_at(nodes, idx) is None ==> !has_loaded(nodes, images, idx, phase),
        node_at(nodes, idx) matches Some(node) ==> {
            &&& node.has_tag("img"@) && !node.has_tag("iframe"@) ==> has_loaded(
                nodes,
                images,
                idx,
                phase,
            ) == images.contains(idx)
            &&& node.has_tag("iframe"@) ==> has_loaded(nodes, images, idx, phase) == (phase
                is IframeDone)
            &&& !node.has_tag("img"@) && !node.has_tag("iframe"@) ==> has_loaded(
                nodes,
                images,
                idx,
                phase,
            ) == (phase is JsDone)
        },
{
}

/// An item takes its own part of what all of them take, and gives up its own part of what all of them give up.
pub proof fn lemma_items_share(item: FlexBase, amount: i64, total: u32, scaled_total: i128)
    ensures
        target_need(FlexPlan::Keep, item) is None,
        target_need(FlexPlan::Grow { left: amount, grow: total }, item) matches Some(
            Need::Grow { base, left, grow, grow_total, max, margin },
        ) && base == item.base && left == amount && grow == item.grow && grow_total == total && max
            == item.max && margin == item.margin,
        target_need(FlexPlan::Shrink { overflow: amount, scaled: scaled_total }, item) matches Some(
            Need::Shrink { base, overflow, scaled, scaled_total: all, max, margin },
        ) && base == item.base && overflow == amount && all == scaled_total && max == item.max
            && margin == item.margin && scaled == scaled_shrink(item) as i128,
{
}

/// Behind `&#x` the number of a character is read with sixteen digits.
pub proof fn lemma_hexadecimal_entities(digits: Seq<char>, code: int, text: Seq<char>)
    requires
        !digits.contains(';'),
        unsigned_value(digits, 16, u32::MAX as int) == Some(code),
    ensures
        decoded("&#"@ + seq!['x'] + digits + seq![';'] + text) == seq![char_of(code)] + decoded(text),
        decoded("&#"@ + seq!['X'] + digits + seq![';'] + text) == seq![char_of(code)] + decoded(text),
{
    lemma_hexadecimal_entity('x', digits, code, text);
    lemma_hexadecimal_entity('X', digits, code, text);
}

/// The same behind one of the two letters.
proof fn lemma_hexadecimal_entity(mark: char, digits: Seq<char>, code: int, text: Seq<char>)
    requires
        mark == 'x' || mark == 'X',
        !digits.contains(';'),
        unsigned_value(digits, 16, u32::MAX as int) == Some(code),
    ensures
        decoded("&#"@ + seq![mark] + digits + seq![';'] + text) == seq![char_of(code)] + decoded(text),
{
    reveal_strlit("&amp;");
    reveal_strlit("&#");
    let numeric = "&#"@ + seq![mark] + digits + seq![';'] + text;
    let body = seq![mark] + digits;
    assert(numeric[0] == '&');
    assert(numeric[1] == '#');
    assert(numeric.take(2) =~= "&#"@);
    assert(!starts(numeric, "&amp;"@)) by {
        if starts(numeric, "&amp;"@) {
            assert(numeric.take(5)[1] == "&amp;"@[1]);
        }
    }
    let rest = numeric.skip(2);
    assert(rest =~= body + seq![';'] + text);
    lemma_index_of(rest, ';');
    let end = index_of(rest, ';');
    assert(rest[body.len() as int] == ';');
    assert(end == body.len()) by {
        if end < body.len() {
            assert(body[end] == rest[end]);
            assert(end > 0);
            assert(digits[end - 1] == body[end]);
            assert(digits.contains(';'));
        }
    }
    assert(rest.take(end) =~= body);
    assert(body.drop_first() =~= digits);
    assert(numeric.skip(end + 3) =~= text);
}

/// A track between two bounds is at least the first and at most the second: a length is one as it is, a share
/// is one of the room inside, `auto` bounds nothing, and only the second can be a fraction.
pub proof fn lemma_bounds_of_tracks(px: i32, max: i32, fraction: i32, inner: u32)
    ensures
        track_of(TrackStyle::Size(TrackLength::Px(px)), inner) == GridTrack::Fixed(px),
        track_of(TrackStyle::Size(TrackLength::Fraction(fraction)), inner) == GridTrack::Fraction(
            fraction,
        ),
        track_of(TrackStyle::Size(TrackLength::Auto), inner) == GridTrack::Auto,
        track_of(TrackStyle::MinMax(TrackLength::Px(px), TrackLength::Px(max)), inner) == (
        GridTrack::MinMax { min: Some(px), max: TrackMax::Fixed(max) }),
        track_of(TrackStyle::MinMax(TrackLength::Auto, TrackLength::Fraction(fraction)), inner) == (
        GridTrack::MinMax { min: Some(0), max: TrackMax::Fraction(fraction) }),
        track_of(TrackStyle::MinMax(TrackLength::Fraction(fraction), TrackLength::Auto), inner) == (
        GridTrack::MinMax { min: None, max: TrackMax::Auto }),
{
}

/// A page leads on by a `meta` element that asks for a refresh, in capital or small letters, and by nothing
/// else.
pub proof fn lemma_refresh_leads_on(
    tag: Seq<char>,
    attributes: AttributesModel,
    kind: Seq<char>,
    content: Seq<char>,
    url: Seq<char>,
)
    ensures
        tag != "meta"@ ==> element_target(tag, attributes, url) is None,
        lookup(attributes, "http-equiv"@) is None ==> element_target(tag, attributes, url) is None,
        lookup(attributes, "content"@) is None ==> element_target(tag, attributes, url) is None,
        tag == "meta"@ && lookup(attributes, "http-equiv"@) == Some(kind) && lookup(
            attributes,
            "content"@,
        ) == Some(content) && ascii_lower(kind) == ascii_lower("refresh"@) ==> element_target(
            tag,
            attributes,
            url,
        ) == instruction_target(content, url),
        lookup(attributes, "http-equiv"@) == Some(kind) && ascii_lower(kind) != ascii_lower(
            "refresh"@,
        ) ==> element_target(tag, attributes, url) is None,
{
}

/// A layer and the definition of a property have the name behind their word, without the spaces around it.
pub proof fn lemma_layers_have_names(name: Seq<char>, parent: Option<usize>)
    requires
        name.len() > 0,
        !is_space(name[0]),
        !is_space(name.last()),
    ensures
        condition_of_text("@layer"@ + seq![' '] + name, parent) == (CssNodeModel::Layer {
            name,
            parent,
        }),
        condition_of_text("@property"@ + seq![' '] + name, parent) == (
        CssNodeModel::PropertyDefinition { name, parent }),
{
    reveal_strlit("@layer");
    reveal_strlit("@property");
    let layer = "@layer"@ + seq![' '] + name;
    let property = "@property"@ + seq![' '] + name;
    let spaced = seq![' '] + name;
    lemma_trimmed_stays(layer);
    lemma_trimmed_stays(property);
    lemma_trimmed_stays(name);
    assert(layer.take(6) =~= "@layer"@);
    assert(layer.skip(6) =~= spaced);
    assert(property.take(9) =~= "@property"@);
    assert(property.skip(9) =~= spaced);
    assert(!starts(layer, "@property"@)) by {
        if starts(layer, "@property"@) {
            assert(layer.take(9)[1] == "@property"@[1]);
        }
    }
    assert(spaced.drop_first() =~= name);
    reveal_with_fuel(trimmed_start, 2);
    assert(trimmed_start(spaced) == trimmed_start(name));
}

/// A node that is to stand in the middle leaves as much room above it as below it, up to one pixel; one that
/// is to stand at the end leaves none below it.
pub proof fn lemma_waiting_node_stands_in_the_middle(
    style: WaiterStyle,
    waiter: ResumableNode,
    offset: StaticPositionOffset,
    available: u32,
    height: u32,
)
    requires
        style.position is Absolute,
        style.top is None,
        style.bottom is None,
        style.margin_top == 0,
        style.margin_bottom == 0,
        height <= available <= i32::MAX,
        waiter.static_position_offset == Some(offset),
    ensures
        offset.size_dependent_offset == Some(SizeDependentStaticOffset::CenterY(available)) ==> (
        move_static(style, waiter, height).0 matches Some(above) && 0 <= available - height - 2
            * above <= 1),
        offset.size_dependent_offset == Some(SizeDependentStaticOffset::EndY(available)) ==> (
        move_static(style, waiter, height).0 matches Some(above) && above + height == available),
        offset.size_dependent_offset is None ==> move_static(style, waiter, height).0 is None,
{
}

/// Whether a child of a rule gives a property a value.
pub open spec fn gives(
    nodes: Seq<CssNodeModel>,
    child: usize,
    property: Seq<char>,
    text: Seq<char>,
) -> bool {
    child < nodes.len() && (nodes[child as int] matches CssNodeModel::Property { name, value, .. }
        && name == property && value == Some(text))
}

/// What is declared of a property is what some child gives it.
proof fn lemma_declared_text(
    nodes: Seq<CssNodeModel>,
    list: Seq<usize>,
    count: nat,
    property: Seq<char>,
)
    requires
        count <= list.len(),
    ensures
        declared_text(nodes, list, count, property) matches Some(text) ==> exists|k: int|
            0 <= k < count && #[trigger] gives(nodes, list[k], property, text),
        declared_text(nodes, list, count, property) is None ==> forall|k: int, text: Seq<char>|
            0 <= k < count ==> !#[trigger] gives(nodes, list[k], property, text),
    decreases count,
{
    if count > 0 {
        lemma_declared_text(nodes, list, (count - 1) as nat, property);
        if let Some(text) = declared_text(nodes, list, count, property) {
            if gives(nodes, list[count - 1], property, text) {
            } else {
                assert(declared_text(nodes, list, (count - 1) as nat, property) == Some(text));
            }
        }
    }
}

/// The definition of a property has the name behind `@property`, and the syntax and the first value that the
/// declarations inside of it give.
pub proof fn lemma_definitions_are_read(nodes: Seq<CssNodeModel>, count: nat)
    requires
        0 < count <= nodes.len(),
        css_children(nodes, nodes.len(), (count - 1) as usize).len() > 0,
    ensures
        nodes[count - 1] matches CssNodeModel::PropertyDefinition { name, .. } ==> {
            let list = css_children(nodes, nodes.len(), (count - 1) as usize);
            let all = definitions_in(nodes, count);
            let one = all.last();
            &&& all.len() > 0 && all.drop_last() == definitions_in(nodes, (count - 1) as nat)
            &&& one.property == name
            &&& one.syntax matches Some(text) ==> exists|k: int|
                0 <= k < list.len() && #[trigger] gives(nodes, list[k], "syntax"@, text)
            &&& one.syntax is None ==> forall|k: int, text: Seq<char>|
                0 <= k < list.len() ==> !#[trigger] gives(nodes, list[k], "syntax"@, text)
            &&& one.initial_value matches Some(text) ==> exists|k: int|
                0 <= k < list.len() && #[trigger] gives(nodes, list[k], "initial-value"@, text)
            &&& one.initial_value is None ==> forall|k: int, text: Seq<char>|
                0 <= k < list.len() ==> !#[trigger] gives(nodes, list[k], "initial-value"@, text)
        },
{
    let list = css_children(nodes, nodes.len(), (count - 1) as usize);
    lemma_declared_text(nodes, list, list.len(), "syntax"@);
    lemma_declared_text(nodes, list, list.len(), "initial-value"@);
    if nodes[count - 1] is PropertyDefinition {
        assert(definitions_in(nodes, count).drop_last() =~= definitions_in(
            nodes,
            (count - 1) as nat,
        ));
    }
}

/// A picture is kept where none was, matches the one that was kept where both have the same sides and bytes,
/// and is invalid where a side or a byte differs.
pub proof fn lemma_snapshots_are_compared(
    bytes: Seq<u8>,
    width: u32,
    height: u32,
    stored: PictureModel,
    at: int,
)
    requires
        is_picture(bytes.len(), width, height),
    ensures
        snapshot_outcome(bytes, width, height, None) is Created,
        stored.width != width || stored.height != height ==> snapshot_outcome(
            bytes,
            width,
            height,
            Some(stored),
        ) is Invalid,
        0 <= at < bytes.len() && at < stored.pixels.len() && bytes[at] != stored.pixels[at]
            ==> snapshot_outcome(bytes, width, height, Some(stored)) is Invalid,
        stored.width == width && stored.height == height && stored.pixels == bytes
            ==> snapshot_outcome(bytes, width, height, Some(stored)) is Matches,
{
}

/// A picture is read as what it is, and no two kinds of pictures are read alike.
pub proof fn lemma_pictures_are_read_as_what_they_are(kind: ImageData)
    ensures
        kind is Jpeg <==> reader_name(kind) == Some("image/jpeg"@),
        kind is Gif <==> reader_name(kind) == Some("image/gif"@),
        kind is WebP <==> reader_name(kind) == Some("image/webp"@),
{
    reveal_strlit("image/jpeg");
    reveal_strlit("image/gif");
    reveal_strlit("image/webp");
    assert("image/gif"@.len() == 9);
    assert("image/jpeg"@[6] == 'j');
    assert("image/webp"@[6] == 'w');
}

/// An observer that wishes for the value before once gets it, whatever else it wishes for; what other
/// observers wish for stays.
pub proof fn lemma_wishes_are_kept(
    told: Seq<(usize, bool)>,
    observer: usize,
    with_old: bool,
    other: (usize, bool),
)
    ensures
        told.contains((observer, true)) && told_at(told, observer) < told.len() && told[told_at(
            told,
            observer,
        )].1 ==> with_wish(told, observer, with_old).contains((observer, true)),
        with_old ==> with_wish(told, observer, with_old).contains((observer, true)),
        other.0 != observer && told.contains(other) ==> with_wish(told, observer, with_old).contains(
            other,
        ),
        with_wish(told, observer, with_old).len() <= told.len() + 1,
    decreases told.len(),
{
    lemma_told_at(told, observer);
    let at = told_at(told, observer);
    let now = with_wish(told, observer, with_old);
    assert(now[at].0 == observer);
    if with_old || (at < told.len() && told[at].1) {
        assert(now[at] == (observer, true));
    }
    if other.0 != observer && told.contains(other) {
        let k = choose|k: int| 0 <= k < told.len() && told[k] == other;
        assert(now[k] == other);
    }
}

/// The place of an observer among those that are told.
proof fn lemma_told_at(told: Seq<(usize, bool)>, observer: usize)
    ensures
        0 <= told_at(told, observer) <= told.len(),
        told_at(told, observer) < told.len() ==> told[told_at(told, observer)].0 == observer,
    decreases told.len(),
{
    if told.len() > 0 && told[0].0 != observer {
        lemma_told_at(told.drop_first(), observer);
    }
}

/// A classic script is fetched from its address; a module of the page itself is run by its address, and one
/// of another document is never run by the bare address.
pub proof fn lemma_scripts_run_from_their_addresses(url: Seq<char>, document_id: usize)
    ensures
        run_from(ScriptType::Classic, url, document_id) == (RunModel::Fetch { url }),
        run_from(ScriptType::Module, url, 0) == (RunModel::Module { url }),
        document_id != 0 ==> run_from(ScriptType::Module, url, document_id) !is Module,
        run_from(ScriptType::Module, url, document_id) matches RunModel::FetchModule {
            url: from,
            module_url,
        } ==> document_id != 0 && from == url && url_with_pairs(url, document_pairs(document_id))
            == Some(module_url),
{
}

/// A field without a value shows nothing, one whose value is all spaces is blank, and any other shows its
/// value.
pub proof fn lemma_fields_show_their_values(attributes: AttributesModel, value: Seq<char>)
    ensures
        lookup(attributes, "value"@) is None ==> input_value(attributes) is Absent,
        lookup(attributes, "value"@) == Some(value) ==> {
            &&& value.len() == 0 ==> input_value(attributes) is Absent
            &&& value.len() > 0 && collapsed(value) is None ==> input_value(attributes) is Blank
            &&& value.len() > 0 && collapsed(value) is Some ==> input_value(attributes) is Given
        },
{
}

/// Typing a text with a line end in it inserts a line break; typing any other text inserts text.
pub proof fn lemma_line_ends_are_breaks(text: Seq<char>, at: int)
    requires
        0 <= at < text.len(),
    ensures
        text[at] == '\n' || text[at] == '\r' ==> input_type(text) == "insertLineBreak"@,
        (forall|k: int| 0 <= k < text.len() ==> text[k] != '\n' && text[k] != '\r') ==> input_type(
            text,
        ) == "insertText"@,
{
}

/// What one of several selectors finds, all of them together find.
pub proof fn lemma_selectors_find_together(
    selectors: Seq<Seq<char>>,
    last: Seq<char>,
    names: Seq<Seq<char>>,
    env: MatchEnv,
    required: Option<usize>,
    idx: usize,
)
    ensures
        ({
            let before = selected_by(selectors, names, env, required);
            let alone = selected_by(seq![last], before.1, env, required).0;
            selected_by(selectors.push(last), names, env, required).0.contains(idx)
                <==> before.0.contains(idx) || alone.contains(idx)
        }),
        selected_by(Seq::empty(), names, env, required).0 =~= Set::empty(),
{
    reveal_with_fuel(selected_by, 2);
    assert(selectors.push(last).drop_last() =~= selectors);
    assert(seq![last].drop_last() =~= Seq::<Seq<char>>::empty());
}

/// Going to an address asks for it without sending anything; sending a form goes where the form says.
pub proof fn lemma_addresses_are_asked_for(current: Seq<char>, url: UserNavigateUrl)
    ensures
        url matches UserNavigateUrl::Raw(raw) ==> (match joined_url(current, raw@) {
            Some(to) => navigated(current, url) matches Some(going) && going.url == to
                && going.method is Get && going.body is None,
            None => navigated(current, url) is None,
        }),
        url matches UserNavigateUrl::Form(navigation) ==> navigated(current, url) == Some(
            navigation@,
        ),
{
}

/// The elements of the window are painted one over the other, each over its own box in its own color.
pub proof fn lemma_elements_are_painted_in_their_boxes(
    surface: SurfaceModel,
    boxes: Seq<UiBox>,
    images: Seq<Pixmap>,
    count: nat,
)
    requires
        0 < count <= boxes.len(),
    ensures
        ui_painted(surface, boxes, images, 0) == surface,
        boxes[count - 1].kind is Element ==> ({
            let one = boxes[count - 1];
            let radius = one.border_radius;
            ui_painted(surface, boxes, images, count) == ui_painted(
                surface,
                boxes,
                images,
                (count - 1) as nat,
            ).with_rect(
                one.x as int,
                one.y as int,
                one.width as int,
                one.height as int,
                one.bg_color,
                same_corners(radius),
                whole_window(surface.width, surface.height),
            )
        }),
{
}

/// An item of a row starts from a share of the width inside its container; one of a column from a share of the
/// height, as far as the height is known.
pub proof fn lemma_bases_are_shares(sizes: ContainerSizes, definite: bool)
    ensures
        basis_available(StyleFlexDirection::Row, sizes, definite) == Some(sizes.inner_width),
        basis_available(StyleFlexDirection::Column, sizes, true) == Some(sizes.inner_height),
        basis_available(StyleFlexDirection::Column, sizes, false) is None,
{
}

/// The elements with several classes are those that are in the set of each of them; where a class is unknown
/// there are none.
pub proof fn lemma_classes_are_met_together(
    names: Seq<Seq<char>>,
    sets: Seq<Set<usize>>,
    classes: Seq<Seq<char>>,
    idx: usize,
)
    requires
        classes.len() > 0,
    ensures
        in_all_classes(names, sets, classes) matches Some(set) ==> (set.contains(idx)
            <==> forall|k: int|
            0 <= k < classes.len() ==> sets[place_of_text(names, #[trigger] classes[k])].contains(
                idx,
            )),
        in_all_classes(names, sets, classes) is None ==> exists|k: int|
            0 <= k < classes.len() && (place_of_text(names, #[trigger] classes[k]) >= names.len()
                || place_of_text(names, classes[k]) >= sets.len()),
    decreases classes.len(),
{
    let rest = classes.drop_last();
    assert(classes[classes.len() - 1] == classes.last());
    if classes.len() > 1 {
        lemma_classes_are_met_together(names, sets, rest, idx);
        assert forall|k: int| 0 <= k < rest.len() implies rest[k] == classes[k] by {}
        if in_all_classes(names, sets, classes) is None && in_all_classes(names, sets, rest) is None {
            let k = choose|k: int|
                0 <= k < rest.len() && (place_of_text(names, #[trigger] rest[k]) >= names.len()
                    || place_of_text(names, rest[k]) >= sets.len());
            assert(classes[k] == rest[k]);
        }
        if let Some(set) = in_all_classes(names, sets, classes) {
            if set.contains(idx) {
                assert forall|k: int| 0 <= k < classes.len() implies sets[place_of_text(
                    names,
                    #[trigger] classes[k],
                )].contains(idx) by {
                    if k < rest.len() {
                        assert(rest[k] == classes[k]);
                    }
                }
            } else if forall|k: int|
                0 <= k < classes.len() ==> sets[place_of_text(
                    names,
                    #[trigger] classes[k],
                )].contains(idx) {
                assert forall|k: int| 0 <= k < rest.len() implies sets[place_of_text(
                    names,
                    #[trigger] rest[k],
                )].contains(idx) by {
                    assert(rest[k] == classes[k]);
                }
            }
        }
    }
}

/// The window tells the number of its frames, and that there is none yet.
pub proof fn lemma_frames_are_told(fps: u32)
    ensures
        fps_text(Some(fps)) == decimal(fps as nat) + " FPS"@,
        fps_text(None) == "--"@ + " FPS"@,
{
    reveal_strlit("-- FPS");
    reveal_strlit("--");
    reveal_strlit(" FPS");
    assert("-- FPS"@ =~= "--"@ + " FPS"@);
}

} // verus!
