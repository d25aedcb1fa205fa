//! What the interface around the page promises: where its elements stand, which of them a click is for,
//! what typing does, and which tab is shown.
use vstd::prelude::*;

use crate::dom::lemma_set_value_is_read_back;
use crate::dom::lookup;
use crate::dom::names_distinct;
use crate::dom::node_at;
use crate::dom::AttributesModel;
use crate::dom::NodesModel;
use crate::boxes::is_box;
use crate::boxes::LayoutTable;
use crate::frame::answered;
use crate::frame::framed;
use crate::frame::hovered_frame;
use crate::frame::with_typed;
use crate::frame::FrameCommand;
use crate::frame::FrameFlags;
use crate::frame::StepModel;
use crate::header::tab_name;
use crate::header::with_button;
use crate::header::with_tabs;
use crate::paint::RenderedNode;
use crate::tabs::after_action;
use crate::tabs::BrowserAction;
use crate::tabs::OutcomeModel;
use crate::tabs::TabsModel;
use crate::timing::frame_delay;
use crate::timing::scroll_base;
use crate::timing::still_running;
use crate::timing::with_animated;
use crate::timing::with_scroll;
use crate::timing::with_scrolling;
use crate::timing::Animation;
use crate::timing::ANIMATION_FRAME_INTERVAL;
use crate::tree::scroll_at;
use crate::ui::BuilderModel;
use crate::ui::ElementModel;
use crate::ui::JustifyContent;
use crate::ui::TypeableModel;
use crate::ui::UiModel;
use crate::ui_layout::extents;
use crate::ui_layout::first_place;
use crate::ui_layout::next_place;
use crate::ui_layout::shifted_by;
use crate::ui_layout::ui_boxes;
use crate::ui_layout::ui_children;
use crate::ui_layout::TextSize;
use crate::ui_layout::UiBox;
use crate::ui_runtime::click_on;
use crate::ui_runtime::element_at;
use crate::ui_runtime::holds_place;
use crate::ui_runtime::typed_into;
use crate::ui_runtime::Key;
use crate::urls::parsed_url;
use crate::viewport::first_rendered;

verus! {

/// The children of an element are the nodes that name it as their parent, in the order in which they were
/// put in.
pub proof fn lemma_ui_children(nodes: Seq<UiModel>, parent: usize, count: nat, idx: usize)
    requires
        count <= nodes.len() <= usize::MAX,
    ensures
        ui_children(nodes, parent, count).contains(idx) <==> idx < count && nodes[idx as int].parent_idx()
            == Some(parent),
        forall|i: int, j: int|
            0 <= i < j < ui_children(nodes, parent, count).len() ==> ui_children(nodes, parent, count)[i]
                < ui_children(nodes, parent, count)[j],
        forall|i: int|
            0 <= i < ui_children(nodes, parent, count).len() ==> #[trigger] ui_children(
                nodes,
                parent,
                count,
            )[i] < count,
    decreases count,
{
    if count > 0 {
        let less = (count - 1) as nat;
        lemma_ui_children(nodes, parent, less, idx);
        let before = ui_children(nodes, parent, less);
        let now = ui_children(nodes, parent, count);
        let last = (count - 1) as usize;
        if nodes[count - 1].parent_idx() == Some(parent) {
            assert(now =~= before.push(last));
            assert(now[before.len() as int] == last);
            if before.contains(idx) {
                let k = choose|k: int| 0 <= k < before.len() && before[k] == idx;
                assert(now[k] == idx);
            }
            if now.contains(idx) && idx != last {
                let k = choose|k: int| 0 <= k < now.len() && now[k] == idx;
                assert(before[k] == idx);
            }
        }
    }
}

/// Free space stands behind the children, in front of them, or half and half.
pub proof fn lemma_ui_space(place: JustifyContent, free: int)
    requires
        free >= 0,
    ensures
        ({
            let front = shifted_by(place, free);
            let behind = free - front;
            &&& place is Start ==> front == 0
            &&& place is End ==> behind == 0
            &&& place is Center ==> front <= behind <= front + 1
        }),
{
}

/// Children start where the padding ends. Those that are to stand at the end leave exactly the padding
/// behind them.
pub proof fn lemma_first_ui_place(
    nodes: Seq<UiModel>,
    sizes: Seq<Option<TextSize>>,
    element: ElementModel,
    list: Seq<usize>,
    x: int,
    y: int,
)
    requires
        element.padding <= i32::MAX,
        element.width <= i32::MAX,
        element.height <= i32::MAX,
    ensures
        first_place(nodes, sizes, element, list, x, y) matches Ok((at_x, at_y)) ==> {
            &&& element.hor is None || list.len() == 0 ==> at_x == x + element.padding && at_y == y
                + element.padding
            &&& (element.hor matches Some(hor) && list.len() > 0 && (extents(
                nodes,
                sizes,
                list,
                list.len(),
            ) matches Some((width, height)))) ==> {
                let hor = element.hor->0;
                let (width, height) = extents(nodes, sizes, list, list.len())->0;
                &&& hor.justify_content is Start ==> at_x == x + element.padding
                &&& hor.justify_content is End ==> at_x + width + element.padding == x + element.width
                &&& hor.align_items is Start ==> at_y == y + element.padding
                &&& hor.align_items is End ==> at_y + height + element.padding == y + element.height
            }
        },
{
}

/// In a row the next element stands beside the one before and the gap, else below it; texts take no place
/// of their own.
pub proof fn lemma_next_ui_place(element: ElementModel, child: UiModel, x: int, y: int)
    requires
        element.gap <= i32::MAX,
        child matches UiModel::Element(inner) ==> inner.width <= i32::MAX && inner.height <= i32::MAX,
    ensures
        next_place(element, child, x, y) matches Ok((at_x, at_y)) ==> {
            &&& child is Text ==> at_x == x && at_y == y
            &&& child matches UiModel::Element(inner) ==> {
                &&& element.hor is Some ==> at_x == x + inner.width + element.gap && at_y == y
                &&& element.hor is None ==> at_x == x && at_y == y + inner.height + element.gap
            }
        },
{
}

/// An element comes before what is in it, where it was asked to stand and as large as it is to be.
pub proof fn lemma_own_box(nodes: Seq<UiModel>, sizes: Seq<Option<TextSize>>, idx: usize, x: i32, y: i32)
    requires
        idx < nodes.len(),
    ensures
        ui_boxes(nodes, sizes, idx, x as int, y as int) matches Ok(boxes) ==> {
            &&& boxes.len() > 0
            &&& boxes[0].x == x && boxes[0].y == y
            &&& boxes[0].node_idx == idx
            &&& nodes[idx as int] matches UiModel::Element(element) ==> {
                &&& boxes[0].width == element.width && boxes[0].height == element.height
                &&& boxes[0].bg_color == element.bg_color
            }
        },
{
}

/// A click is for the element of the last box that it lies in.
pub proof fn lemma_topmost_element(nodes: Seq<UiModel>, boxes: Seq<UiBox>, x: i32, y: i32)
    ensures
        element_at(nodes, boxes, x, y) matches Some(found) ==> exists|k: int|
            0 <= k < boxes.len() && (#[trigger] boxes[k]).node_idx == found && holds_place(
                nodes,
                boxes[k],
                x,
                y,
            ) && forall|j: int|
                k < j < boxes.len() ==> !holds_place(nodes, #[trigger] boxes[j], x, y),
        element_at(nodes, boxes, x, y) is None ==> forall|j: int|
            0 <= j < boxes.len() ==> !holds_place(nodes, #[trigger] boxes[j], x, y),
    decreases boxes.len(),
{
    if boxes.len() > 0 {
        let last = boxes.len() - 1;
        assert(boxes.last() == boxes[last]);
        if !holds_place(nodes, boxes.last(), x, y) {
            let rest = boxes.drop_last();
            lemma_topmost_element(nodes, rest, x, y);
            if let Some(found) = element_at(nodes, boxes, x, y) {
                let k = choose|k: int|
                    0 <= k < rest.len() && (#[trigger] rest[k]).node_idx == found && holds_place(
                        nodes,
                        rest[k],
                        x,
                        y,
                    ) && forall|j: int|
                        k < j < rest.len() ==> !holds_place(nodes, #[trigger] rest[j], x, y);
                assert(boxes[k] == rest[k]);
                assert forall|j: int| k < j < boxes.len() implies !holds_place(
                    nodes,
                    #[trigger] boxes[j],
                    x,
                    y,
                ) by {
                    if j < last {
                        assert(boxes[j] == rest[j]);
                    }
                }
            } else {
                assert forall|j: int| 0 <= j < boxes.len() implies !holds_place(
                    nodes,
                    #[trigger] boxes[j],
                    x,
                    y,
                ) by {
                    if j < last {
                        assert(boxes[j] == rest[j]);
                    }
                }
            }
        }
    }
}

/// A place lies in a box from its left and upper edge up to, but not on, the other two.
pub proof fn lemma_places_in_boxes(nodes: Seq<UiModel>, one: UiBox, x: i32, y: i32)
    requires
        one.node_idx < nodes.len(),
        nodes[one.node_idx as int] is Element,
        one.width <= i32::MAX,
        one.height <= i32::MAX,
    ensures
        holds_place(nodes, one, x, y) <==> one.x <= x < one.x + one.width && one.y <= y < one.y
            + one.height,
{
}

/// A click asks for what the element asks for, then for what those around it ask for. The innermost
/// element that can be typed into is typed into.
pub proof fn lemma_clicks_go_outwards(nodes: Seq<UiModel>, idx: usize, parent: usize)
    requires
        parent < idx < nodes.len(),
        nodes[idx as int] matches UiModel::Element(element) && element.parent == Some(parent),
    ensures
        ({
            let element = nodes[idx as int]->Element_0;
            let (actions, focus) = click_on(nodes, idx);
            let (outer, around) = click_on(nodes, parent);
            &&& element.on_click is None ==> actions == outer
            &&& element.on_click matches Some(action) ==> actions[0] == action && actions.drop_first()
                == outer
            &&& element.typeable is Some ==> focus == Some(idx)
            &&& element.typeable is None ==> focus == around
        }),
{
    let element = nodes[idx as int]->Element_0;
    let outer = click_on(nodes, parent).0;
    if let Some(action) = element.on_click {
        assert((seq![action] + outer).drop_first() =~= outer);
    }
}

/// A key adds its text at the end. Only a backspace takes a character away, and only the key that
/// confirms leaves the text alone where something waits for it.
pub proof fn lemma_typing(typeable: TypeableModel, key: Key, input: Seq<char>)
    ensures
        ({
            let (text, outcome) = typed_into(typeable, key, input);
            &&& key is Other ==> text == typeable.text + input && outcome.on_enter is None
            &&& key is Enter && typeable.on_enter is Some ==> text == typeable.text && outcome.on_enter
                == typeable.on_enter
            &&& key is Backspace && typeable.text.len() > 0 ==> text == typeable.text.drop_last()
                && outcome.on_enter is None
            &&& outcome.on_input == typeable.on_input
        }),
{
}

/// What is started in an element is in it, and once that is finished the element goes on.
pub proof fn lemma_elements_are_nested(builder: BuilderModel, text: Seq<char>)
    requires
        builder.nodes.len() < usize::MAX,
        builder.curr is Some,
        builder.current() is Some,
    ensures
        builder.started().nodes.last().parent_idx() == builder.curr,
        builder.started().finished().curr == builder.curr,
        builder.started().finished().nodes.drop_last() == builder.nodes,
        builder.with_text(text).curr == builder.curr,
        builder.with_text(text).nodes.last() matches UiModel::Text { text: own, parent, .. } && own
            == text && parent == builder.curr,
{
    assert(builder.started().finished().nodes.drop_last() =~= builder.nodes);
}

/// Each tab has a button with its name that asks for that tab.
pub proof fn lemma_tabs_have_buttons(builder: BuilderModel, count: nat, i: int)
    requires
        0 <= i < count,
        builder.nodes.len() + 2 * count < usize::MAX,
        builder.curr is Some,
    ensures
        ({
            let after = with_tabs(builder, count);
            let at = builder.nodes.len() + 2 * i;
            &&& after.nodes.len() == builder.nodes.len() + 2 * count
            &&& after.curr == builder.curr
            &&& after.nodes[at] matches UiModel::Element(element) && element.on_click == Some(i as usize)
                && element.parent == builder.curr
            &&& after.nodes[at + 1] matches UiModel::Text { text, parent, .. } && text == tab_name(i)
                && parent == Some(at as usize)
        }),
    decreases count,
{
    lemma_tab_count(builder, (count - 1) as nat);
    let before = with_tabs(builder, (count - 1) as nat);
    let after = with_tabs(builder, count);
    lemma_one_button(before, 10, tab_name(count - 1), Some((count - 1) as usize));
    if i < count - 1 {
        lemma_tabs_have_buttons(builder, (count - 1) as nat, i);
        let at = builder.nodes.len() + 2 * i;
        assert(after.nodes[at] == before.nodes[at]);
        assert(after.nodes[at + 1] == before.nodes[at + 1]);
    }
}

proof fn lemma_tab_count(builder: BuilderModel, count: nat)
    requires
        builder.nodes.len() + 2 * count < usize::MAX,
    ensures
        with_tabs(builder, count).nodes.len() == builder.nodes.len() + 2 * count,
        with_tabs(builder, count).curr == builder.curr,
    decreases count,
{
    if count > 0 {
        lemma_tab_count(builder, (count - 1) as nat);
        lemma_one_button(
            with_tabs(builder, (count - 1) as nat),
            10,
            tab_name(count - 1),
            Some((count - 1) as usize),
        );
    }
}

/// A button stands behind what was there, with its text in it, and what was open is open again.
pub proof fn lemma_one_button(
    builder: BuilderModel,
    radius: u32,
    text: Seq<char>,
    action: Option<usize>,
)
    requires
        builder.nodes.len() < usize::MAX - 1,
    ensures
        ({
            let after = with_button(builder, radius, text, action);
            let at = builder.nodes.len() as int;
            &&& after.nodes.len() == builder.nodes.len() + 2
            &&& after.curr == builder.curr
            &&& after.nodes[at] matches UiModel::Element(element) && element.on_click == action
                && element.parent == builder.curr && element.border_radius == radius
            &&& after.nodes[at + 1] matches UiModel::Text { text: own, parent, .. } && own == text
                && parent == Some(at as usize)
            &&& forall|i: int| 0 <= i < at ==> #[trigger] after.nodes[i] == builder.nodes[i]
        }),
{
}

/// A new tab is shown, and a selected one too; an address goes to the tab that is shown, and the other tabs
/// keep theirs.
pub proof fn lemma_tabs_are_shown(tabs: TabsModel, action: BrowserAction, other: int)
    requires
        tabs.wf(),
        tabs.urls.len() < usize::MAX,
        0 <= other < tabs.urls.len(),
    ensures
        ({
            let (after, outcome) = after_action(tabs, action);
            &&& action matches BrowserAction::OpenTab(url) ==> after.urls.last() == url@ && after.current
                == tabs.urls.len() && after.urls[other] == tabs.urls[other]
            &&& (action matches BrowserAction::SelectTab(idx) && idx < tabs.urls.len()) ==> after.current
                == action->SelectTab_0 && after.urls == tabs.urls
            &&& (action matches BrowserAction::Navigate(text) && parsed_url(text@) is Some) ==> {
                &&& after.current == tabs.current
                &&& after.urls[tabs.current as int] == parsed_url(action->Navigate_0@)->0
                &&& other != tabs.current ==> after.urls[other] == tabs.urls[other]
                &&& outcome matches OutcomeModel::Send(navigation) && navigation.url
                    == after.urls[tabs.current as int]
            }
            &&& (action matches BrowserAction::Navigate(text) && parsed_url(text@) is None) ==> after
                == tabs
        }),
{
}

/// A scrolled node stands where it was scrolled to, and the others stay.
pub proof fn lemma_scroll_is_kept(scroll: Seq<i32>, idx: usize, value: i32, other: usize)
    ensures
        scroll_at(with_scroll(scroll, idx, value), idx) == value,
        other != idx ==> scroll_at(with_scroll(scroll, idx, value), other) == scroll_at(scroll, other),
{
}

/// Each animation moves its own node: the last one that has a node counts for it, and nodes without an
/// animation stay.
pub proof fn lemma_animations_move_their_nodes(
    scroll: Seq<i32>,
    animations: Seq<Animation>,
    values: Seq<i32>,
    idx: usize,
)
    requires
        animations.len() > 0,
        values.len() == animations.len(),
    ensures
        animations.last().scroll().node_idx == idx ==> scroll_at(
            with_animated(scroll, animations, values),
            idx,
        ) == values[animations.len() - 1],
        animations.last().scroll().node_idx != idx ==> scroll_at(
            with_animated(scroll, animations, values),
            idx,
        ) == scroll_at(with_animated(scroll, animations.drop_last(), values), idx),
        with_animated(scroll, Seq::empty(), values) == scroll,
{
}

/// Animations go on until their time is over, and in their order.
pub proof fn lemma_running_animations(animations: Seq<Animation>, now: u128, one: Animation)
    ensures
        still_running(animations, now).contains(one) <==> animations.contains(one) && one.scroll().start_at
            + one.scroll().duration >= now,
    decreases animations.len(),
{
    if animations.len() > 0 {
        let less = animations.drop_last();
        lemma_running_animations(less, now, one);
        let before = still_running(less, now);
        let all = still_running(animations, now);
        let last = animations.last();
        assert(animations[animations.len() - 1] == last);
        if animations.contains(one) {
            let i = choose|i: int| 0 <= i < animations.len() && animations[i] == one;
            if i < less.len() {
                assert(less[i] == one);
            }
        }
        if less.contains(one) {
            let i = choose|i: int| 0 <= i < less.len() && less[i] == one;
            assert(animations[i] == one);
        }
        if !last.ended(now) {
            assert(all[before.len() as int] == last);
            if before.contains(one) {
                let i = choose|i: int| 0 <= i < before.len() && before[i] == one;
                assert(all[i] == one);
            }
            if all.contains(one) && one != last {
                let i = choose|i: int| 0 <= i < all.len() && all[i] == one;
                assert(before[i] == one);
            }
        }
    }
}

/// Scrolling that is asked for starts where the node stands and leads to the new place, for the node that
/// is scrolled already or else for the one that was asked for. Further scrolling goes on from there.
pub proof fn lemma_scrolling_starts(
    animations: Seq<Animation>,
    node_idx: usize,
    scroll_y: i32,
    target: i32,
    now: u128,
)
    requires
        target != scroll_y,
    ensures
        ({
            let after = with_scrolling(animations, node_idx, scroll_y, target, now);
            let first = after[0].scroll();
            &&& after.len() > 0
            &&& first.start == scroll_y && first.end == target && first.start_at == now
            &&& animations.len() == 0 ==> first.node_idx == node_idx && after.len() == 1
            &&& animations.len() > 0 ==> first.node_idx == animations[0].scroll().node_idx
                && after.len() == animations.len()
            &&& scroll_base(after, scroll_y) == target
        }),
        with_scrolling(animations, node_idx, scroll_y, scroll_y, now) == animations,
        scroll_base(Seq::empty(), scroll_y) == scroll_y,
{
}

/// A frame that was asked for comes no earlier than an interval after the one before, and no later than
/// needed.
pub proof fn lemma_frames_keep_their_distance(last: u128, now: u128)
    ensures
        frame_delay(false, last, now) is None,
        frame_delay(true, last, now) matches Some(delay) && {
            &&& delay >= 0
            &&& now + delay >= last + ANIMATION_FRAME_INTERVAL
            &&& delay > 0 ==> now + delay == last + ANIMATION_FRAME_INTERVAL
        },
{
}

/// What a frame inside a page paints it announces, right after painting, and before it paints it takes
/// changes of the document in, unless only the pointer moved. Drawing on a canvas does not lay out
/// anew; everything else does.
pub proof fn lemma_frames_announce_what_they_paint(
    flags: FrameFlags,
    command: FrameCommand,
    i: int,
)
    requires
        0 <= i < framed(flags, command).1.len(),
        framed(flags, command).1[i] is Paint,
    ensures
        ({
            let steps = framed(flags, command).1;
            &&& i == steps.len() - 2
            &&& steps[i + 1] is AnnounceFrame
            &&& i > 0
            &&& steps[i - 1] is ProcessDomUpdates || command is Hover
            &&& steps[i] == (StepModel::Paint { rebuild_layout: !(command is CanvasUpdated) })
        }),
{
}

/// A window of another size is laid out anew in that size, and nothing else changes.
pub proof fn lemma_window_is_resized(flags: FrameFlags, url: Seq<char>, width: u32, height: u32)
    ensures
        ({
            let (after, steps) = answered(flags, url, FrameCommand::Resized { width, height });
            &&& after.width == width && after.height == height && after.layout_dirty
            &&& after.pending_dom_update == flags.pending_dom_update && after.document_id
                == flags.document_id && after.load_dispatched == flags.load_dispatched
            &&& steps.len() == 1 && steps[0] is RenderLoop
        }),
{
}

/// The pointer in a frame is as far from the corner of the frame as on the page.
pub proof fn lemma_pointer_in_a_frame(
    nodes: NodesModel,
    table: LayoutTable,
    rendered: Seq<RenderedNode>,
    id: usize,
    x: i32,
    y: i32,
)
    requires
        is_box(table.boxes@, id as int),
    ensures
        hovered_frame(nodes, table, rendered, Some(id), x, y) matches Some((idx, local_x, local_y)) ==> {
            let rect = table.boxes@[id - 1].rect;
            let entry = first_rendered(rendered, id)->0;
            &&& idx == table.boxes@[id - 1].node_idx
            &&& local_x + rect.x + entry.offset_x == x
            &&& local_y + rect.y + entry.offset_y == y
            &&& node_at(nodes, idx) matches Some(node) && node.has_tag("iframe"@)
        },
        hovered_frame(nodes, table, rendered, None, x, y) is None,
{
}

/// Typing adds to the value of a field, and no other attribute changes.
pub proof fn lemma_typing_adds_to_the_value(
    attributes: AttributesModel,
    text: Seq<char>,
    other: Seq<char>,
)
    requires
        names_distinct(attributes),
    ensures
        lookup(attributes, "value"@) matches Some(before) ==> lookup(
            with_typed(attributes, text),
            "value"@,
        ) == Some(before + text),
        lookup(attributes, "value"@) is None ==> lookup(with_typed(attributes, text), "value"@) == Some(
            text,
        ),
        other != "value"@ ==> lookup(with_typed(attributes, text), other) == lookup(attributes, other),
{
    let value = match lookup(attributes, "value"@) {
        Some(value) => value + text,
        None => text,
    };
    lemma_set_value_is_read_back(attributes, "value"@, value, other);
}

} // verus!
