//! The header above the page: a row of tabs, and below it the address.
use vstd::prelude::*;

use crate::numbers::decimal;
use crate::numbers::to_decimal;
use crate::text::push_text;
use crate::ui::plain_element;
use crate::ui::BuilderModel;
use crate::ui::ElementModel;
use crate::ui::Hor;
use crate::ui::JustifyContent;
use crate::ui::Typeable;
use crate::ui::TypeableModel;
use crate::ui::UiBuilder;

verus! {

pub const WINDOW_WIDTH: u32 = 1920;

pub const WINDOW_HEIGHT: u32 = 1080;

pub const HEADER_HEIGHT: u32 = 100;

const HEADER_COLOR: u32 = 0x2e2e_2eff;

const BUTTON_COLOR: u32 = 0x3636_36ff;

/// What is done when the address is changed, and when it is confirmed.
pub const ADDRESS_CHANGED: usize = 0;

pub const ADDRESS_CONFIRMED: usize = 1;

/// How large the part of the window below the header is.
pub fn page_size(width: u32, height: u32) -> (r: (u32, u32))
    ensures
        r.0 == width,
        r.1 == (if height > HEADER_HEIGHT {
            height - HEADER_HEIGHT
        } else {
            0
        }),
{
    if height > HEADER_HEIGHT {
        (width, height - HEADER_HEIGHT)
    } else {
        (width, 0)
    }
}

/// A builder after an element with a text in it was put together.
pub open spec fn with_button(
    builder: BuilderModel,
    radius: u32,
    text: Seq<char>,
    action: Option<usize>,
) -> BuilderModel {
    let element = ElementModel {
        padding: 10,
        width: 100,
        height: 40,
        border_radius: radius,
        bg_color: 0x3636_36ff,
        on_click: action,
        ..plain_element(builder.curr)
    };
    builder.started().with_current(element).with_text(text).finished()
}

pub open spec fn tab_name(idx: int) -> Seq<char> {
    "Tab "@ + decimal((idx + 1) as nat)
}

/// A builder after the first tabs were put into it.
pub open spec fn with_tabs(builder: BuilderModel, count: nat) -> BuilderModel
    decreases count,
{
    if count == 0 {
        builder
    } else {
        with_button(
            with_tabs(builder, (count - 1) as nat),
            10,
            tab_name(count - 1),
            Some((count - 1) as usize),
        )
    }
}

/// What is shown of how many frames are shown in a second.
pub open spec fn fps_text(fps: Option<u32>) -> Seq<char> {
    match fps {
        Some(fps) => decimal(fps as nat) + " FPS"@,
        None => "-- FPS"@,
    }
}

pub open spec fn header_row(parent: Option<usize>) -> ElementModel {
    ElementModel {
        width: WINDOW_WIDTH,
        height: 60,
        padding: 10,
        hor: Some(
            Hor {
                justify_content: JustifyContent::Start,
                align_items: JustifyContent::Start,
            },
        ),
        gap: 10,
        ..plain_element(parent)
    }
}

pub open spec fn address_bar(parent: Option<usize>, url: Seq<char>) -> ElementModel {
    ElementModel {
        bg_color: 0x3636_36ff,
        padding: 10,
        width: WINDOW_WIDTH,
        height: 40,
        typeable: Some(
            TypeableModel {
                text: url,
                color: 0xFFFF_FFFF,
                on_input: Some(ADDRESS_CHANGED),
                on_enter: Some(ADDRESS_CONFIRMED),
            },
        ),
        ..plain_element(parent)
    }
}

/// The header: the tabs, each of which asks for itself when it is clicked; a button that asks for a
/// new one; how many frames are shown in a second, where they are counted; and the address.
pub open spec fn header_model(
    width: u32,
    height: u32,
    tabs: nat,
    fps: Option<Option<u32>>,
    url: Seq<char>,
) -> BuilderModel {
    let empty = BuilderModel { curr: None, nodes: Seq::empty(), width, height };
    let root = empty.started().with_current(
        ElementModel {
            width: WINDOW_WIDTH,
            height: HEADER_HEIGHT,
            bg_color: 0x2e2e_2eff,
            ..plain_element(None)
        },
    );
    let row = root.started().with_current(header_row(root.curr));
    let buttons = with_button(with_tabs(row, tabs), 10, "NEW"@, Some(tabs as usize));
    let counted = match fps {
        Some(fps) => with_button(buttons, 0, fps_text(fps), None),
        None => buttons,
    };
    let below = counted.finished();
    below.started().with_current(address_bar(below.curr, url)).finished().finished()
}

proof fn lemma_set_twice(builder: BuilderModel, first: ElementModel, second: ElementModel)
    requires
        builder.curr matches Some(curr) && curr < builder.nodes.len(),
    ensures
        builder.with_current(first).with_current(second) == builder.with_current(second),
        builder.with_current(first).current() == Some(first),
{
    assert(builder.with_current(first).with_current(second) =~= builder.with_current(second));
}

proof fn lemma_started(builder: BuilderModel)
    requires
        builder.nodes.len() < usize::MAX,
    ensures
        builder.started().with_current(plain_element(builder.curr)) == builder.started(),
        builder.started().current() == Some(plain_element(builder.curr)),
        builder.started().curr == Some(builder.nodes.len() as usize),
{
    assert(builder.started().with_current(plain_element(builder.curr)) =~= builder.started());
}

/// Starts an element of a size, with a padding and a colour.
fn start_box(builder: &mut UiBuilder, width: u32, height: u32, padding: u32, color: u32)
    requires
        old(builder)@.wf(),
        old(builder)@.nodes.len() < usize::MAX,
    ensures
        final(builder)@.wf(),
        final(builder)@ == old(builder)@.started().with_current(
            ElementModel {
                width,
                height,
                padding,
                bg_color: color,
                ..plain_element(old(builder)@.curr)
            },
        ),
{
    let ghost start = builder@;
    let ghost base = start.started();
    let ghost plain = plain_element(start.curr);
    proof {
        lemma_started(start);
    }
    builder.start_element();
    let _ = builder.width(width);
    let ghost one = ElementModel { width, ..plain };
    proof {
        lemma_set_twice(base, plain, one);
    }
    let _ = builder.height(height);
    let ghost two = ElementModel { height, ..one };
    proof {
        lemma_set_twice(base, one, two);
    }
    let _ = builder.padding(padding);
    let ghost three = ElementModel { padding, ..two };
    proof {
        lemma_set_twice(base, two, three);
    }
    let _ = builder.bg(color);
    proof {
        lemma_set_twice(base, three, ElementModel { bg_color: color, ..three });
    }
}

fn add_button(builder: &mut UiBuilder, radius: u32, text: String, action: Option<usize>)
    requires
        old(builder)@.wf(),
        old(builder)@.nodes.len() + 1 < usize::MAX,
    ensures
        final(builder)@.wf(),
        final(builder)@ == with_button(old(builder)@, radius, text@, action),
        final(builder)@.curr == old(builder)@.curr,
        final(builder)@.nodes.len() == old(builder)@.nodes.len() + 2,
        forall|i: int|
            0 <= i < old(builder)@.nodes.len() ==> #[trigger] final(builder)@.nodes[i]
                == old(builder)@.nodes[i],
{
    let ghost start = builder@;
    let ghost base = start.started();
    start_box(builder, 100, 40, 10, BUTTON_COLOR);
    let ghost sized = ElementModel {
        width: 100,
        height: 40,
        padding: 10,
        bg_color: 0x3636_36ff,
        ..plain_element(start.curr)
    };
    proof {
        lemma_started(start);
        lemma_set_twice(base, sized, sized);
    }
    let _ = builder.rounded(radius);
    let ghost round = ElementModel { border_radius: radius, ..sized };
    proof {
        lemma_set_twice(base, sized, round);
        lemma_set_twice(base, round, round);
    }
    match action {
        Some(action) => {
            let _ = builder.on_click(action);
        },
        None => {},
    }
    let ghost element = ElementModel { on_click: action, ..round };
    proof {
        lemma_set_twice(base, round, element);
        lemma_set_twice(base, element, element);
    }
    assert(builder@ == base.with_current(element));
    let _ = builder.text(text);
    let _ = builder.finish_element();
}

/// Starts the row of tabs in the header.
fn start_row(builder: &mut UiBuilder)
    requires
        old(builder)@.wf(),
        old(builder)@.nodes.len() < usize::MAX,
    ensures
        final(builder)@.wf(),
        final(builder)@ == old(builder)@.started().with_current(header_row(old(builder)@.curr)),
{
    let ghost start = builder@;
    let ghost base = start.started();
    start_box(builder, WINDOW_WIDTH, 60, 10, 0);
    let ghost sized = ElementModel {
        width: WINDOW_WIDTH,
        height: 60,
        padding: 10,
        bg_color: 0,
        ..plain_element(start.curr)
    };
    proof {
        lemma_started(start);
        lemma_set_twice(base, sized, sized);
    }
    let _ = builder.hor();
    let ghost row = ElementModel { hor: header_row(start.curr).hor, ..sized };
    proof {
        lemma_set_twice(base, sized, row);
        lemma_set_twice(base, row, row);
    }
    let _ = builder.gap(10);
    proof {
        lemma_set_twice(base, row, ElementModel { gap: 10, ..row });
    }
}

/// Puts the address into the header.
fn add_address(builder: &mut UiBuilder, url: &str)
    requires
        old(builder)@.wf(),
        old(builder)@.nodes.len() < usize::MAX,
    ensures
        final(builder)@.wf(),
        final(builder)@ == old(builder)@.started().with_current(
            address_bar(old(builder)@.curr, url@),
        ).finished(),
        final(builder)@.curr == old(builder)@.curr,
{
    let ghost start = builder@;
    let ghost base = start.started();
    start_box(builder, WINDOW_WIDTH, 40, 10, BUTTON_COLOR);
    let ghost sized = ElementModel {
        width: WINDOW_WIDTH,
        height: 40,
        padding: 10,
        bg_color: 0x3636_36ff,
        ..plain_element(start.curr)
    };
    proof {
        lemma_started(start);
        lemma_set_twice(base, sized, sized);
    }
    let _ = builder.typeable(
        Typeable {
            text: url.to_owned(),
            color: 0xFFFF_FFFF,
            on_input: Some(ADDRESS_CHANGED),
            on_enter: Some(ADDRESS_CONFIRMED),
        },
    );
    let ghost bar = address_bar(start.curr, url@);
    proof {
        lemma_set_twice(base, sized, bar);
        lemma_set_twice(base, bar, bar);
    }
    let _ = builder.finish_element();
}

fn fps_label(fps: Option<u32>) -> (r: String)
    ensures
        r@ == fps_text(fps),
{
    match fps {
        Some(fps) => {
            let mut text = to_decimal(fps as usize);
            push_text(&mut text, " FPS");
            text
        },
        None => "-- FPS".to_owned(),
    }
}

/// Puts the header together.
pub fn build_header(builder: &mut UiBuilder, tabs: usize, fps: Option<Option<u32>>, url: &str)
    requires
        tabs < usize::MAX / 2 - 8,
    ensures
        final(builder)@.wf(),
        final(builder)@ == header_model(
            old(builder).width,
            old(builder).height,
            tabs as nat,
            fps,
            url@,
        ),
{
    builder.clean();
    start_box(builder, WINDOW_WIDTH, HEADER_HEIGHT, 0, HEADER_COLOR);
    start_row(builder);
    let ghost row = builder@;
    let mut at: usize = 0;
    while at < tabs
        invariant
            at <= tabs,
            tabs < usize::MAX / 2 - 8,
            builder@.wf(),
            builder@ == with_tabs(row, at as nat),
            builder@.curr == row.curr,
            row.nodes.len() == 2,
            builder@.nodes.len() == 2 + 2 * at,
            builder@.nodes[0] == row.nodes[0],
            builder@.nodes[1] == row.nodes[1],
        decreases tabs - at,
    {
        let mut name = "Tab ".to_owned();
        let number = to_decimal(at + 1);
        push_text(&mut name, number.as_str());
        add_button(builder, 10, name, Some(at));
        at = at + 1;
    }
    add_button(builder, 10, "NEW".to_owned(), Some(tabs));
    match fps {
        Some(fps) => {
            add_button(builder, 0, fps_label(fps), None);
        },
        None => {},
    }
    let _ = builder.finish_element();
    add_address(builder, url);
    let _ = builder.finish_element();
}

} // verus!
