//! The user interface as it runs: what it looks like, and what it hears of.
use vstd::prelude::*;

use crate::blit::Pixmap;
use crate::boxes::Rect;
use crate::boxes::RectBorder;
use crate::boxes::StyleBackground;
use crate::paint::draw_image;
use crate::paint::draw_side;
use crate::paint::surface_of;
use crate::paint::whole_window;
use crate::paint::SurfaceModel;
use crate::raster::BorderRadius;
use crate::raster::PaintClip;
use crate::text::from_range;
use crate::text::push_text;
use crate::text::to_chars;
use crate::ui::BuilderModel;
use crate::ui::ElementModel;
use crate::ui::Node;
use crate::ui::TypeableModel;
use crate::ui::UiBuilder;
use crate::ui::UiError;
use crate::ui::UiModel;
use crate::ui_layout::ui_boxes;
use crate::ui_layout::TextSize;
use crate::ui_layout::UiBox;
use crate::ui_layout::UiBoxKind;

verus! {

pub open spec fn same_corners(radius: u32) -> BorderRadius {
    BorderRadius {
        top_left: radius,
        top_right: radius,
        bottom_right: radius,
        bottom_left: radius,
    }
}

/// A rectangle of a size without anything in or around it.
pub open spec fn bare_rect(width: u32, height: u32) -> Rect {
    Rect {
        x: 0,
        y: 0,
        width,
        height,
        background: StyleBackground::Transparent,
        border: RectBorder { left: None, top: None, right: None, bottom: None },
        border_radius: same_corners(0),
    }
}

/// A surface with the first boxes of an interface painted on it, in order. A text whose picture is
/// missing is left out.
pub open spec fn ui_painted(
    surface: SurfaceModel,
    boxes: Seq<UiBox>,
    images: Seq<Pixmap>,
    count: nat,
) -> SurfaceModel
    decreases count,
{
    if count == 0 || count > boxes.len() {
        surface
    } else {
        let before = ui_painted(surface, boxes, images, (count - 1) as nat);
        let one = boxes[count - 1];
        let clip = whole_window(surface.width, surface.height);
        match one.kind {
            UiBoxKind::Element => before.with_rect(
                one.x as int,
                one.y as int,
                one.width as int,
                one.height as int,
                one.bg_color,
                same_corners(one.border_radius),
                clip,
            ),
            UiBoxKind::Text(image) => if image < images.len() {
                before.with_image(
                    bare_rect(one.width, one.height),
                    one.x as int,
                    one.y as int,
                    images[image as int],
                    false,
                    clip,
                )
            } else {
                before
            },
        }
    }
}

/// What an interface of a size looks like.
pub fn layout_to_buffer(width: u32, height: u32, layouts: &Vec<UiBox>, images: &Vec<Pixmap>) -> (r: Vec<
    u32,
>)
    requires
        width * height <= u32::MAX,
        forall|i: int| 0 <= i < images@.len() ==> (#[trigger] images@[i]).wf(),
    ensures
        surface_of(r@, width, height) == ui_painted(
            surface_of(Seq::new((width * height) as nat, |i: int| 0u32), width, height),
            layouts@,
            images@,
            layouts@.len(),
        ),
{
    let count: usize = (width * height) as usize;
    let mut buffer: Vec<u32> = vec![0u32; count];
    let ghost blank = surface_of(Seq::new((width * height) as nat, |i: int| 0u32), width, height);
    assert(buffer@ =~= blank.pixels);
    let clip = PaintClip::viewport(width, height);
    let mut at: usize = 0;
    while at < layouts.len()
        invariant
            at <= layouts@.len(),
            forall|i: int| 0 <= i < images@.len() ==> (#[trigger] images@[i]).wf(),
            clip == whole_window(width, height),
            blank.width == width && blank.height == height,
            buffer@.len() == width * height,
            surface_of(buffer@, width, height) == ui_painted(blank, layouts@, images@, at as nat),
        decreases layouts@.len() - at,
    {
        let one = layouts[at];
        let ghost before = buffer@;
        proof {
            lemma_ui_painted_size(blank, layouts@, images@, at as nat);
        }
        match one.kind {
            UiBoxKind::Element => {
                let radius = BorderRadius {
                    top_left: one.border_radius,
                    top_right: one.border_radius,
                    bottom_right: one.border_radius,
                    bottom_left: one.border_radius,
                };
                draw_side(
                    &mut buffer,
                    width,
                    height,
                    one.x,
                    one.y,
                    one.width,
                    one.height,
                    one.bg_color,
                    &radius,
                    clip,
                );
            },
            UiBoxKind::Text(image) => {
                if image < images.len() {
                    let rect = Rect {
                        x: 0,
                        y: 0,
                        width: one.width,
                        height: one.height,
                        background: StyleBackground::Transparent,
                        border: RectBorder::new_empty(),
                        border_radius: BorderRadius {
                            top_left: 0,
                            top_right: 0,
                            bottom_right: 0,
                            bottom_left: 0,
                        },
                    };
                    draw_image(
                        &mut buffer,
                        width,
                        height,
                        &rect,
                        one.x,
                        one.y,
                        &images[image],
                        false,
                        clip,
                    );
                }
            },
        }
        at = at + 1;
    }
    buffer
}

proof fn lemma_ui_painted_size(surface: SurfaceModel, boxes: Seq<UiBox>, images: Seq<Pixmap>, count: nat)
    ensures
        ui_painted(surface, boxes, images, count).width == surface.width,
        ui_painted(surface, boxes, images, count).height == surface.height,
    decreases count,
{
    if count > 0 && count <= boxes.len() {
        lemma_ui_painted_size(surface, boxes, images, (count - 1) as nat);
    }
}

/// Whether a place lies in a box of an element.
pub open spec fn holds_place(nodes: Seq<UiModel>, one: UiBox, x: i32, y: i32) -> bool {
    &&& one.node_idx < nodes.len() && nodes[one.node_idx as int] is Element
    &&& one.x <= x < one.x + (one.width as i32)
    &&& one.y <= y < one.y + (one.height as i32)
}

/// The element at a place: that of the last box that it lies in.
pub open spec fn element_at(nodes: Seq<UiModel>, boxes: Seq<UiBox>, x: i32, y: i32) -> Option<usize>
    decreases boxes.len(),
{
    if boxes.len() == 0 {
        None
    } else if holds_place(nodes, boxes.last(), x, y) {
        Some(boxes.last().node_idx)
    } else {
        element_at(nodes, boxes.drop_last(), x, y)
    }
}

/// What clicking a node asks for: the actions of the element and of those around it, from the inside
/// out, and the element that can be typed into then: the innermost such.
pub open spec fn click_on(nodes: Seq<UiModel>, idx: usize) -> (Seq<usize>, Option<usize>)
    decreases idx,
{
    if idx >= nodes.len() {
        (Seq::empty(), None)
    } else {
        let (outer_actions, outer_focus) = match nodes[idx as int].parent_idx() {
            Some(parent) => if parent < idx {
                click_on(nodes, parent)
            } else {
                (Seq::empty(), None)
            },
            None => (Seq::empty(), None),
        };
        match nodes[idx as int] {
            UiModel::Element(element) => (
                match element.on_click {
                    Some(action) => seq![action] + outer_actions,
                    None => outer_actions,
                },
                if element.typeable is Some {
                    Some(idx)
                } else {
                    outer_focus
                },
            ),
            _ => (outer_actions, outer_focus),
        }
    }
}

/// A key that was pressed.
#[derive(Debug, Clone, Copy, PartialEq, Eq, Structural)]
pub enum Key {
    Backspace,
    Enter,
    Other,
}

/// What follows when a key was pressed: what is to be done because the text was confirmed, and what
/// because it may have changed. The interface is painted again.
#[derive(Debug, Clone, Copy, PartialEq, Eq, Structural)]
pub struct KeyOutcome {
    pub on_enter: Option<usize>,
    pub on_input: Option<usize>,
}

/// The text after a key was pressed, and what follows.
pub open spec fn typed_into(typeable: TypeableModel, key: Key, input: Seq<char>) -> (
    Seq<char>,
    KeyOutcome,
) {
    if typeable.text.len() > 0 && key == Key::Backspace {
        (
            typeable.text.drop_last(),
            KeyOutcome { on_enter: None, on_input: typeable.on_input },
        )
    } else if key == Key::Enter && typeable.on_enter is Some {
        (
            typeable.text,
            KeyOutcome { on_enter: typeable.on_enter, on_input: typeable.on_input },
        )
    } else {
        (typeable.text + input, KeyOutcome { on_enter: None, on_input: typeable.on_input })
    }
}

/// An interface that runs: how it was put together, what it looks like, the element under the
/// pointer, and the one that is typed into.
#[derive(Debug)]
pub struct UiRuntime {
    pub builder: UiBuilder,
    pub buffer: Vec<u32>,
    pub layout: Vec<UiBox>,
    pub hovering: Option<usize>,
    pub focused: Option<usize>,
}

/// What typing into an element makes of an interface.
pub open spec fn with_typed_text(builder: BuilderModel, idx: usize, element: ElementModel, text: Seq<
    char,
>) -> BuilderModel {
    BuilderModel {
        nodes: builder.nodes.update(
            idx as int,
            UiModel::Element(
                ElementModel {
                    typeable: Some(TypeableModel { text, ..element.typeable->0 }),
                    ..element
                },
            ),
        ),
        ..builder
    }
}

impl UiRuntime {
    pub fn new_empty(width: u32, height: u32) -> (r: UiRuntime)
        ensures
            r.builder@ == (BuilderModel { curr: None, nodes: Seq::empty(), width, height }),
            r.builder@.wf(),
            r.buffer@.len() == 0,
            r.layout@.len() == 0,
            r.hovering is None,
            r.focused is None,
    {
        UiRuntime {
            builder: UiBuilder::new(width, height),
            buffer: Vec::new(),
            layout: Vec::new(),
            hovering: None,
            focused: None,
        }
    }

    /// Lays the interface out and paints it. Nothing changes where it cannot be laid out.
    pub fn rerender(&mut self, sizes: &Vec<Option<TextSize>>, images: &Vec<Pixmap>) -> (r: Result<
        (),
        UiError,
    >)
        requires
            old(self).builder@.wf(),
            old(self).builder.width * old(self).builder.height <= u32::MAX,
            forall|i: int| 0 <= i < images@.len() ==> (#[trigger] images@[i]).wf(),
        ensures
            final(self).builder == old(self).builder,
            final(self).hovering == old(self).hovering,
            final(self).focused == old(self).focused,
            match (r, ui_boxes(old(self).builder@.nodes, sizes@, 0, 0, 0)) {
                (Ok(_), Ok(boxes)) => {
                    let width = old(self).builder.width;
                    let height = old(self).builder.height;
                    &&& final(self).layout@ == boxes
                    &&& surface_of(final(self).buffer@, width, height) == ui_painted(
                        surface_of(
                            Seq::new((width * height) as nat, |i: int| 0u32),
                            width,
                            height,
                        ),
                        boxes,
                        images@,
                        boxes.len(),
                    )
                },
                (Err(error), Err(model)) => error == model && final(self).layout
                    == old(self).layout && final(self).buffer == old(self).buffer,
                _ => false,
            },
    {
        let layout = match self.builder.layout(sizes) {
            Ok(layout) => layout,
            Err(error) => {
                return Err(error);
            },
        };
        self.buffer = layout_to_buffer(
            self.builder.width,
            self.builder.height,
            &layout,
            images,
        );
        self.layout = layout;
        Ok(())
    }

    /// The pointer is at a place.
    pub fn apply_hovering(&mut self, x: i32, y: i32)
        ensures
            final(self).hovering == element_at(old(self).builder@.nodes, old(self).layout@, x, y),
            final(self).builder == old(self).builder,
            final(self).buffer == old(self).buffer,
            final(self).layout == old(self).layout,
            final(self).focused == old(self).focused,
    {
        let ghost nodes = self.builder@.nodes;
        let ghost boxes = self.layout@;
        let mut found: Option<usize> = None;
        let mut at: usize = self.layout.len();
        assert(boxes.take(at as int) =~= boxes);
        while at > 0 && found.is_none()
            invariant
                at <= boxes.len(),
                boxes == self.layout@,
                nodes == self.builder@.nodes,
                *self == *old(self),
                match found {
                    Some(idx) => element_at(nodes, boxes, x, y) == Some(idx),
                    None => element_at(nodes, boxes, x, y) == element_at(
                        nodes,
                        boxes.take(at as int),
                        x,
                        y,
                    ),
                },
            decreases at,
        {
            let one = self.layout[at - 1];
            assert(boxes.take(at as int).drop_last() =~= boxes.take(at - 1));
            let element = if one.node_idx < self.builder.nodes.len() {
                assert(nodes[one.node_idx as int] == self.builder.nodes@[one.node_idx as int]@);
                match &self.builder.nodes[one.node_idx] {
                    Node::Element(_) => true,
                    Node::Text(_) => false,
                }
            } else {
                false
            };
            let width: i32 = one.width as i32;
            let height: i32 = one.height as i32;
            if element && one.x <= x && (x as i64) < one.x as i64 + width as i64 && one.y <= y && (
            y as i64) < one.y as i64 + height as i64 {
                found = Some(one.node_idx);
            }
            at = at - 1;
        }
        self.hovering = found;
    }

    fn collect_clicks(&self, idx: usize, actions: &mut Vec<usize>) -> (r: Option<usize>)
        ensures
            ({
                let (list, focus) = click_on(self.builder@.nodes, idx);
                r == focus && final(actions)@ == old(actions)@ + list
            }),
        decreases idx,
    {
        let ghost start = actions@;
        assert(start + Seq::<usize>::empty() =~= start);
        if idx >= self.builder.nodes.len() {
            return None;
        }
        let ghost nodes = self.builder@.nodes;
        assert(nodes[idx as int] == self.builder.nodes@[idx as int]@);
        let node = &self.builder.nodes[idx];
        let typeable = match node {
            Node::Element(element) => {
                match element.on_click {
                    Some(action) => {
                        actions.push(action);
                        assert(actions@ =~= start + seq![action]);
                    },
                    None => {},
                }
                element.typeable.is_some()
            },
            Node::Text(_) => false,
        };
        let ghost own = actions@;
        let outer: Option<usize> = match node.get_parent() {
            Some(parent) => {
                if parent < idx {
                    self.collect_clicks(parent, actions)
                } else {
                    None
                }
            },
            None => None,
        };
        proof {
            assert(actions@ =~= start + click_on(nodes, idx).0);
        }
        if typeable {
            Some(idx)
        } else {
            outer
        }
    }

    /// The interface was clicked. Gives what is to be done, in order.
    pub fn on_click(&mut self) -> (r: Vec<usize>)
        ensures
            ({
                let (list, focus) = match old(self).hovering {
                    Some(idx) => click_on(old(self).builder@.nodes, idx),
                    None => (Seq::empty(), None),
                };
                r@ == list && final(self).focused == focus
            }),
            final(self).builder == old(self).builder,
            final(self).buffer == old(self).buffer,
            final(self).layout == old(self).layout,
            final(self).hovering == old(self).hovering,
    {
        let mut actions: Vec<usize> = Vec::new();
        match self.hovering {
            Some(idx) => {
                let focus = self.collect_clicks(idx, &mut actions);
                assert(actions@ =~= click_on(self.builder@.nodes, idx).0);
                self.focused = focus;
            },
            None => {
                self.focused = None;
            },
        }
        actions
    }

    /// A key was pressed that writes a text. Gives what follows, where something is typed into.
    pub fn on_keyup(&mut self, key: Key, input: Option<&str>) -> (r: Option<KeyOutcome>)
        requires
            old(self).builder@.wf(),
        ensures
            final(self).builder@.wf(),
            final(self).buffer == old(self).buffer,
            final(self).layout == old(self).layout,
            final(self).hovering == old(self).hovering,
            final(self).focused == old(self).focused,
            match (typed_element(*old(self)), input) {
                (Some((idx, element, typeable)), Some(input)) => {
                    let (text, outcome) = typed_into(typeable, key, input@);
                    r == Some(outcome) && final(self).builder@ == with_typed_text(
                        old(self).builder@,
                        idx,
                        element,
                        text,
                    )
                },
                _ => r is None && final(self).builder@ == old(self).builder@,
            },
    {
        let idx: usize = match self.focused {
            Some(idx) => idx,
            None => {
                return None;
            },
        };
        if idx >= self.builder.nodes.len() {
            return None;
        }
        let ghost before = self.builder@;
        assert(before.nodes[idx as int] == self.builder.nodes@[idx as int]@);
        let input: &str = match input {
            Some(input) => input,
            None => {
                return None;
            },
        };
        let typeable = match &self.builder.nodes[idx] {
            Node::Element(element) => element.typeable.is_some(),
            Node::Text(_) => false,
        };
        if !typeable {
            return None;
        }
        let node = self.builder.nodes.remove(idx);
        assert(crate::ui::ui_models(self.builder.nodes@) =~= before.nodes.remove(idx as int));
        let mut outcome = KeyOutcome { on_enter: None, on_input: None };
        let node = match node {
            Node::Element(mut element) => {
                let typeable = match element.typeable {
                    Some(mut typeable) => {
                        let chars = to_chars(typeable.text.as_str());
                        outcome = KeyOutcome { on_enter: None, on_input: typeable.on_input };
                        if chars.len() > 0 && key == Key::Backspace {
                            let text = from_range(&chars, 0, chars.len() - 1);
                            assert(text@ =~= chars@.drop_last());
                            typeable.text = text;
                        } else if key == Key::Enter && typeable.on_enter.is_some() {
                            outcome = KeyOutcome {
                                on_enter: typeable.on_enter,
                                on_input: typeable.on_input,
                            };
                        } else {
                            push_text(&mut typeable.text, input);
                        }
                        Some(typeable)
                    },
                    None => None,
                };
                element.typeable = typeable;
                Node::Element(element)
            },
            other => other,
        };
        let ghost model = node@;
        self.builder.nodes.insert(idx, node);
        proof {
            let (_, element, typeable) = typed_element(*old(self))->0;
            let (text, _) = typed_into(typeable, key, input@);
            assert(self.builder@.nodes =~= before.nodes.update(idx as int, model));
            assert(self.builder@ =~= with_typed_text(before, idx, element, text));
            assert forall|i: int| 0 <= i < self.builder@.nodes.len() implies ((
            #[trigger] self.builder@.nodes[i]).parent_idx() matches Some(parent) ==> parent < i
                && self.builder@.nodes[parent as int] is Element) by {
                assert(self.builder@.nodes[i].parent_idx() == before.nodes[i].parent_idx());
            }
        }
        Some(outcome)
    }
}

/// The element that is typed into.
pub open spec fn typed_element(runtime: UiRuntime) -> Option<(usize, ElementModel, TypeableModel)> {
    match runtime.focused {
        Some(idx) => if idx < runtime.builder@.nodes.len() {
            match runtime.builder@.nodes[idx as int] {
                UiModel::Element(element) => match element.typeable {
                    Some(typeable) => Some((idx, element, typeable)),
                    None => None,
                },
                _ => None,
            }
        } else {
            None
        },
        None => None,
    }
}

/// Taking a character back undoes typing it.
pub proof fn lemma_backspace_undoes_typing(typeable: TypeableModel, c: char)
    ensures
        ({
            let (text, _) = typed_into(typeable, Key::Other, seq![c]);
            typed_into(TypeableModel { text, ..typeable }, Key::Backspace, Seq::empty()).0
                == typeable.text
        }),
{
    let (text, _) = typed_into(typeable, Key::Other, seq![c]);
    assert(text.drop_last() =~= typeable.text);
}

} // verus!
