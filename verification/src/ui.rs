//! The user interface around a page: elements and texts that are put together step by step, laid out
//! and painted, and that hear of clicks and keys. What is to be done then is known by number.
use vstd::prelude::*;


verus! {

#[derive(Debug, Clone, Copy, PartialEq, Eq, Structural)]
pub enum UiEvent {
    Rerender,
}

/// A text that can be typed into, and what is to be done when it changes or is confirmed.
#[derive(Debug)]
pub struct Typeable {
    pub text: String,
    pub color: u32,
    pub on_input: Option<usize>,
    pub on_enter: Option<usize>,
}

#[derive(Debug, Clone, Copy, PartialEq, Eq, Structural)]
pub enum JustifyContent {
    Start,
    Center,
    End,
}

/// How an element places its children side by side.
#[derive(Debug, Clone, Copy, PartialEq, Eq, Structural)]
pub struct Hor {
    pub justify_content: JustifyContent,
    pub align_items: JustifyContent,
}

impl Hor {
    pub fn new() -> (r: Hor)
        ensures
            r == (Hor {
                justify_content: JustifyContent::Start,
                align_items: JustifyContent::Start,
            }),
    {
        Hor { justify_content: JustifyContent::Start, align_items: JustifyContent::Start }
    }
}

#[derive(Debug)]
pub struct Element {
    pub bg_color: u32,
    pub height: u32,
    pub width: u32,
    pub padding: u32,
    pub parent: Option<usize>,
    pub on_click: Option<usize>,
    pub hor: Option<Hor>,
    pub typeable: Option<Typeable>,
    pub gap: u32,
    pub border_radius: u32,
}

/// What a [`Typeable`] holds.
pub struct TypeableModel {
    pub text: Seq<char>,
    pub color: u32,
    pub on_input: Option<usize>,
    pub on_enter: Option<usize>,
}

impl View for Typeable {
    type V = TypeableModel;

    open spec fn view(&self) -> TypeableModel {
        TypeableModel {
            text: self.text@,
            color: self.color,
            on_input: self.on_input,
            on_enter: self.on_enter,
        }
    }
}

/// What an [`Element`] holds.
pub struct ElementModel {
    pub bg_color: u32,
    pub height: u32,
    pub width: u32,
    pub padding: u32,
    pub parent: Option<usize>,
    pub on_click: Option<usize>,
    pub hor: Option<Hor>,
    pub typeable: Option<TypeableModel>,
    pub gap: u32,
    pub border_radius: u32,
}

impl View for Element {
    type V = ElementModel;

    open spec fn view(&self) -> ElementModel {
        ElementModel {
            bg_color: self.bg_color,
            height: self.height,
            width: self.width,
            padding: self.padding,
            parent: self.parent,
            on_click: self.on_click,
            hor: self.hor,
            typeable: match self.typeable {
                Some(typeable) => Some(typeable@),
                None => None,
            },
            gap: self.gap,
            border_radius: self.border_radius,
        }
    }
}

/// An element that has been given nothing yet.
pub open spec fn plain_element(parent: Option<usize>) -> ElementModel {
    ElementModel {
        bg_color: 0,
        height: 0,
        width: 0,
        padding: 0,
        parent,
        on_click: None,
        hor: None,
        typeable: None,
        gap: 0,
        border_radius: 0,
    }
}

impl Element {
    pub fn new() -> (r: Element)
        ensures
            r@ == plain_element(None),
    {
        Element {
            bg_color: 0,
            height: 0,
            width: 0,
            padding: 0,
            parent: None,
            on_click: None,
            hor: None,
            typeable: None,
            gap: 0,
            border_radius: 0,
        }
    }
}

#[derive(Debug)]
pub struct TextElement {
    pub text: String,
    pub color: u32,
    pub font_px: u32,
    pub parent: Option<usize>,
}

#[derive(Debug)]
pub enum Node {
    Element(Element),
    Text(TextElement),
}

/// What a [`Node`] holds.
pub enum UiModel {
    Element(ElementModel),
    Text { text: Seq<char>, color: u32, font_px: u32, parent: Option<usize> },
}

impl View for Node {
    type V = UiModel;

    open spec fn view(&self) -> UiModel {
        match *self {
            Node::Element(element) => UiModel::Element(element@),
            Node::Text(text) => UiModel::Text {
                text: text.text@,
                color: text.color,
                font_px: text.font_px,
                parent: text.parent,
            },
        }
    }
}

impl UiModel {
    pub open spec fn parent_idx(self) -> Option<usize> {
        match self {
            UiModel::Element(element) => element.parent,
            UiModel::Text { text, color, font_px, parent } => parent,
        }
    }
}

impl Node {
    pub fn get_parent(&self) -> (r: Option<usize>)
        ensures
            r == self@.parent_idx(),
    {
        match self {
            Node::Element(element) => element.parent,
            Node::Text(text) => text.parent,
        }
    }
}

/// Why something about the interface cannot be done.
#[derive(Debug, Clone, Copy, PartialEq, Eq, Structural)]
pub enum UiError {
    /// No element is being put together.
    NoElement,
    /// The children of the element are not placed side by side.
    NotHorizontal,
    /// There is nothing to lay out.
    Empty,
    /// A text could not be drawn.
    NoText,
    /// A coordinate leaves the `i32` range.
    OutOfRange,
}

/// Puts an interface together: an element is started, given what it has, filled and finished.
#[derive(Debug)]
pub struct UiBuilder {
    pub curr: Option<usize>,
    pub nodes: Vec<Node>,
    pub width: u32,
    pub height: u32,
}

/// What a [`UiBuilder`] holds.
#[verifier::ext_equal]
pub struct BuilderModel {
    pub curr: Option<usize>,
    pub nodes: Seq<UiModel>,
    pub width: u32,
    pub height: u32,
}

pub open spec fn ui_models(nodes: Seq<Node>) -> Seq<UiModel> {
    Seq::new(nodes.len(), |i: int| nodes[i]@)
}

impl View for UiBuilder {
    type V = BuilderModel;

    open spec fn view(&self) -> BuilderModel {
        BuilderModel {
            curr: self.curr,
            nodes: ui_models(self.nodes@),
            width: self.width,
            height: self.height,
        }
    }
}

/// Whether every node comes after its parent, which is an element.
pub open spec fn parents_first(nodes: Seq<UiModel>) -> bool {
    forall|i: int|
        0 <= i < nodes.len() ==> ((#[trigger] nodes[i]).parent_idx() matches Some(parent) ==> parent
            < i && nodes[parent as int] is Element)
}

impl BuilderModel {
    /// The element that is being put together exists, and every node comes after its parent.
    pub open spec fn wf(self) -> bool {
        &&& parents_first(self.nodes)
        &&& self.curr matches Some(curr) ==> curr < self.nodes.len()
            && self.nodes[curr as int] is Element
    }

    /// The element that is being put together.
    pub open spec fn current(self) -> Option<ElementModel> {
        match self.curr {
            Some(curr) => match self.nodes[curr as int] {
                UiModel::Element(element) => Some(element),
                _ => None,
            },
            None => None,
        }
    }

    /// The builder with the element that is being put together replaced.
    pub open spec fn with_current(self, element: ElementModel) -> BuilderModel {
        BuilderModel {
            nodes: self.nodes.update(self.curr->0 as int, UiModel::Element(element)),
            ..self
        }
    }

    /// The builder after an element was started in the present one.
    pub open spec fn started(self) -> BuilderModel {
        BuilderModel {
            curr: Some(self.nodes.len() as usize),
            nodes: self.nodes.push(UiModel::Element(plain_element(self.curr))),
            ..self
        }
    }

    /// The builder after the element that is being put together was finished.
    pub open spec fn finished(self) -> BuilderModel {
        BuilderModel {
            curr: match self.current() {
                Some(element) => element.parent,
                None => None,
            },
            ..self
        }
    }

    /// The builder after a text was put into the element.
    pub open spec fn with_text(self, text: Seq<char>) -> BuilderModel {
        BuilderModel {
            nodes: self.nodes.push(
                UiModel::Text { text, color: 0xFFFF_FFFF, font_px: 16, parent: self.curr },
            ),
            ..self
        }
    }
}

/// What a setter does: it fails where no element is being put together, and then changes nothing.
pub open spec fn was_set(
    before: BuilderModel,
    after: BuilderModel,
    r: Result<(), UiError>,
    element: spec_fn(ElementModel) -> ElementModel,
) -> bool {
    match before.current() {
        Some(current) => r is Ok && after == before.with_current(element(current)),
        None => r == Err::<(), UiError>(UiError::NoElement) && after == before,
    }
}

impl UiBuilder {
    pub fn new(width: u32, height: u32) -> (r: UiBuilder)
        ensures
            r@ == (BuilderModel { curr: None, nodes: Seq::empty(), width, height }),
            r@.wf(),
    {
        let r = UiBuilder { curr: None, nodes: Vec::new(), width, height };
        assert(r@ =~= (BuilderModel { curr: None, nodes: Seq::empty(), width, height }));
        r
    }

    /// Starts an element inside the one that is being put together.
    pub fn start_element(&mut self)
        requires
            old(self)@.wf(),
        ensures
            final(self)@.wf(),
            final(self)@ == old(self)@.started(),
    {
        let ghost start = self@;
        let mut element = Element::new();
        element.parent = self.curr;
        let idx: usize = self.nodes.len();
        self.nodes.push(Node::Element(element));
        self.curr = Some(idx);
        proof {
            assert(self@ =~= start.started());
            assert forall|i: int| 0 <= i < self@.nodes.len() implies ((
            #[trigger] self@.nodes[i]).parent_idx() matches Some(parent) ==> parent < i
                && self@.nodes[parent as int] is Element) by {
                if i < start.nodes.len() {
                    assert(self@.nodes[i] == start.nodes[i]);
                }
            }
        }
    }

    /// Finishes the element that is being put together; the one around it goes on.
    pub fn finish_element(&mut self) -> (r: Result<(), UiError>)
        requires
            old(self)@.wf(),
        ensures
            final(self)@.wf(),
            match old(self).curr {
                Some(_) => r is Ok && final(self)@ == old(self)@.finished(),
                None => r == Err::<(), UiError>(UiError::NoElement) && final(self)@ == old(self)@,
            },
    {
        match self.curr {
            Some(curr) => {
                assert(self@.nodes[curr as int] == self.nodes@[curr as int]@);
                self.curr = self.nodes[curr].get_parent();
                Ok(())
            },
            None => Err(UiError::NoElement),
        }
    }

    fn take_current(&mut self) -> (r: Option<(usize, Element)>)
        requires
            old(self)@.wf(),
        ensures
            match old(self)@.current() {
                Some(element) => r matches Some((curr, taken)) && old(self).curr == Some(curr)
                    && taken@ == element && final(self)@.nodes == old(self)@.nodes.remove(
                    curr as int,
                ) && curr < old(self)@.nodes.len(),
                None => r is None && final(self)@ == old(self)@,
            },
            final(self).curr == old(self).curr,
            final(self).width == old(self).width,
            final(self).height == old(self).height,
    {
        let curr: usize = match self.curr {
            Some(curr) => curr,
            None => {
                return None;
            },
        };
        let ghost start = self@;
        assert(start.nodes[curr as int] == self.nodes@[curr as int]@);
        let node = self.nodes.remove(curr);
        assert(self@.nodes =~= start.nodes.remove(curr as int));
        match node {
            Node::Element(element) => Some((curr, element)),
            Node::Text(_) => None,
        }
    }

    fn put_current(&mut self, curr: usize, element: Element, Ghost(before): Ghost<BuilderModel>)
        requires
            before.wf(),
            before.curr == Some(curr),
            old(self).curr == Some(curr),
            old(self)@.nodes == before.nodes.remove(curr as int),
            old(self).width == before.width,
            old(self).height == before.height,
            before.current() matches Some(current) && current.parent == element@.parent,
        ensures
            final(self)@ == before.with_current(element@),
            final(self)@.wf(),
    {
        let ghost models = self@.nodes;
        self.nodes.insert(curr, Node::Element(element));
        proof {
            assert(self@.nodes =~= models.insert(curr as int, UiModel::Element(element@)));
            assert(self@ =~= before.with_current(element@));
            let after = self@;
            assert forall|i: int| 0 <= i < after.nodes.len() implies ((
            #[trigger] after.nodes[i]).parent_idx() matches Some(parent) ==> parent < i
                && after.nodes[parent as int] is Element) by {
                assert(after.nodes[i].parent_idx() == before.nodes[i].parent_idx());
            }
        }
    }

    pub fn bg(&mut self, rgba: u32) -> (r: Result<(), UiError>)
        requires
            old(self)@.wf(),
        ensures
            final(self)@.wf(),
            was_set(
                old(self)@,
                final(self)@,
                r,
                |element: ElementModel| ElementModel { bg_color: rgba, ..element },
            ),
    {
        let ghost before = self@;
        match self.take_current() {
            Some((curr, mut element)) => {
                element.bg_color = rgba;
                self.put_current(curr, element, Ghost(before));
                Ok(())
            },
            None => Err(UiError::NoElement),
        }
    }

    pub fn padding(&mut self, padding: u32) -> (r: Result<(), UiError>)
        requires
            old(self)@.wf(),
        ensures
            final(self)@.wf(),
            was_set(
                old(self)@,
                final(self)@,
                r,
                |element: ElementModel| ElementModel { padding, ..element },
            ),
    {
        let ghost before = self@;
        match self.take_current() {
            Some((curr, mut element)) => {
                element.padding = padding;
                self.put_current(curr, element, Ghost(before));
                Ok(())
            },
            None => Err(UiError::NoElement),
        }
    }

    pub fn height(&mut self, height: u32) -> (r: Result<(), UiError>)
        requires
            old(self)@.wf(),
        ensures
            final(self)@.wf(),
            was_set(
                old(self)@,
                final(self)@,
                r,
                |element: ElementModel| ElementModel { height, ..element },
            ),
    {
        let ghost before = self@;
        match self.take_current() {
            Some((curr, mut element)) => {
                element.height = height;
                self.put_current(curr, element, Ghost(before));
                Ok(())
            },
            None => Err(UiError::NoElement),
        }
    }

    pub fn width(&mut self, width: u32) -> (r: Result<(), UiError>)
        requires
            old(self)@.wf(),
        ensures
            final(self)@.wf(),
            was_set(
                old(self)@,
                final(self)@,
                r,
                |element: ElementModel| ElementModel { width, ..element },
            ),
    {
        let ghost before = self@;
        match self.take_current() {
            Some((curr, mut element)) => {
                element.width = width;
                self.put_current(curr, element, Ghost(before));
                Ok(())
            },
            None => Err(UiError::NoElement),
        }
    }

    /// The children are placed side by side.
    pub fn hor(&mut self) -> (r: Result<(), UiError>)
        requires
            old(self)@.wf(),
        ensures
            final(self)@.wf(),
            was_set(
                old(self)@,
                final(self)@,
                r,
                |element: ElementModel|
                    ElementModel {
                        hor: Some(
                            Hor {
                                justify_content: JustifyContent::Start,
                                align_items: JustifyContent::Start,
                            },
                        ),
                        ..element
                    },
            ),
    {
        let ghost before = self@;
        match self.take_current() {
            Some((curr, mut element)) => {
                element.hor = Some(Hor::new());
                self.put_current(curr, element, Ghost(before));
                Ok(())
            },
            None => Err(UiError::NoElement),
        }
    }

    pub fn gap(&mut self, gap: u32) -> (r: Result<(), UiError>)
        requires
            old(self)@.wf(),
        ensures
            final(self)@.wf(),
            was_set(
                old(self)@,
                final(self)@,
                r,
                |element: ElementModel| ElementModel { gap, ..element },
            ),
    {
        let ghost before = self@;
        match self.take_current() {
            Some((curr, mut element)) => {
                element.gap = gap;
                self.put_current(curr, element, Ghost(before));
                Ok(())
            },
            None => Err(UiError::NoElement),
        }
    }

    /// Where the children stand along the row. Only children that are placed side by side have such a
    /// place.
    pub fn justify(&mut self, value: JustifyContent) -> (r: Result<(), UiError>)
        requires
            old(self)@.wf(),
        ensures
            final(self)@.wf(),
            match old(self)@.current() {
                Some(element) => match element.hor {
                    Some(hor) => r is Ok && final(self)@ == old(self)@.with_current(
                        ElementModel {
                            hor: Some(Hor { justify_content: value, ..hor }),
                            ..element
                        },
                    ),
                    None => r == Err::<(), UiError>(UiError::NotHorizontal) && final(self)@
                        == old(self)@,
                },
                None => r == Err::<(), UiError>(UiError::NoElement) && final(self)@ == old(self)@,
            },
    {
        let ghost before = self@;
        match self.take_current() {
            Some((curr, mut element)) => {
                let set = match element.hor {
                    Some(hor) => {
                        element.hor = Some(
                            Hor { justify_content: value, align_items: hor.align_items },
                        );
                        true
                    },
                    None => false,
                };
                let ghost now = element@;
                self.put_current(curr, element, Ghost(before));
                if set {
                    Ok(())
                } else {
                    assert(before.with_current(now) =~= before);
                    Err(UiError::NotHorizontal)
                }
            },
            None => Err(UiError::NoElement),
        }
    }

    /// Where the children stand across the row.
    pub fn align(&mut self, value: JustifyContent) -> (r: Result<(), UiError>)
        requires
            old(self)@.wf(),
        ensures
            final(self)@.wf(),
            match old(self)@.current() {
                Some(element) => match element.hor {
                    Some(hor) => r is Ok && final(self)@ == old(self)@.with_current(
                        ElementModel { hor: Some(Hor { align_items: value, ..hor }), ..element },
                    ),
                    None => r == Err::<(), UiError>(UiError::NotHorizontal) && final(self)@
                        == old(self)@,
                },
                None => r == Err::<(), UiError>(UiError::NoElement) && final(self)@ == old(self)@,
            },
    {
        let ghost before = self@;
        match self.take_current() {
            Some((curr, mut element)) => {
                let set = match element.hor {
                    Some(hor) => {
                        element.hor = Some(
                            Hor { justify_content: hor.justify_content, align_items: value },
                        );
                        true
                    },
                    None => false,
                };
                let ghost now = element@;
                self.put_current(curr, element, Ghost(before));
                if set {
                    Ok(())
                } else {
                    assert(before.with_current(now) =~= before);
                    Err(UiError::NotHorizontal)
                }
            },
            None => Err(UiError::NoElement),
        }
    }

    pub fn rounded(&mut self, border_radius: u32) -> (r: Result<(), UiError>)
        requires
            old(self)@.wf(),
        ensures
            final(self)@.wf(),
            was_set(
                old(self)@,
                final(self)@,
                r,
                |element: ElementModel| ElementModel { border_radius, ..element },
            ),
    {
        let ghost before = self@;
        match self.take_current() {
            Some((curr, mut element)) => {
                element.border_radius = border_radius;
                self.put_current(curr, element, Ghost(before));
                Ok(())
            },
            None => Err(UiError::NoElement),
        }
    }

    pub fn typeable(&mut self, typeable: Typeable) -> (r: Result<(), UiError>)
        requires
            old(self)@.wf(),
        ensures
            final(self)@.wf(),
            was_set(
                old(self)@,
                final(self)@,
                r,
                |element: ElementModel| ElementModel { typeable: Some(typeable@), ..element },
            ),
    {
        let ghost before = self@;
        match self.take_current() {
            Some((curr, mut element)) => {
                element.typeable = Some(typeable);
                self.put_current(curr, element, Ghost(before));
                Ok(())
            },
            None => Err(UiError::NoElement),
        }
    }

    /// What is to be done when the element is clicked.
    pub fn on_click(&mut self, action: usize) -> (r: Result<(), UiError>)
        requires
            old(self)@.wf(),
        ensures
            final(self)@.wf(),
            was_set(
                old(self)@,
                final(self)@,
                r,
                |element: ElementModel| ElementModel { on_click: Some(action), ..element },
            ),
    {
        let ghost before = self@;
        match self.take_current() {
            Some((curr, mut element)) => {
                element.on_click = Some(action);
                self.put_current(curr, element, Ghost(before));
                Ok(())
            },
            None => Err(UiError::NoElement),
        }
    }

    /// Puts a text into the element.
    pub fn text(&mut self, text: String) -> (r: Result<(), UiError>)
        requires
            old(self)@.wf(),
        ensures
            final(self)@.wf(),
            r is Ok,
            final(self)@ == old(self)@.with_text(text@),
    {
        let ghost start = self@;
        let parent = self.curr;
        self.nodes.push(
            Node::Text(TextElement { text, color: 0xFFFF_FFFF, font_px: 16, parent }),
        );
        proof {
            assert(self@ =~= start.with_text(text@));
            assert forall|i: int| 0 <= i < self@.nodes.len() implies ((
            #[trigger] self@.nodes[i]).parent_idx() matches Some(parent) ==> parent < i
                && self@.nodes[parent as int] is Element) by {
                if i < start.nodes.len() {
                    assert(self@.nodes[i] == start.nodes[i]);
                }
            }
        }
        Ok(())
    }

    /// Starts anew.
    pub fn clean(&mut self)
        ensures
            final(self)@.wf(),
            final(self)@ == (BuilderModel { curr: None, nodes: Seq::empty(), ..old(self)@ }),
    {
        self.nodes = Vec::new();
        self.curr = None;
        assert(self@ =~= (BuilderModel { curr: None, nodes: Seq::empty(), ..old(self)@ }));
    }
}

} // verus!
