//! Elements that a page defines itself, and roots that it hides below elements.
use vstd::prelude::*;

use crate::dom::node_at;
use crate::dom::parent_of;
use crate::dom::Node;
use crate::dom::NodeModel;
use crate::dom::NodesModel;
use crate::dom::NodesTable;
use crate::elements::is_listed;
use crate::elements::kept;
use crate::subtree::collect_preorder;
use crate::subtree::preorder;
use crate::subtree::tree_like;
use crate::text::contains_char;
use crate::text::contains_text;
use crate::text::same_text;
use crate::text::lemma_among;
use crate::text::texts_of;
use crate::text::to_chars;
use crate::tree::children_at;
use crate::tree::ChildrenIndex;
use crate::tree::ChildrenModel;

verus! {

/// Whether a character may stand in the name of an element that a page defines.
pub open spec fn is_name_char(c: char) -> bool {
    let code = c as u32;
    ||| c == '-' || c == '.' || c == '_' || '0' <= c <= '9' || 'a' <= c <= 'z'
    ||| code == 0xb7
    ||| 0xc0 <= code <= 0xd6
    ||| 0xd8 <= code <= 0xf6
    ||| 0xf8 <= code <= 0x37d
    ||| 0x37f <= code <= 0x1fff
    ||| 0x200c <= code <= 0x200d
    ||| 0x203f <= code <= 0x2040
    ||| 0x2070 <= code <= 0x218f
    ||| 0x2c00 <= code <= 0x2fef
    ||| 0x3001 <= code <= 0xd7ff
    ||| 0xf900 <= code <= 0xfdcf
    ||| 0xfdf0 <= code <= 0xfffd
    ||| 0x10000 <= code <= 0xeffff
}

/// Whether a name is taken although it could be defined.
pub open spec fn is_reserved(name: Seq<char>) -> bool {
    ||| name == "annotation-xml"@
    ||| name == "color-profile"@
    ||| name == "font-face"@
    ||| name == "font-face-src"@
    ||| name == "font-face-uri"@
    ||| name == "font-face-format"@
    ||| name == "font-face-name"@
    ||| name == "missing-glyph"@
}

/// Whether a page may define an element of a name: it starts with a small letter, holds a hyphen and
/// otherwise what names may hold, and is not taken.
pub open spec fn can_be_defined(name: Seq<char>) -> bool {
    &&& name.len() > 0 && 'a' <= name[0] <= 'z'
    &&& name.contains('-')
    &&& forall|i: int| 0 <= i < name.len() ==> is_name_char(#[trigger] name[i])
    &&& !is_reserved(name)
}

fn name_char(c: char) -> (r: bool)
    ensures
        r == is_name_char(c),
{
    let code: u32 = c as u32;
    c == '-' || c == '.' || c == '_' || ('0' <= c && c <= '9') || ('a' <= c && c <= 'z') || code
        == 0xb7 || (0xc0 <= code && code <= 0xd6) || (0xd8 <= code && code <= 0xf6) || (0xf8 <= code
        && code <= 0x37d) || (0x37f <= code && code <= 0x1fff) || (0x200c <= code && code <= 0x200d)
        || (0x203f <= code && code <= 0x2040) || (0x2070 <= code && code <= 0x218f) || (0x2c00
        <= code && code <= 0x2fef) || (0x3001 <= code && code <= 0xd7ff) || (0xf900 <= code && code
        <= 0xfdcf) || (0xfdf0 <= code && code <= 0xfffd) || (0x10000 <= code && code <= 0xeffff)
}

fn reserved(name: &str) -> (r: bool)
    ensures
        r == is_reserved(name@),
{
    same_text(name, "annotation-xml") || same_text(name, "color-profile") || same_text(
        name,
        "font-face",
    ) || same_text(name, "font-face-src") || same_text(name, "font-face-uri") || same_text(
        name,
        "font-face-format",
    ) || same_text(name, "font-face-name") || same_text(name, "missing-glyph")
}

/// Whether a page may define an element of a name.
pub fn valid_name(name: &str) -> (r: bool)
    ensures
        r == can_be_defined(name@),
{
    let chars = to_chars(name);
    if chars.len() == 0 || !('a' <= chars[0] && chars[0] <= 'z') || !contains_char(name, '-') {
        return false;
    }
    let mut at: usize = 0;
    while at < chars.len()
        invariant
            at <= chars@.len(),
            chars@ == name@,
            forall|i: int| 0 <= i < at ==> is_name_char(#[trigger] name@[i]),
        decreases chars@.len() - at,
    {
        if !name_char(chars[at]) {
            assert(!is_name_char(name@[at as int]));
            return false;
        }
        at = at + 1;
    }
    !reserved(name)
}

/// What the page has defined, and the elements that were made what they are defined as, or for which
/// that was tried and failed.
#[derive(Debug)]
pub struct Registry {
    pub names: Vec<String>,
    pub attempted: Vec<usize>,
}

/// What a [`Registry`] holds.
#[verifier::ext_equal]
pub struct RegistryModel {
    pub names: Seq<Seq<char>>,
    pub attempted: Seq<usize>,
}

impl View for Registry {
    type V = RegistryModel;

    open spec fn view(&self) -> RegistryModel {
        RegistryModel { names: texts_of(self.names@), attempted: self.attempted@ }
    }
}

/// Why an element cannot be defined.
#[derive(Debug, Clone, Copy, PartialEq, Eq, Structural)]
pub enum DefineError {
    InvalidName,
    AlreadyDefined,
}

/// Whether an element is to be made what it is defined as: it was defined, and that was not tried
/// before.
pub open spec fn to_upgrade(nodes: NodesModel, registry: RegistryModel, idx: usize) -> bool {
    &&& !registry.attempted.contains(idx)
    &&& node_at(nodes, idx) matches Some(NodeModel::Element { tag, attributes, parent })
        && registry.names.contains(tag)
}

impl Registry {
    pub fn new() -> (r: Registry)
        ensures
            r@ == (RegistryModel { names: Seq::empty(), attempted: Seq::empty() }),
    {
        let r = Registry { names: Vec::new(), attempted: Vec::new() };
        assert(r@ =~= (RegistryModel { names: Seq::empty(), attempted: Seq::empty() }));
        r
    }

    /// Defines an element. `constructor_known` says whether its constructor is that of another one.
    pub fn define(&mut self, name: String, constructor_known: bool) -> (r: Result<(), DefineError>)
        ensures
            match r {
                Ok(_) => can_be_defined(name@) && !constructor_known && !old(self)@.names.contains(
                    name@,
                ) && final(self)@ == (RegistryModel {
                    names: old(self)@.names.push(name@),
                    attempted: old(self)@.attempted,
                }),
                Err(error) => *final(self) == *old(self) && if can_be_defined(name@) {
                    error == DefineError::AlreadyDefined && (constructor_known || old(self)@.names.contains(name@))
                } else {
                    error == DefineError::InvalidName
                },
            },
    {
        if !valid_name(name.as_str()) {
            return Err(DefineError::InvalidName);
        }
        proof {
            lemma_among(self.names@, name@);
        }
        if contains_text(&self.names, name.as_str()) || constructor_known {
            return Err(DefineError::AlreadyDefined);
        }
        let ghost start = self@;
        self.names.push(name);
        assert(self@ =~= (RegistryModel {
            names: start.names.push(name@),
            attempted: start.attempted,
        }));
        Ok(())
    }

    /// Starts to make an element what it is defined as. Gives whether it is to be done; it counts as
    /// tried from then on.
    pub fn upgrade_element(&mut self, nodes: &NodesTable, idx: usize) -> (r: bool)
        ensures
            r == to_upgrade(nodes@, old(self)@, idx),
            final(self)@ == (if r {
                RegistryModel {
                    names: old(self)@.names,
                    attempted: old(self)@.attempted.push(idx),
                }
            } else {
                old(self)@
            }),
    {
        if is_listed(&self.attempted, idx) {
            return false;
        }
        match nodes.get(idx) {
            Some(Node::Element(element)) => {
                proof {
                    lemma_among(self.names@, element.tag@);
                }
                if contains_text(&self.names, element.tag.as_str()) {
                    self.attempted.push(idx);
                    true
                } else {
                    false
                }
            },
            _ => false,
        }
    }
}

/// An element is made what it is defined as once: when its turn comes again, nothing is done.
pub proof fn lemma_upgraded_once(nodes: NodesModel, registry: RegistryModel, idx: usize)
    ensures
        !to_upgrade(
            nodes,
            RegistryModel {
                names: registry.names,
                attempted: registry.attempted.push(idx),
            },
            idx,
        ),
{
    assert(registry.attempted.push(idx)[registry.attempted.len() as int] == idx);
}

/// The elements at and below a node in document order; of one name only, where it is given.
pub open spec fn candidates_below(
    nodes: NodesModel,
    children: ChildrenModel,
    root: usize,
    name: Option<Seq<char>>,
) -> Seq<usize> {
    kept(
        preorder(children, root),
        |idx: usize|
            (node_at(nodes, idx) matches Some(NodeModel::Element { tag, attributes, parent }) && (
            name matches Some(name) ==> tag == name)),
    )
}

/// The elements at and below a node that may have to be made what they are defined as.
pub fn upgrade_candidates(
    nodes: &NodesTable,
    index: &ChildrenIndex,
    root: usize,
    name: Option<&str>,
) -> (r: Vec<usize>)
    requires
        tree_like(index@),
    ensures
        r@ == candidates_below(
            nodes@,
            index@,
            root,
            match name {
                Some(name) => Some(name@),
                None => None,
            },
        ),
{
    let mut all: Vec<usize> = Vec::new();
    collect_preorder(index, root, &mut all);
    assert(all@ =~= preorder(index@, root));
    let ghost wanted_name = match name {
        Some(name) => Some(name@),
        None => None,
    };
    let ghost wanted = |idx: usize|
        (node_at(nodes@, idx) matches Some(NodeModel::Element { tag, attributes, parent }) && (
        wanted_name matches Some(name) ==> tag == name));
    let mut result: Vec<usize> = Vec::new();
    let mut at: usize = 0;
    while at < all.len()
        invariant
            at <= all@.len(),
            wanted_name == (match name {
                Some(name) => Some(name@),
                None => None,
            }),
            wanted == (|idx: usize|
                (node_at(nodes@, idx) matches Some(
                    NodeModel::Element { tag, attributes, parent },
                ) && (wanted_name matches Some(name) ==> tag == name))),
            result@ == kept(all@.take(at as int), wanted),
        decreases all@.len() - at,
    {
        let idx: usize = all[at];
        assert(all@.take(at + 1).drop_last() =~= all@.take(at as int));
        match nodes.get(idx) {
            Some(Node::Element(element)) => {
                let named = match name {
                    Some(name) => same_text(element.tag.as_str(), name),
                    None => true,
                };
                if named {
                    result.push(idx);
                }
            },
            _ => {},
        }
        at = at + 1;
    }
    assert(all@.take(all@.len() as int) =~= all@);
    result
}

/// Whether what the constructor of an element made can be used: an element of the name that is
/// nowhere in the document, and has no attributes and no children.
pub fn is_valid_construction(nodes: &NodesTable, index: &ChildrenIndex, idx: usize, name: &str) -> (r:
    bool)
    ensures
        r == ((node_at(nodes@, idx) matches Some(NodeModel::Element { tag, attributes, parent }) && tag
            == name@ && parent is None && attributes.len() == 0) && (children_at(
            index@,
            idx,
        ) matches Some(list) ==> list.len() == 0)),
{
    let fresh = match nodes.get(idx) {
        Some(Node::Element(element)) => same_text(element.tag.as_str(), name)
            && element.parent.is_none() && element.attributes.values.len() == 0,
        _ => false,
    };
    let childless = match index.get(idx) {
        Some(list) => list.len() == 0,
        None => true,
    };
    fresh && childless
}

/// The element that a constructor works on: while an element is being made what it is defined as,
/// that element, once; else a new one.
#[derive(Debug, Clone, Copy, PartialEq, Eq, Structural)]
pub enum ConstructionTarget {
    Existing(usize),
    Fresh,
    /// The element has been given out already.
    AlreadyConstructed,
}

/// The element that a constructor works on. `stack` holds the elements that are being made what they
/// are defined as, the innermost last, each until it is given out.
pub fn element_for_construction(stack: &mut Vec<Option<usize>>) -> (r: ConstructionTarget)
    ensures
        if old(stack)@.len() == 0 {
            r == ConstructionTarget::Fresh && final(stack)@ == old(stack)@
        } else {
            match old(stack)@.last() {
                Some(idx) => r == ConstructionTarget::Existing(idx) && final(stack)@
                    == old(stack)@.update(old(stack)@.len() - 1, None),
                None => r == ConstructionTarget::AlreadyConstructed && final(stack)@
                    == old(stack)@,
            }
        },
{
    if stack.len() == 0 {
        return ConstructionTarget::Fresh;
    }
    let last: usize = stack.len() - 1;
    match stack[last] {
        Some(idx) => {
            stack.set(last, None);
            ConstructionTarget::Existing(idx)
        },
        None => ConstructionTarget::AlreadyConstructed,
    }
}

#[derive(Debug, Clone, Copy, PartialEq, Eq, Structural)]
pub enum ShadowRootMode {
    Open,
    Closed,
}

/// A root that hides below an element.
#[derive(Debug, Clone, Copy, PartialEq, Eq, Structural)]
pub struct ShadowRoot {
    pub host: usize,
    pub root: usize,
    pub mode: ShadowRootMode,
}

/// The roots that hide below elements.
#[derive(Debug)]
pub struct ShadowRoots {
    pub roots: Vec<ShadowRoot>,
}

/// Why no root can be put below an element.
#[derive(Debug, Clone, Copy, PartialEq, Eq, Structural)]
pub enum ShadowError {
    /// The mode is neither open nor closed.
    UnknownMode,
    NoElement,
    /// The element cannot have a root, or has one.
    NotSupported,
}

/// The mode that a text names.
pub open spec fn shadow_mode(mode: Seq<char>) -> Option<ShadowRootMode> {
    if mode == "open"@ {
        Some(ShadowRootMode::Open)
    } else if mode == "closed"@ {
        Some(ShadowRootMode::Closed)
    } else {
        None
    }
}

/// Whether an element can have a root: one that the page may define, or one of some others.
pub open spec fn can_host(tag: Seq<char>) -> bool {
    ||| can_be_defined(tag)
    ||| tag == "article"@
    ||| tag == "aside"@
    ||| tag == "blockquote"@
    ||| tag == "body"@
    ||| tag == "div"@
    ||| tag == "footer"@
    ||| tag == "h1"@
    ||| tag == "h2"@
    ||| tag == "h3"@
    ||| tag == "h4"@
    ||| tag == "h5"@
    ||| tag == "h6"@
    ||| tag == "header"@
    ||| tag == "main"@
    ||| tag == "nav"@
    ||| tag == "p"@
    ||| tag == "section"@
    ||| tag == "span"@
}

fn hosts(tag: &str) -> (r: bool)
    ensures
        r == can_host(tag@),
{
    valid_name(tag) || same_text(tag, "article") || same_text(tag, "aside") || same_text(
        tag,
        "blockquote",
    ) || same_text(tag, "body") || same_text(tag, "div") || same_text(tag, "footer") || same_text(
        tag,
        "h1",
    ) || same_text(tag, "h2") || same_text(tag, "h3") || same_text(tag, "h4") || same_text(
        tag,
        "h5",
    ) || same_text(tag, "h6") || same_text(tag, "header") || same_text(tag, "main") || same_text(
        tag,
        "nav",
    ) || same_text(tag, "p") || same_text(tag, "section") || same_text(tag, "span")
}

/// The root below an element.
pub open spec fn root_below(roots: Seq<ShadowRoot>, host: usize) -> Option<ShadowRoot>
    decreases roots.len(),
{
    if roots.len() == 0 {
        None
    } else if roots.last().host == host {
        Some(roots.last())
    } else {
        root_below(roots.drop_last(), host)
    }
}

/// The root with a number.
pub open spec fn root_numbered(roots: Seq<ShadowRoot>, root: usize) -> Option<ShadowRoot>
    decreases roots.len(),
{
    if roots.len() == 0 {
        None
    } else if roots.last().root == root {
        Some(roots.last())
    } else {
        root_numbered(roots.drop_last(), root)
    }
}

/// Why no root can be put below an element; nothing where one can.
pub open spec fn attach_fault(
    nodes: NodesModel,
    roots: Seq<ShadowRoot>,
    host: usize,
    mode: Seq<char>,
) -> Option<ShadowError> {
    if shadow_mode(mode) is None {
        Some(ShadowError::UnknownMode)
    } else {
        match node_at(nodes, host) {
            Some(NodeModel::Element { tag, attributes, parent }) => if can_host(tag) && root_below(
                roots,
                host,
            ) is None {
                None
            } else {
                Some(ShadowError::NotSupported)
            },
            _ => Some(ShadowError::NoElement),
        }
    }
}

impl ShadowRoots {
    pub fn new() -> (r: ShadowRoots)
        ensures
            r.roots@.len() == 0,
    {
        ShadowRoots { roots: Vec::new() }
    }

    fn find(&self, host: usize) -> (r: Option<ShadowRoot>)
        ensures
            r == root_below(self.roots@, host),
    {
        let mut at: usize = self.roots.len();
        assert(self.roots@.take(at as int) =~= self.roots@);
        while at > 0
            invariant
                at <= self.roots@.len(),
                root_below(self.roots@, host) == root_below(self.roots@.take(at as int), host),
            decreases at,
        {
            assert(self.roots@.take(at as int).drop_last() =~= self.roots@.take(at - 1));
            if self.roots[at - 1].host == host {
                return Some(self.roots[at - 1]);
            }
            at = at - 1;
        }
        None
    }

    /// Puts a root below an element. `root` is the number that it gets.
    pub fn attach(&mut self, nodes: &NodesTable, host: usize, mode: &str, root: usize) -> (r: Result<
        (),
        ShadowError,
    >)
        ensures
            match r {
                Ok(_) => attach_fault(nodes@, old(self).roots@, host, mode@) is None && final(self).roots@ == old(self).roots@.push(
                    ShadowRoot { host, root, mode: shadow_mode(mode@)->0 },
                ),
                Err(error) => attach_fault(nodes@, old(self).roots@, host, mode@) == Some(error)
                    && *final(self) == *old(self),
            },
    {
        let mode = if same_text(mode, "open") {
            ShadowRootMode::Open
        } else if same_text(mode, "closed") {
            ShadowRootMode::Closed
        } else {
            return Err(ShadowError::UnknownMode);
        };
        let element = match nodes.get(host) {
            Some(Node::Element(element)) => element,
            _ => {
                return Err(ShadowError::NoElement);
            },
        };
        if !hosts(element.tag.as_str()) || self.find(host).is_some() {
            return Err(ShadowError::NotSupported);
        }
        self.roots.push(ShadowRoot { host, root, mode });
        Ok(())
    }

    /// The root below an element, as far as scripts may see it: an open one.
    pub fn get_shadow_root(&self, host: usize) -> (r: Option<usize>)
        ensures
            r == (match root_below(self.roots@, host) {
                Some(root) => if root.mode == ShadowRootMode::Open {
                    Some(root.root)
                } else {
                    None
                },
                None => None,
            }),
    {
        match self.find(host) {
            Some(root) => if root.mode == ShadowRootMode::Open {
                Some(root.root)
            } else {
                None
            },
            None => None,
        }
    }

    fn host_of(&self, root: usize) -> (r: Option<usize>)
        ensures
            r == (match root_numbered(self.roots@, root) {
                Some(found) => Some(found.host),
                None => None,
            }),
    {
        let mut at: usize = self.roots.len();
        assert(self.roots@.take(at as int) =~= self.roots@);
        while at > 0
            invariant
                at <= self.roots@.len(),
                root_numbered(self.roots@, root) == root_numbered(
                    self.roots@.take(at as int),
                    root,
                ),
            decreases at,
        {
            assert(self.roots@.take(at as int).drop_last() =~= self.roots@.take(at - 1));
            if self.roots[at - 1].root == root {
                return Some(self.roots[at - 1].host);
            }
            at = at - 1;
        }
        None
    }

    /// The node in whose box a node is laid out: its parent, where there is such a node; for a child
    /// of a root that hides below an element, that element.
    pub fn layout_parent(&self, nodes: &NodesTable, idx: usize) -> (r: Option<usize>)
        ensures
            r == (match parent_of(nodes@, idx) {
                Some(parent) => match root_numbered(self.roots@, parent) {
                    Some(root) => Some(root.host),
                    None => if node_at(nodes@, parent) is Some {
                        Some(parent)
                    } else {
                        None
                    },
                },
                None => None,
            }),
    {
        match nodes.parent(idx) {
            Some(parent) => match self.host_of(parent) {
                Some(host) => Some(host),
                None => if nodes.get(parent).is_some() {
                    Some(parent)
                } else {
                    None
                },
            },
            None => None,
        }
    }
}

/// A root that was put below an element is found there, and scripts see it exactly where it is open.
pub proof fn lemma_attached_root_is_found(roots: Seq<ShadowRoot>, root: ShadowRoot, other: usize)
    ensures
        root_below(roots.push(root), root.host) == Some(root),
        root_numbered(roots.push(root), root.root) == Some(root),
        other != root.host ==> root_below(roots.push(root), other) == root_below(roots, other),
{
    assert(roots.push(root).drop_last() =~= roots);
}

} // verus!
