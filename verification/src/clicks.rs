//! What a click does, step by step. Between two steps the page's own code may run and change the
//! page, so every step looks at the page anew.
use vstd::prelude::*;

use crate::dom::lookup;
use crate::dom::node_at;
use crate::dom::Node;
use crate::dom::NodeModel;
use crate::dom::NodesModel;
use crate::dom::NodesTable;
use crate::elements::get_implicit_click_events;
use crate::elements::implied_changes;
use crate::forms::controls_below;
use crate::forms::entries_of;
use crate::forms::form_navigation;
use crate::forms::is_submit_button;
use crate::forms::is_submitter;
use crate::forms::submit_form;
use crate::forms::FormError;
use crate::forms::FormNavigation;
use crate::forms::NavigationModel;
use crate::host::change_code;
use crate::host::click_code;
use crate::host::get_change_code;
use crate::host::get_click_code;
use crate::host::get_submit_code;
use crate::host::submit_code;
use crate::index::DomIndexes;
use crate::index::NamedSets;
use crate::subtree::tree_like;
use crate::text::same_text;
use crate::tree::accepts;
use crate::tree::acyclic;
use crate::tree::get_parents;
use crate::tree::lineage;
use crate::tree::walk_node_upwards;
use crate::tree::ChildrenModel;
use crate::urls::join_url;
use crate::urls::joined_url;

verus! {

/// What is looked for among a node and those around it.
#[derive(Debug, Clone, Copy, PartialEq, Eq, Structural)]
pub enum Sought {
    /// A control that text can be typed into.
    Focusable,
    /// A button that submits.
    SubmitButton,
    Form,
    Link,
}

/// Whether a node is what is looked for.
pub open spec fn is_sought(node: NodeModel, sought: Sought) -> bool {
    match sought {
        Sought::Focusable => {
            &&& node.has_tag("input"@) || node.has_tag("textarea"@)
            &&& node.attribute("type"@) matches Some(kind) ==> kind == "text"@ || kind
                == "password"@
        },
        Sought::SubmitButton => match node {
            NodeModel::Element { tag, attributes, parent } => is_submitter(tag, attributes),
            _ => false,
        },
        Sought::Form => node.has_tag("form"@),
        Sought::Link => node.has_tag("a"@),
    }
}

/// The first of the listed nodes that is what is looked for.
pub open spec fn first_sought(nodes: NodesModel, list: Seq<usize>, sought: Sought) -> Option<usize>
    decreases list.len(),
{
    if list.len() == 0 {
        None
    } else if node_at(nodes, list[0]) matches Some(node) && is_sought(node, sought) {
        Some(list[0])
    } else {
        first_sought(nodes, list.drop_first(), sought)
    }
}

/// The nearest of a node and its ancestors that is what is looked for.
pub open spec fn nearest_sought(nodes: NodesModel, idx: usize, sought: Sought) -> Option<usize> {
    first_sought(nodes, lineage(nodes, idx), sought)
}

pub open spec fn is_sought_at(nodes: NodesModel, idx: usize, sought: Sought) -> bool {
    node_at(nodes, idx) matches Some(node) && is_sought(node, sought)
}

proof fn lemma_first_sought(nodes: NodesModel, list: Seq<usize>, sought: Sought, k: int)
    requires
        0 <= k <= list.len(),
        forall|j: int| 0 <= j < k ==> !is_sought_at(nodes, #[trigger] list[j], sought),
        k < list.len() ==> is_sought_at(nodes, list[k], sought),
    ensures
        first_sought(nodes, list, sought) == (if k < list.len() {
            Some(list[k])
        } else {
            None
        }),
    decreases list.len(),
{
    if list.len() > 0 && k > 0 {
        let rest = list.drop_first();
        assert(!is_sought_at(nodes, list[0], sought));
        assert forall|j: int| 0 <= j < k - 1 implies !is_sought_at(
            nodes,
            #[trigger] rest[j],
            sought,
        ) by {
            assert(rest[j] == list[j + 1]);
        }
        lemma_first_sought(nodes, rest, sought, k - 1);
    }
}

fn answers(node: &Node, sought: Sought) -> (r: bool)
    ensures
        r == is_sought(node@, sought),
{
    let element = match node {
        Node::Element(element) => element,
        _ => {
            return false;
        },
    };
    match sought {
        Sought::Focusable => {
            let typeable = match element.attributes.get_str("type") {
                Some(kind) => same_text(kind.as_str(), "text") || same_text(
                    kind.as_str(),
                    "password",
                ),
                None => true,
            };
            (same_text(element.tag.as_str(), "input") || same_text(
                element.tag.as_str(),
                "textarea",
            )) && typeable
        },
        Sought::SubmitButton => is_submit_button(element),
        Sought::Form => same_text(element.tag.as_str(), "form"),
        Sought::Link => same_text(element.tag.as_str(), "a"),
    }
}

/// The nearest of a node and its ancestors that is what is looked for.
pub fn find_nearest(nodes: &NodesTable, idx: usize, sought: Sought) -> (r: Option<usize>)
    requires
        acyclic(nodes@),
    ensures
        r == nearest_sought(nodes@, idx, sought),
{
    let callback = |node: &Node| -> (answer: bool)
        ensures
            answer == is_sought(node@, sought),
        { answers(node, sought) };
    let found = walk_node_upwards(nodes, idx, callback);
    proof {
        let list = lineage(nodes@, idx);
        assert forall|i: usize, answer: bool| #[trigger]
            accepts(nodes, callback, i, answer) implies is_sought_at(nodes@, i, sought)
            == answer by {}
        match found {
            Some(_) => {
                let k = choose|k: int|
                    {
                        &&& 0 <= k < list.len()
                        &&& list[k] == found->0
                        &&& #[trigger] accepts(nodes, callback, list[k], true)
                        &&& forall|j: int|
                            0 <= j < k ==> #[trigger] accepts(nodes, callback, list[j], false)
                    };
                assert forall|j: int| 0 <= j < k implies !is_sought_at(
                    nodes@,
                    #[trigger] list[j],
                    sought,
                ) by {
                    assert(accepts(nodes, callback, list[j], false));
                }
                lemma_first_sought(nodes@, list, sought, k);
            },
            None => {
                assert forall|j: int| 0 <= j < list.len() implies !is_sought_at(
                    nodes@,
                    #[trigger] list[j],
                    sought,
                ) by {
                    assert(node_at(nodes@, list[j]) is None || accepts(
                        nodes,
                        callback,
                        list[j],
                        false,
                    ));
                }
                lemma_first_sought(nodes@, list, sought, list.len() as int);
            },
        }
    }
    found
}

/// How far a click has come. What the page's own code answered about the click goes along: where it
/// prevented it, no link is opened.
#[derive(Debug)]
pub enum ClickState {
    /// Nothing has been done; the node under the pointer is given.
    Pressed(Option<usize>),
    /// The page hears of the click.
    Clicked { target: usize, parents: Vec<usize> },
    /// The page hears of changes that the click implies: some nodes have not been looked at, and
    /// some changes have not been told.
    Changing { target: usize, parents: Vec<usize>, changes: Vec<usize>, prevented: bool },
    /// The focus has been set.
    Focused { target: usize, prevented: bool },
    /// The page hears that a form is about to be sent.
    Submitting { target: usize, form: usize, button: usize, prevented: bool },
    /// The form has been sent.
    Submitted { target: usize, prevented: bool },
    Finished,
}

/// What a [`ClickState`] holds.
pub enum ClickModel {
    Pressed(Option<usize>),
    Clicked { target: usize, parents: Seq<usize> },
    Changing { target: usize, parents: Seq<usize>, changes: Seq<usize>, prevented: bool },
    Focused { target: usize, prevented: bool },
    Submitting { target: usize, form: usize, button: usize, prevented: bool },
    Submitted { target: usize, prevented: bool },
    Finished,
}

impl View for ClickState {
    type V = ClickModel;

    open spec fn view(&self) -> ClickModel {
        match *self {
            ClickState::Pressed(hovering) => ClickModel::Pressed(hovering),
            ClickState::Clicked { target, parents } => ClickModel::Clicked {
                target,
                parents: parents@,
            },
            ClickState::Changing { target, parents, changes, prevented } => ClickModel::Changing {
                target,
                parents: parents@,
                changes: changes@,
                prevented,
            },
            ClickState::Focused { target, prevented } => ClickModel::Focused { target, prevented },
            ClickState::Submitting { target, form, button, prevented } => ClickModel::Submitting {
                target,
                form,
                button,
                prevented,
            },
            ClickState::Submitted { target, prevented } => ClickModel::Submitted {
                target,
                prevented,
            },
            ClickState::Finished => ClickModel::Finished,
        }
    }
}

/// Why a click ended early.
#[derive(Debug, Clone, Copy, PartialEq, Eq, Structural)]
pub enum ClickError {
    Form(FormError),
    /// The address of the link cannot be read.
    InvalidLink,
}

/// What is to be done next.
#[derive(Debug)]
pub enum ClickAction {
    /// Nothing has the focus any more.
    ClearFocus,
    /// The click is for the frame at a node.
    Forward(usize),
    /// Code is to be run; the answer is whether it prevented the event.
    Run(String),
    SetFocus(Option<usize>),
    Submit(FormNavigation),
    OpenLink(String),
    Fail(ClickError),
    Stop,
}

/// What a [`ClickAction`] holds.
pub enum ActionModel {
    ClearFocus,
    Forward(usize),
    Run(Seq<char>),
    SetFocus(Option<usize>),
    Submit(NavigationModel),
    OpenLink(Seq<char>),
    Fail(ClickError),
    Stop,
}

impl View for ClickAction {
    type V = ActionModel;

    open spec fn view(&self) -> ActionModel {
        match *self {
            ClickAction::ClearFocus => ActionModel::ClearFocus,
            ClickAction::Forward(idx) => ActionModel::Forward(idx),
            ClickAction::Run(code) => ActionModel::Run(code@),
            ClickAction::SetFocus(idx) => ActionModel::SetFocus(idx),
            ClickAction::Submit(navigation) => ActionModel::Submit(navigation@),
            ClickAction::OpenLink(url) => ActionModel::OpenLink(url@),
            ClickAction::Fail(error) => ActionModel::Fail(error),
            ClickAction::Stop => ActionModel::Stop,
        }
    }
}

/// The page that a click is on.
pub struct PageModel {
    pub nodes: NodesModel,
    pub children: ChildrenModel,
    pub ids: NamedSets,
    pub url: Seq<char>,
}

/// The next change to be told, with the nodes and the changes that are left: the changes in order,
/// and when they have run out those of the next node.
pub open spec fn next_change(page: PageModel, parents: Seq<usize>, changes: Seq<usize>) -> Option<
    (usize, Seq<usize>, Seq<usize>),
>
    decreases parents.len(),
{
    if changes.len() > 0 {
        Some((changes[0], parents, changes.drop_first()))
    } else if parents.len() > 0 {
        next_change(
            page,
            parents.drop_first(),
            implied_changes(page.nodes, page.ids, parents[0]),
        )
    } else {
        None
    }
}

pub open spec fn after_changes(
    page: PageModel,
    target: usize,
    parents: Seq<usize>,
    changes: Seq<usize>,
    prevented: bool,
) -> (ClickModel, ActionModel) {
    match next_change(page, parents, changes) {
        Some((idx, parents, changes)) => (
            ClickModel::Changing { target, parents, changes, prevented },
            ActionModel::Run(change_code(idx)),
        ),
        None => (
            ClickModel::Focused { target, prevented },
            ActionModel::SetFocus(nearest_sought(page.nodes, target, Sought::Focusable)),
        ),
    }
}

/// A click ends with the link around its target, unless it was prevented.
pub open spec fn after_forms(page: PageModel, target: usize, prevented: bool) -> (
    ClickModel,
    ActionModel,
) {
    (
        ClickModel::Finished,
        match nearest_sought(page.nodes, target, Sought::Link) {
            Some(link) => match node_at(page.nodes, link) {
                Some(node) => match node.attribute("href"@) {
                    Some(href) => if prevented {
                        ActionModel::Stop
                    } else {
                        match joined_url(page.url, href) {
                            Some(url) => ActionModel::OpenLink(url),
                            None => ActionModel::Fail(ClickError::InvalidLink),
                        }
                    },
                    None => ActionModel::Stop,
                },
                None => ActionModel::Stop,
            },
            None => ActionModel::Stop,
        },
    )
}

/// Where a form leads when one of its buttons is pressed.
pub open spec fn submitted(page: PageModel, form: usize, button: usize) -> Result<
    NavigationModel,
    FormError,
> {
    match node_at(page.nodes, form) {
        Some(NodeModel::Element { tag, attributes, parent }) => form_navigation(
            page.url,
            lookup(attributes, "action"@),
            lookup(attributes, "method"@),
            entries_of(
                page.nodes,
                controls_below(page.nodes, page.children, form, Some(button)),
            ),
        ),
        _ => Err(FormError::NoForm),
    }
}

/// The next step of a click, after the last action was answered.
pub open spec fn clicked(state: ClickModel, answer: bool, page: PageModel) -> (
    ClickModel,
    ActionModel,
) {
    match state {
        ClickModel::Pressed(hovering) => match hovering {
            None => (ClickModel::Finished, ActionModel::ClearFocus),
            Some(target) => if node_at(page.nodes, target) matches Some(node) && node.has_tag(
                "iframe"@,
            ) {
                (ClickModel::Finished, ActionModel::Forward(target))
            } else {
                (
                    ClickModel::Clicked { target, parents: lineage(page.nodes, target) },
                    ActionModel::Run(click_code(target, lineage(page.nodes, target))),
                )
            },
        },
        ClickModel::Clicked { target, parents } => after_changes(
            page,
            target,
            parents,
            Seq::empty(),
            answer,
        ),
        ClickModel::Changing { target, parents, changes, prevented } => after_changes(
            page,
            target,
            parents,
            changes,
            prevented,
        ),
        ClickModel::Focused { target, prevented } => match nearest_sought(
            page.nodes,
            target,
            Sought::SubmitButton,
        ) {
            Some(button) => match nearest_sought(page.nodes, button, Sought::Form) {
                Some(form) => (
                    ClickModel::Submitting { target, form, button, prevented },
                    ActionModel::Run(submit_code(form)),
                ),
                None => after_forms(page, target, prevented),
            },
            None => after_forms(page, target, prevented),
        },
        ClickModel::Submitting { target, form, button, prevented } => if answer {
            after_forms(page, target, prevented)
        } else {
            match submitted(page, form, button) {
                Ok(navigation) => (
                    ClickModel::Submitted { target, prevented },
                    ActionModel::Submit(navigation),
                ),
                Err(error) => (
                    ClickModel::Finished,
                    ActionModel::Fail(ClickError::Form(error)),
                ),
            }
        },
        ClickModel::Submitted { target, prevented } => after_forms(page, target, prevented),
        ClickModel::Finished => (ClickModel::Finished, ActionModel::Stop),
    }
}

pub open spec fn page_model(nodes: NodesTable, dom: DomIndexes, url: Seq<char>) -> PageModel {
    PageModel { nodes: nodes@, children: dom.children_index@, ids: dom.id_elements@, url }
}

fn end_click(nodes: &NodesTable, dom: &DomIndexes, url: &str, target: usize, prevented: bool) -> (r: (
    ClickState,
    ClickAction,
))
    requires
        acyclic(nodes@),
    ensures
        (r.0@, r.1@) == after_forms(page_model(*nodes, *dom, url@), target, prevented),
{
    let link: usize = match find_nearest(nodes, target, Sought::Link) {
        Some(link) => link,
        None => {
            return (ClickState::Finished, ClickAction::Stop);
        },
    };
    let href = match nodes.get(link) {
        Some(Node::Element(element)) => element.attributes.get_str("href"),
        _ => None,
    };
    match href {
        Some(href) => {
            if prevented {
                (ClickState::Finished, ClickAction::Stop)
            } else {
                match join_url(url, href.as_str()) {
                    Some(url) => (ClickState::Finished, ClickAction::OpenLink(url)),
                    None => (ClickState::Finished, ClickAction::Fail(ClickError::InvalidLink)),
                }
            }
        },
        None => (ClickState::Finished, ClickAction::Stop),
    }
}

fn changed_nodes(nodes: &NodesTable, dom: &DomIndexes, idx: usize) -> (r: Vec<usize>)
    ensures
        r@ == implied_changes(nodes@, dom.id_elements@, idx),
{
    let events = get_implicit_click_events(nodes, dom, idx);
    let ghost changes = implied_changes(nodes@, dom.id_elements@, idx);
    let mut list: Vec<usize> = Vec::new();
    let mut at: usize = 0;
    while at < events.len()
        invariant
            at <= events@.len(),
            events@.len() == changes.len(),
            forall|i: int| 0 <= i < events@.len() ==> (#[trigger] events@[i]).0 == changes[i],
            list@ =~= changes.take(at as int),
        decreases events@.len() - at,
    {
        list.push(events[at].0);
        at = at + 1;
    }
    assert(changes.take(changes.len() as int) =~= changes);
    list
}

fn tell_changes(
    nodes: &NodesTable,
    dom: &DomIndexes,
    url: &str,
    target: usize,
    parents: Vec<usize>,
    changes: Vec<usize>,
    prevented: bool,
) -> (r: (ClickState, ClickAction))
    requires
        acyclic(nodes@),
    ensures
        (r.0@, r.1@) == after_changes(
            page_model(*nodes, *dom, url@),
            target,
            parents@,
            changes@,
            prevented,
        ),
    decreases parents@.len(),
{
    let mut parents = parents;
    let mut changes = changes;
    let ghost page = page_model(*nodes, *dom, url@);
    if changes.len() > 0 {
        let ghost all = changes@;
        let idx: usize = changes.remove(0);
        assert(changes@ =~= all.drop_first());
        return (
            ClickState::Changing { target, parents, changes, prevented },
            ClickAction::Run(get_change_code(idx)),
        );
    }
    if parents.len() > 0 {
        let ghost all = parents@;
        let parent: usize = parents.remove(0);
        assert(parents@ =~= all.drop_first());
        let more = changed_nodes(nodes, dom, parent);
        return tell_changes(nodes, dom, url, target, parents, more, prevented);
    }
    let focus = find_nearest(nodes, target, Sought::Focusable);
    (ClickState::Focused { target, prevented }, ClickAction::SetFocus(focus))
}

/// The next step of a click. `answer` is what the code that was run said, where the last action was
/// to run some.
pub fn on_click(
    state: ClickState,
    answer: bool,
    nodes: &NodesTable,
    dom: &DomIndexes,
    url: &str,
) -> (r: (ClickState, ClickAction))
    requires
        acyclic(nodes@),
        tree_like(dom.children_index@),
    ensures
        (r.0@, r.1@) == clicked(state@, answer, page_model(*nodes, *dom, url@)),
{
    match state {
        ClickState::Pressed(hovering) => {
            let target: usize = match hovering {
                Some(target) => target,
                None => {
                    return (ClickState::Finished, ClickAction::ClearFocus);
                },
            };
            let frame = match nodes.get(target) {
                Some(node) => node.is_element("iframe"),
                None => false,
            };
            if frame {
                return (ClickState::Finished, ClickAction::Forward(target));
            }
            let parents = get_parents(nodes, target);
            let code = get_click_code(target, &parents);
            (ClickState::Clicked { target, parents }, ClickAction::Run(code))
        },
        ClickState::Clicked { target, parents } => {
            let none: Vec<usize> = Vec::new();
            assert(none@ =~= Seq::empty());
            tell_changes(nodes, dom, url, target, parents, none, answer)
        },
        ClickState::Changing { target, parents, changes, prevented } => tell_changes(
            nodes,
            dom,
            url,
            target,
            parents,
            changes,
            prevented,
        ),
        ClickState::Focused { target, prevented } => {
            match find_nearest(nodes, target, Sought::SubmitButton) {
                Some(button) => match find_nearest(nodes, button, Sought::Form) {
                    Some(form) => (
                        ClickState::Submitting { target, form, button, prevented },
                        ClickAction::Run(get_submit_code(form)),
                    ),
                    None => end_click(nodes, dom, url, target, prevented),
                },
                None => end_click(nodes, dom, url, target, prevented),
            }
        },
        ClickState::Submitting { target, form, button, prevented } => {
            if answer {
                return end_click(nodes, dom, url, target, prevented);
            }
            match submit_form(nodes, &dom.children_index, url, form, Some(button)) {
                Ok(navigation) => (
                    ClickState::Submitted { target, prevented },
                    ClickAction::Submit(navigation),
                ),
                Err(error) => (ClickState::Finished, ClickAction::Fail(ClickError::Form(error))),
            }
        },
        ClickState::Submitted { target, prevented } => end_click(
            nodes,
            dom,
            url,
            target,
            prevented,
        ),
        ClickState::Finished => (ClickState::Finished, ClickAction::Stop),
    }
}

/// Whether the page's own code prevented the click of a state.
pub open spec fn is_prevented(state: ClickModel) -> bool {
    match state {
        ClickModel::Changing { target, parents, changes, prevented } => prevented,
        ClickModel::Focused { target, prevented } => prevented,
        ClickModel::Submitting { target, form, button, prevented } => prevented,
        ClickModel::Submitted { target, prevented } => prevented,
        _ => false,
    }
}

/// A click that the page prevented opens no link, whatever the page has become in between, and it
/// stays prevented until it ends.
pub proof fn lemma_prevented_click_opens_nothing(state: ClickModel, answer: bool, page: PageModel)
    requires
        is_prevented(state) || (state is Clicked && answer),
    ensures
        !(clicked(state, answer, page).1 is OpenLink),
        is_prevented(clicked(state, answer, page).0) || clicked(state, answer, page).0 is Finished,
{
}

/// How many kinds of steps may still follow.
pub open spec fn steps_left(state: ClickModel) -> nat {
    match state {
        ClickModel::Pressed(_) => 6,
        ClickModel::Clicked { target, parents } => 5,
        ClickModel::Changing { target, parents, changes, prevented } => 4,
        ClickModel::Focused { target, prevented } => 3,
        ClickModel::Submitting { target, form, button, prevented } => 2,
        ClickModel::Submitted { target, prevented } => 1,
        ClickModel::Finished => 0,
    }
}

/// A click ends: every step comes nearer to the end, or it has fewer nodes to look at, or as many and
/// fewer changes to tell.
pub proof fn lemma_click_comes_to_an_end(state: ClickModel, answer: bool, page: PageModel)
    requires
        !(state is Finished),
    ensures
        ({
            let next = clicked(state, answer, page).0;
            ||| steps_left(next) < steps_left(state)
            ||| match (state, next) {
                (
                    ClickModel::Changing { parents, changes, .. },
                    ClickModel::Changing { parents: fewer, changes: left, .. },
                ) => fewer.len() < parents.len() || (fewer == parents && left.len()
                    < changes.len()),
                _ => false,
            }
        }),
{
    if let ClickModel::Changing { target, parents, changes, prevented } = state {
        lemma_next_change(page, parents, changes);
    }
}

proof fn lemma_next_change(page: PageModel, parents: Seq<usize>, changes: Seq<usize>)
    ensures
        next_change(page, parents, changes) matches Some((_, fewer, left)) ==> fewer.len()
            < parents.len() || (fewer == parents && left.len() < changes.len()),
    decreases parents.len(),
{
    if changes.len() == 0 && parents.len() > 0 {
        lemma_next_change(
            page,
            parents.drop_first(),
            implied_changes(page.nodes, page.ids, parents[0]),
        );
    }
}

} // verus!
