//! Forms: which controls take part, what they send, and where.
use vstd::prelude::*;

use crate::dom::lookup;
use crate::dom::node_at;
use crate::dom::with_value;
use crate::dom::Attributes;
use crate::dom::AttributesModel;
use crate::dom::Element;
use crate::dom::Node;
use crate::dom::NodeModel;
use crate::dom::NodesModel;
use crate::dom::NodesTable;
use crate::subtree::depth_of;
use crate::subtree::lemma_child_is_lower;
use crate::subtree::tree_like;
use crate::text::ascii_lower;
use crate::text::same_text;
use crate::text::to_ascii_lowercase;
use crate::tree::children_at;
use crate::tree::ChildrenIndex;
use crate::tree::ChildrenModel;
use crate::urls::append_pairs;
use crate::urls::can_add_pairs;
use crate::urls::encode_pairs;
use crate::urls::form_encoded;
use crate::urls::measure_url;
use crate::urls::optional_view;
use crate::urls::pairs_fit;
use crate::urls::pairs_view;
use crate::urls::parse_url;
use crate::urls::parsed_url;
use crate::urls::resolve_url;
use crate::urls::resolved_url;
use crate::urls::url_ends;
use crate::urls::url_with_pairs;

verus! {

/// Whether two texts are the same but for the case of ASCII letters.
pub open spec fn same_ignoring_case(a: Seq<char>, b: Seq<char>) -> bool {
    ascii_lower(a) == ascii_lower(b)
}

pub fn eq_ignore_ascii_case(a: &str, b: &str) -> (r: bool)
    ensures
        r == same_ignoring_case(a@, b@),
{
    let a = to_ascii_lowercase(a);
    let b = to_ascii_lowercase(b);
    same_text(a.as_str(), b.as_str())
}

/// Whether the type of a control is `submit`.
pub open spec fn submits(attributes: AttributesModel) -> bool {
    lookup(attributes, "type"@) matches Some(kind) && same_ignoring_case(kind, "submit"@)
}

/// Whether an element is a button that submits its form.
pub open spec fn is_submitter(tag: Seq<char>, attributes: AttributesModel) -> bool {
    (tag == "input"@ || tag == "button"@) && submits(attributes)
}

/// Whether a control takes part when its form is sent: it is not disabled and has a name, and a
/// button takes part only where it was the one that was pressed.
pub open spec fn takes_part(
    tag: Seq<char>,
    attributes: AttributesModel,
    idx: usize,
    submitted_by: Option<usize>,
) -> bool {
    &&& lookup(attributes, "disabled"@) is None
    &&& lookup(attributes, "name"@) is Some
    &&& if tag == "textarea"@ {
        true
    } else if tag == "input"@ {
        submits(attributes) ==> submitted_by == Some(idx)
    } else {
        tag == "button"@ && submits(attributes) && submitted_by == Some(idx)
    }
}

/// Whether an element is a button that submits its form.
pub fn is_submit_button(element: &Element) -> (r: bool)
    ensures
        r == is_submitter(element.tag@, element.attributes@),
{
    if !same_text(element.tag.as_str(), "input") && !same_text(element.tag.as_str(), "button") {
        return false;
    }
    match element.attributes.get_str("type") {
        Some(kind) => eq_ignore_ascii_case(kind.as_str(), "submit"),
        None => false,
    }
}

/// Whether a control takes part when its form is sent.
pub fn is_supported_form_element(
    element: &Element,
    node_idx: usize,
    submitted_by: Option<usize>,
) -> (r: bool)
    ensures
        r == takes_part(element.tag@, element.attributes@, node_idx, submitted_by),
{
    proof {
        reveal_strlit("textarea");
        reveal_strlit("input");
        reveal_strlit("button");
    }
    if element.attributes.contains_key("disabled") || !element.attributes.contains_key("name") {
        return false;
    }
    if same_text(element.tag.as_str(), "textarea") {
        return true;
    }
    let pressed = match submitted_by {
        Some(idx) => idx == node_idx,
        None => false,
    };
    let submit = is_submit_button(element);
    if same_text(element.tag.as_str(), "input") {
        return !submit || pressed;
    }
    same_text(element.tag.as_str(), "button") && submit && pressed
}

/// The value of a control; an empty text where it has none.
pub open spec fn control_value(attributes: AttributesModel) -> Seq<char> {
    match lookup(attributes, "value"@) {
        Some(value) => value,
        None => Seq::empty(),
    }
}

pub fn form_control_value(element: &Element) -> (r: String)
    ensures
        r@ == control_value(element.attributes@),
{
    match element.attributes.get_str("value") {
        Some(value) => value.clone(),
        None => {
            let empty = String::new();
            assert(empty@ =~= Seq::empty());
            empty
        },
    }
}

/// The controls from a node down that take part, in document order.
pub open spec fn controls_below(
    nodes: NodesModel,
    children: ChildrenModel,
    idx: usize,
    submitted_by: Option<usize>,
) -> Seq<usize>
    decreases depth_of(children)(idx), 1int, 0nat,
    when tree_like(children)
{
    match node_at(nodes, idx) {
        None => Seq::empty(),
        Some(node) => {
            let own = match node {
                NodeModel::Element { tag, attributes, parent } => if takes_part(
                    tag,
                    attributes,
                    idx,
                    submitted_by,
                ) {
                    seq![idx]
                } else {
                    Seq::empty()
                },
                _ => Seq::empty(),
            };
            match children_at(children, idx) {
                Some(list) => own + controls_of_list(nodes, children, idx, list, submitted_by),
                None => own,
            }
        },
    }
}

pub open spec fn controls_of_list(
    nodes: NodesModel,
    children: ChildrenModel,
    parent: usize,
    list: Seq<usize>,
    submitted_by: Option<usize>,
) -> Seq<usize>
    decreases depth_of(children)(parent), 0int, list.len(),
    when tree_like(children)
{
    if list.len() == 0 {
        Seq::empty()
    } else {
        controls_of_list(nodes, children, parent, list.drop_last(), submitted_by) + (if depth_of(
            children,
        )(list.last()) < depth_of(children)(parent) {
            controls_below(nodes, children, list.last(), submitted_by)
        } else {
            Seq::empty()
        })
    }
}

fn submit_form_walk(
    inputs: &mut Vec<usize>,
    nodes: &NodesTable,
    index: &ChildrenIndex,
    node_idx: usize,
    submitted_by: Option<usize>,
)
    requires
        tree_like(index@),
    ensures
        final(inputs)@ == old(inputs)@ + controls_below(nodes@, index@, node_idx, submitted_by),
    decreases depth_of(index@)(node_idx), 1int,
{
    let ghost start = inputs@;
    assert(start + Seq::<usize>::empty() =~= start);
    let node = match nodes.get(node_idx) {
        Some(node) => node,
        None => {
            return ;
        },
    };
    match node {
        Node::Element(element) => {
            if is_supported_form_element(element, node_idx, submitted_by) {
                inputs.push(node_idx);
                assert(inputs@ =~= start + seq![node_idx]);
            }
        },
        _ => {},
    }
    let ghost own = inputs@;
    match index.get(node_idx) {
        Some(list) => {
            let mut at: usize = 0;
            assert(inputs@ =~= own + Seq::<usize>::empty());
            while at < list.len()
                invariant
                    at <= list@.len(),
                    tree_like(index@),
                    children_at(index@, node_idx) == Some(list@),
                    inputs@ == own + controls_of_list(
                        nodes@,
                        index@,
                        node_idx,
                        list@.take(at as int),
                        submitted_by,
                    ),
                decreases list@.len() - at,
            {
                let ghost before = controls_of_list(
                    nodes@,
                    index@,
                    node_idx,
                    list@.take(at as int),
                    submitted_by,
                );
                proof {
                    assert(list@.take(at + 1).drop_last() =~= list@.take(at as int));
                    lemma_child_is_lower(index@, node_idx, at as int);
                }
                submit_form_walk(inputs, nodes, index, list[at], submitted_by);
                assert(inputs@ =~= own + (before + controls_below(
                    nodes@,
                    index@,
                    list@[at as int],
                    submitted_by,
                )));
                at = at + 1;
            }
            assert(list@.take(list@.len() as int) =~= list@);
            assert(inputs@ =~= old(inputs)@ + controls_below(
                nodes@,
                index@,
                node_idx,
                submitted_by,
            ));
        },
        None => {},
    }
}

/// The controls of a form that take part, in document order.
pub fn collect_inputs_in_form(
    nodes: &NodesTable,
    index: &ChildrenIndex,
    form: usize,
    submitted_by: Option<usize>,
) -> (r: Vec<usize>)
    requires
        tree_like(index@),
    ensures
        r@ == controls_below(nodes@, index@, form, submitted_by),
{
    let mut inputs: Vec<usize> = Vec::new();
    submit_form_walk(&mut inputs, nodes, index, form, submitted_by);
    assert(inputs@ =~= controls_below(nodes@, index@, form, submitted_by));
    inputs
}

/// The names and values of the listed controls; what is no element or has no name is left out.
pub open spec fn entries_of(nodes: NodesModel, list: Seq<usize>) -> Seq<(Seq<char>, Seq<char>)>
    decreases list.len(),
{
    if list.len() == 0 {
        Seq::empty()
    } else {
        let before = entries_of(nodes, list.drop_last());
        match node_at(nodes, list.last()) {
            Some(NodeModel::Element { tag, attributes, parent }) => match lookup(
                attributes,
                "name"@,
            ) {
                Some(name) => before.push((name, control_value(attributes))),
                None => before,
            },
            _ => before,
        }
    }
}

fn collect_entries(nodes: &NodesTable, list: &Vec<usize>) -> (r: Vec<(String, String)>)
    ensures
        pairs_view(r@) == entries_of(nodes@, list@),
{
    let mut entries: Vec<(String, String)> = Vec::new();
    let mut at: usize = 0;
    assert(pairs_view(entries@) =~= Seq::empty());
    while at < list.len()
        invariant
            at <= list@.len(),
            pairs_view(entries@) == entries_of(nodes@, list@.take(at as int)),
        decreases list@.len() - at,
    {
        let ghost before = pairs_view(entries@);
        assert(list@.take(at + 1).drop_last() =~= list@.take(at as int));
        match nodes.get(list[at]) {
            Some(Node::Element(element)) => match element.attributes.get_str("name") {
                Some(name) => {
                    let value = form_control_value(element);
                    entries.push((name.clone(), value));
                    assert(pairs_view(entries@) =~= before.push((name@, value@)));
                },
                None => {},
            },
            _ => {},
        }
        at = at + 1;
    }
    assert(list@.take(list@.len() as int) =~= list@);
    entries
}

#[derive(Debug, Clone, Copy, PartialEq, Eq, Structural)]
pub enum FormMethod {
    Get,
    Post,
}

/// Where a form leads: an address, how it is asked for, and what is sent along.
#[derive(Debug, PartialEq)]
pub struct FormNavigation {
    pub url: String,
    pub method: FormMethod,
    pub body: Option<String>,
}

/// What a [`FormNavigation`] holds.
pub struct NavigationModel {
    pub url: Seq<char>,
    pub method: FormMethod,
    pub body: Option<Seq<char>>,
}

impl View for FormNavigation {
    type V = NavigationModel;

    open spec fn view(&self) -> NavigationModel {
        NavigationModel { url: self.url@, method: self.method, body: optional_view(self.body) }
    }
}

#[derive(Debug, Clone, Copy, PartialEq, Eq, Structural)]
pub enum FormError {
    /// There is no such form.
    NoForm,
    /// The address of the page cannot be read.
    InvalidBase,
    /// The address that the form names cannot be read.
    InvalidAction,
    /// The address is so long that its parts cannot be counted.
    TooLong,
}

pub open spec fn form_method(method: Option<Seq<char>>) -> FormMethod {
    match method {
        Some(method) => if same_ignoring_case(method, "post"@) {
            FormMethod::Post
        } else {
            FormMethod::Get
        },
        None => FormMethod::Get,
    }
}

/// Where a form leads, for the address that its action names. Sent with the address, the entries
/// become its query; else they are the body.
pub open spec fn navigation_to(
    target: Seq<char>,
    method: FormMethod,
    entries: Seq<(Seq<char>, Seq<char>)>,
) -> Result<NavigationModel, FormError> {
    match method {
        FormMethod::Post => Ok(
            NavigationModel { url: target, method, body: Some(form_encoded(entries)) },
        ),
        FormMethod::Get => match url_ends(target) {
            None => Err(FormError::InvalidAction),
            Some(ends) => if !can_add_pairs(ends, entries) {
                Err(FormError::TooLong)
            } else {
                match url_with_pairs(target, entries) {
                    Some(url) => Ok(NavigationModel { url, method, body: None }),
                    None => Err(FormError::InvalidAction),
                }
            },
        },
    }
}

/// Where a form leads. Without an action it leads to the page itself.
pub open spec fn form_navigation(
    current: Seq<char>,
    action: Option<Seq<char>>,
    method: Option<Seq<char>>,
    entries: Seq<(Seq<char>, Seq<char>)>,
) -> Result<NavigationModel, FormError> {
    match parsed_url(current) {
        None => Err(FormError::InvalidBase),
        Some(base) => {
            let action = match action {
                Some(action) => action,
                None => current,
            };
            match resolved_url(action, Some(base)) {
                None => Err(FormError::InvalidAction),
                Some(target) => navigation_to(target, form_method(method), entries),
            }
        },
    }
}

pub open spec fn same_navigation(
    r: Result<FormNavigation, FormError>,
    model: Result<NavigationModel, FormError>,
) -> bool {
    match (r, model) {
        (Ok(navigation), Ok(model)) => navigation@ == model,
        (Err(error), Err(model)) => error == model,
        _ => false,
    }
}

/// The entries as the body of a form.
pub fn serialize_form_entries(entries: &Vec<(String, String)>) -> (r: String)
    ensures
        r@ == form_encoded(pairs_view(entries@)),
{
    encode_pairs(entries)
}

/// Where a form leads, for the address that its action names.
pub fn navigate_to(target: String, method: FormMethod, entries: &Vec<(String, String)>) -> (r: Result<
    FormNavigation,
    FormError,
>)
    ensures
        same_navigation(r, navigation_to(target@, method, pairs_view(entries@))),
{
    match method {
        FormMethod::Post => Ok(
            FormNavigation { url: target, method, body: Some(serialize_form_entries(entries)) },
        ),
        FormMethod::Get => {
            let ends = match measure_url(target.as_str()) {
                Some(ends) => ends,
                None => {
                    return Err(FormError::InvalidAction);
                },
            };
            if !pairs_fit(ends, entries) {
                return Err(FormError::TooLong);
            }
            match append_pairs(target.as_str(), entries) {
                Some(url) => Ok(FormNavigation { url, method, body: None }),
                None => Err(FormError::InvalidAction),
            }
        },
    }
}

/// How a form is sent: with its body where the method says so in any case, else with its address.
pub fn parse_form_method(method: Option<&str>) -> (r: FormMethod)
    ensures
        r == form_method(
            match method {
                Some(method) => Some(method@),
                None => None,
            },
        ),
{
    match method {
        Some(method) => if eq_ignore_ascii_case(method, "post") {
            FormMethod::Post
        } else {
            FormMethod::Get
        },
        None => FormMethod::Get,
    }
}

/// Where a form leads.
pub fn build_form_navigation(
    current_url: &str,
    action: Option<&str>,
    method: Option<&str>,
    entries: &Vec<(String, String)>,
) -> (r: Result<FormNavigation, FormError>)
    ensures
        same_navigation(
            r,
            form_navigation(
                current_url@,
                match action {
                    Some(action) => Some(action@),
                    None => None,
                },
                match method {
                    Some(method) => Some(method@),
                    None => None,
                },
                pairs_view(entries@),
            ),
        ),
{
    let base = match parse_url(current_url) {
        Some(base) => base,
        None => {
            return Err(FormError::InvalidBase);
        },
    };
    let action: &str = match action {
        Some(action) => action,
        None => current_url,
    };
    match resolve_url(action, Some(base.as_str())) {
        None => Err(FormError::InvalidAction),
        Some(target) => navigate_to(target, parse_form_method(method), entries),
    }
}

/// Where the form at a node leads when it is sent.
pub fn submit_form(
    nodes: &NodesTable,
    index: &ChildrenIndex,
    current_url: &str,
    form: usize,
    submitted_by: Option<usize>,
) -> (r: Result<FormNavigation, FormError>)
    requires
        tree_like(index@),
    ensures
        same_navigation(
            r,
            match node_at(nodes@, form) {
                Some(NodeModel::Element { tag, attributes, parent }) => form_navigation(
                    current_url@,
                    lookup(attributes, "action"@),
                    lookup(attributes, "method"@),
                    entries_of(nodes@, controls_below(nodes@, index@, form, submitted_by)),
                ),
                _ => Err(FormError::NoForm),
            },
        ),
{
    let element = match nodes.get(form) {
        Some(Node::Element(element)) => element,
        _ => {
            return Err(FormError::NoForm);
        },
    };
    let action: Option<&str> = match element.attributes.get_str("action") {
        Some(action) => Some(action.as_str()),
        None => None,
    };
    let method: Option<&str> = match element.attributes.get_str("method") {
        Some(method) => Some(method.as_str()),
        None => None,
    };
    let inputs = collect_inputs_in_form(nodes, index, form, submitted_by);
    let entries = collect_entries(nodes, &inputs);
    build_form_navigation(current_url, action, method, &entries)
}

/// Entries by their names: of several with one name the last counts.
pub open spec fn data_of(entries: Seq<(Seq<char>, Seq<char>)>) -> AttributesModel
    decreases entries.len(),
{
    if entries.len() == 0 {
        Seq::empty()
    } else {
        with_value(data_of(entries.drop_last()), entries.last().0, entries.last().1)
    }
}

/// What the controls of a form hold, by their names.
pub fn collect_data_for_form(nodes: &NodesTable, index: &ChildrenIndex, form: usize) -> (r: Attributes)
    requires
        tree_like(index@),
    ensures
        r@ == data_of(entries_of(nodes@, controls_below(nodes@, index@, form, None))),
{
    let inputs = collect_inputs_in_form(nodes, index, form, None);
    let entries = collect_entries(nodes, &inputs);
    let ghost models = pairs_view(entries@);
    let mut data = Attributes::new();
    let mut at: usize = 0;
    while at < entries.len()
        invariant
            at <= entries@.len(),
            models == pairs_view(entries@),
            data@ == data_of(models.take(at as int)),
        decreases entries@.len() - at,
    {
        assert(models.take(at + 1).drop_last() =~= models.take(at as int));
        data.insert(entries[at].0.clone(), entries[at].1.clone());
        at = at + 1;
    }
    assert(models.take(models.len() as int) =~= models);
    data
}

} // verus!
