//! Scripts of a document: which elements hold one, in which order they run, and which have run.
use vstd::prelude::*;

use crate::dom::lookup;
use crate::dom::node_at;
use crate::dom::AttributesModel;
use crate::dom::Node;
use crate::dom::NodeModel;
use crate::dom::NodesModel;
use crate::dom::NodesTable;
use crate::elements::is_listed;
use crate::order::arranged;
use crate::order::stable_order;
use crate::order::stable_positions;
use crate::text::ascii_lower;
use crate::text::contains_text;
use crate::text::is_among;
use crate::text::pieces;
use crate::text::same_text;
use crate::text::split;
use crate::text::texts_of;
use crate::text::to_ascii_lowercase;
use crate::text::trim;
use crate::text::trimmed;
use crate::tree::acyclic;
use crate::tree::children_at;
use crate::tree::lineage;
use crate::tree::node_is_connected;
use crate::tree::ChildrenIndex;
use crate::tree::ChildrenModel;

verus! {

#[derive(Debug, Clone, PartialEq)]
pub enum ScriptContent {
    /// Where the script is to be fetched.
    Link(String),
    /// The script itself.
    Code(String),
}

#[derive(Debug, Clone, Copy, PartialEq, Eq, Structural)]
pub enum ScriptType {
    Classic,
    Module,
}

#[derive(Debug, Clone, PartialEq)]
pub struct Script {
    pub content: ScriptContent,
    pub script_type: ScriptType,
    pub node_idx: Option<usize>,
    pub defer: bool,
    pub is_async: bool,
}

/// What a [`ScriptContent`] holds.
pub enum ContentModel {
    Link(Seq<char>),
    Code(Seq<char>),
}

/// What a [`Script`] holds.
pub struct ScriptModel {
    pub content: ContentModel,
    pub script_type: ScriptType,
    pub node_idx: Option<usize>,
    pub defer: bool,
    pub is_async: bool,
}

impl View for Script {
    type V = ScriptModel;

    open spec fn view(&self) -> ScriptModel {
        ScriptModel {
            content: match self.content {
                ScriptContent::Link(link) => ContentModel::Link(link@),
                ScriptContent::Code(code) => ContentModel::Code(code@),
            },
            script_type: self.script_type,
            node_idx: self.node_idx,
            defer: self.defer,
            is_async: self.is_async,
        }
    }
}

pub open spec fn script_models(scripts: Seq<Script>) -> Seq<ScriptModel> {
    Seq::new(scripts.len(), |i: int| scripts[i]@)
}

impl Script {
    /// A copy that holds the same script.
    pub fn copy(&self) -> (r: Script)
        ensures
            r@ == self@,
    {
        let content = match &self.content {
            ScriptContent::Link(link) => ScriptContent::Link(link.clone()),
            ScriptContent::Code(code) => ScriptContent::Code(code.clone()),
        };
        Script {
            content,
            script_type: self.script_type,
            node_idx: self.node_idx,
            defer: self.defer,
            is_async: self.is_async,
        }
    }
}

/// The kind of script that a type names; nothing where it names none. Only what follows the last
/// hyphen counts, without regard to case and white space around it.
pub open spec fn script_kind(value: Seq<char>) -> Option<ScriptType> {
    let name = pieces(ascii_lower(trimmed(value)), '-').last();
    if name == ""@ || name == "text/javascript"@ || name == "application/javascript"@ || name
        == "text/ecmascript"@ || name == "application/ecmascript"@ {
        Some(ScriptType::Classic)
    } else if name == "module"@ {
        Some(ScriptType::Module)
    } else {
        None
    }
}

/// The kind of script that the type attribute names. A script without one is classic.
pub fn parse_script_type_attr(value: Option<&str>) -> (r: Option<ScriptType>)
    ensures
        r == script_kind(
            match value {
                Some(value) => value@,
                None => ""@,
            },
        ),
{
    let text: &str = match value {
        Some(value) => value,
        None => "",
    };
    let text = trim(text);
    let text = to_ascii_lowercase(text.as_str());
    let list = split(text.as_str(), '-');
    assert(texts_of(list@).len() > 0);
    let name: &str = list[list.len() - 1].as_str();
    assert(name@ == texts_of(list@).last());
    if same_text(name, "") || same_text(name, "text/javascript") || same_text(
        name,
        "application/javascript",
    ) || same_text(name, "text/ecmascript") || same_text(name, "application/ecmascript") {
        Some(ScriptType::Classic)
    } else if same_text(name, "module") {
        Some(ScriptType::Module)
    } else {
        None
    }
}

/// The code of a script element: the text of its only child, where that is a text.
pub open spec fn script_code(nodes: NodesModel, children: ChildrenModel, idx: usize) -> Option<
    Seq<char>,
> {
    match children_at(children, idx) {
        Some(list) => if list.len() == 1 {
            match node_at(nodes, list[0]) {
                Some(NodeModel::Text { text, parent }) => Some(text),
                _ => None,
            }
        } else {
            None
        },
        None => None,
    }
}

/// The script of an element that is connected to the root. One with a source is a link, and only
/// then can it be asynchronous or deferred; to be asynchronous wins.
pub open spec fn script_of(
    nodes: NodesModel,
    children: ChildrenModel,
    root: usize,
    idx: usize,
) -> Option<ScriptModel> {
    match node_at(nodes, idx) {
        Some(NodeModel::Element { tag, attributes, parent }) => if tag == "script"@ && lineage(
            nodes,
            idx,
        ).contains(root) {
            match script_kind(attribute_or_empty(attributes, "type"@)) {
                None => None,
                Some(script_type) => match lookup(attributes, "src"@) {
                    Some(src) => {
                        let is_async = lookup(attributes, "async"@) is Some;
                        Some(
                            ScriptModel {
                                content: ContentModel::Link(src),
                                script_type,
                                node_idx: Some(idx),
                                defer: !is_async && lookup(attributes, "defer"@) is Some,
                                is_async,
                            },
                        )
                    },
                    None => match script_code(nodes, children, idx) {
                        Some(code) => Some(
                            ScriptModel {
                                content: ContentModel::Code(code),
                                script_type,
                                node_idx: Some(idx),
                                defer: false,
                                is_async: false,
                            },
                        ),
                        None => None,
                    },
                },
            }
        } else {
            None
        },
        _ => None,
    }
}

pub open spec fn attribute_or_empty(attributes: AttributesModel, name: Seq<char>) -> Seq<char> {
    match lookup(attributes, name) {
        Some(value) => value,
        None => ""@,
    }
}

/// The script of an element; nothing for a node that holds none.
pub fn extract_script_from_idx(
    nodes: &NodesTable,
    index: &ChildrenIndex,
    root: usize,
    idx: usize,
) -> (r: Option<Script>)
    requires
        acyclic(nodes@),
    ensures
        match (r, script_of(nodes@, index@, root, idx)) {
            (Some(script), Some(model)) => script@ == model,
            (None, None) => true,
            _ => false,
        },
{
    let element = match nodes.get(idx) {
        Some(Node::Element(element)) => element,
        _ => {
            return None;
        },
    };
    if !same_text(element.tag.as_str(), "script") || !node_is_connected(nodes, idx, root) {
        return None;
    }
    let value: Option<&str> = match element.attributes.get_str("type") {
        Some(value) => Some(value.as_str()),
        None => None,
    };
    let script_type = match parse_script_type_attr(value) {
        Some(script_type) => script_type,
        None => {
            return None;
        },
    };
    match element.attributes.get_str("src") {
        Some(src) => {
            let is_async = element.attributes.contains_key("async");
            let defer = !is_async && element.attributes.contains_key("defer");
            return Some(
                Script {
                    content: ScriptContent::Link(src.clone()),
                    script_type,
                    node_idx: Some(idx),
                    defer,
                    is_async,
                },
            );
        },
        None => {},
    }
    let list = match index.get(idx) {
        Some(list) => list,
        None => {
            return None;
        },
    };
    if list.len() != 1 {
        return None;
    }
    match nodes.get(list[0]) {
        Some(Node::Text(text)) => Some(
            Script {
                content: ScriptContent::Code(text.text.clone()),
                script_type,
                node_idx: Some(idx),
                defer: false,
                is_async: false,
            },
        ),
        _ => None,
    }
}

/// The scripts of the listed nodes, in the order of the list.
pub open spec fn scripts_of(
    nodes: NodesModel,
    children: ChildrenModel,
    root: usize,
    idxs: Seq<usize>,
) -> Seq<ScriptModel>
    decreases idxs.len(),
{
    if idxs.len() == 0 {
        Seq::empty()
    } else {
        let before = scripts_of(nodes, children, root, idxs.drop_last());
        match script_of(nodes, children, root, idxs.last()) {
            Some(script) => before.push(script),
            None => before,
        }
    }
}

/// By what scripts are ordered: deferred ones come last; of the others, asynchronous ones; of
/// those that agree in both, modules.
pub open spec fn script_key(script: ScriptModel) -> i128 {
    let defer: i128 = if script.defer {
        4
    } else {
        0
    };
    let is_async: i128 = if script.is_async {
        2
    } else {
        0
    };
    let module: i128 = if script.script_type == ScriptType::Module {
        1
    } else {
        0
    };
    (defer + is_async + module) as i128
}

pub open spec fn script_keys(scripts: Seq<ScriptModel>) -> Seq<i128> {
    Seq::new(scripts.len(), |i: int| script_key(scripts[i]))
}

/// The scripts in the order in which they run.
pub open spec fn in_running_order(scripts: Seq<ScriptModel>) -> Seq<ScriptModel> {
    arranged(scripts, stable_positions(script_keys(scripts)))
}

fn key_of(script: &Script) -> (r: i128)
    ensures
        r == script_key(script@),
{
    let defer: i128 = if script.defer {
        4
    } else {
        0
    };
    let is_async: i128 = if script.is_async {
        2
    } else {
        0
    };
    let module: i128 = match script.script_type {
        ScriptType::Module => 1,
        ScriptType::Classic => 0,
    };
    defer + is_async + module
}

/// The scripts in the order in which they run.
pub fn sort_scripts(scripts: &Vec<Script>) -> (r: Vec<Script>)
    ensures
        script_models(r@) == in_running_order(script_models(scripts@)),
{
    let ghost models = script_models(scripts@);
    let mut keys: Vec<i128> = Vec::new();
    let mut at: usize = 0;
    while at < scripts.len()
        invariant
            at <= scripts@.len(),
            models == script_models(scripts@),
            keys@ =~= script_keys(models).take(at as int),
        decreases scripts@.len() - at,
    {
        keys.push(key_of(&scripts[at]));
        at = at + 1;
    }
    assert(keys@ =~= script_keys(models));
    let order = stable_order(&keys);
    let mut sorted: Vec<Script> = Vec::new();
    let mut next: usize = 0;
    while next < order.len()
        invariant
            next <= order@.len(),
            models == script_models(scripts@),
            forall|i: int| 0 <= i < order@.len() ==> (#[trigger] order@[i]) < scripts@.len(),
            script_models(sorted@) =~= arranged(models, order@).take(next as int),
        decreases order@.len() - next,
    {
        let ghost before = script_models(sorted@);
        let copy = scripts[order[next]].copy();
        proof {
            assert(models[order@[next as int] as int] == copy@);
        }
        sorted.push(copy);
        assert(script_models(sorted@) =~= before.push(copy@));
        next = next + 1;
    }
    assert(arranged(models, order@).take(order@.len() as int) =~= arranged(models, order@));
    sorted
}

/// The scripts of a document in the order in which they run.
pub fn get_scripts(nodes: &NodesTable, idxs: &Vec<usize>, index: &ChildrenIndex, root: usize) -> (r:
    Vec<Script>)
    requires
        acyclic(nodes@),
    ensures
        script_models(r@) == in_running_order(scripts_of(nodes@, index@, root, idxs@)),
{
    let mut scripts: Vec<Script> = Vec::new();
    let mut at: usize = 0;
    assert(script_models(scripts@) =~= Seq::empty());
    while at < idxs.len()
        invariant
            at <= idxs@.len(),
            acyclic(nodes@),
            script_models(scripts@) == scripts_of(nodes@, index@, root, idxs@.take(at as int)),
        decreases idxs@.len() - at,
    {
        let ghost before = script_models(scripts@);
        assert(idxs@.take(at + 1).drop_last() =~= idxs@.take(at as int));
        match extract_script_from_idx(nodes, index, root, idxs[at]) {
            Some(script) => {
                scripts.push(script);
                assert(script_models(scripts@) =~= before.push(script@));
            },
            None => {},
        }
        at = at + 1;
    }
    assert(idxs@.take(idxs@.len() as int) =~= idxs@);
    sort_scripts(&scripts)
}

/// The scripts that have run: fetched ones by where they came from, others by their node.
#[derive(Debug)]
pub struct ExecutedScripts {
    pub links: Vec<String>,
    pub nodes: Vec<usize>,
}

/// What an [`ExecutedScripts`] holds.
pub struct ExecutedModel {
    pub links: Seq<Seq<char>>,
    pub nodes: Seq<usize>,
}

impl View for ExecutedScripts {
    type V = ExecutedModel;

    open spec fn view(&self) -> ExecutedModel {
        ExecutedModel { links: texts_of(self.links@), nodes: self.nodes@ }
    }
}

/// Whether a script has run.
pub open spec fn has_run(executed: ExecutedModel, script: ScriptModel) -> bool {
    match script.content {
        ContentModel::Link(link) => executed.links.contains(link),
        ContentModel::Code(_) => match script.node_idx {
            Some(idx) => executed.nodes.contains(idx),
            None => false,
        },
    }
}

/// The scripts that have run after this one too. Code without a node is not kept.
pub open spec fn after_run(executed: ExecutedModel, script: ScriptModel) -> ExecutedModel {
    if has_run(executed, script) {
        executed
    } else {
        match script.content {
            ContentModel::Link(link) => ExecutedModel {
                links: executed.links.push(link),
                nodes: executed.nodes,
            },
            ContentModel::Code(_) => match script.node_idx {
                Some(idx) => ExecutedModel {
                    links: executed.links,
                    nodes: executed.nodes.push(idx),
                },
                None => executed,
            },
        }
    }
}

impl ExecutedScripts {
    pub fn new() -> (r: ExecutedScripts)
        ensures
            r@ == (ExecutedModel { links: Seq::empty(), nodes: Seq::empty() }),
    {
        let r = ExecutedScripts { links: Vec::new(), nodes: Vec::new() };
        assert(r@.links =~= Seq::empty());
        assert(r@.nodes =~= Seq::empty());
        r
    }

    /// Keeps that a script runs. Gives whether it had not run before.
    pub fn upsert_script(&mut self, js: &Script) -> (r: bool)
        ensures
            r == !has_run(old(self)@, js@),
            final(self)@ == after_run(old(self)@, js@),
    {
        match &js.content {
            ScriptContent::Link(link) => {
                let known = contains_text(&self.links, link.as_str());
                proof {
                    let list = texts_of(self.links@);
                    if is_among(self.links@, link@) {
                        let k = choose|k: int|
                            0 <= k < self.links@.len() && (#[trigger] self.links@[k])@ == link@;
                        assert(list[k] == link@);
                    }
                    if list.contains(link@) {
                        let k = choose|k: int| 0 <= k < list.len() && list[k] == link@;
                        assert(self.links@[k]@ == link@);
                    }
                }
                if known {
                    false
                } else {
                    self.links.push(link.clone());
                    assert(texts_of(self.links@) =~= old(self)@.links.push(link@));
                    true
                }
            },
            ScriptContent::Code(_) => match js.node_idx {
                Some(node_idx) => if is_listed(&self.nodes, node_idx) {
                    false
                } else {
                    self.nodes.push(node_idx);
                    true
                },
                None => true,
            },
        }
    }
}

/// A script that can be told apart runs once: when it comes again, it has run.
pub proof fn lemma_script_runs_once(executed: ExecutedModel, script: ScriptModel)
    requires
        script.content is Link || script.node_idx is Some,
    ensures
        has_run(after_run(executed, script), script),
        after_run(after_run(executed, script), script) == after_run(executed, script),
{
    if !has_run(executed, script) {
        let after = after_run(executed, script);
        match script.content {
            ContentModel::Link(link) => {
                assert(after.links[after.links.len() - 1] == link);
            },
            ContentModel::Code(_) => {
                assert(after.nodes[after.nodes.len() - 1] == script.node_idx->0);
            },
        }
    }
}

/// The scripts that are still to run, each seen after those before it, and those that have run
/// afterwards.
pub open spec fn still_to_run(executed: ExecutedModel, scripts: Seq<ScriptModel>) -> (
    Seq<ScriptModel>,
    ExecutedModel,
)
    decreases scripts.len(),
{
    if scripts.len() == 0 {
        (Seq::empty(), executed)
    } else {
        let (list, before) = still_to_run(executed, scripts.drop_last());
        (
            if has_run(before, scripts.last()) {
                list
            } else {
                list.push(scripts.last())
            },
            after_run(before, scripts.last()),
        )
    }
}

/// The scripts of a document that are still to run, in the order in which they run.
pub fn scripts_to_run(
    nodes: &NodesTable,
    idxs: &Vec<usize>,
    index: &ChildrenIndex,
    root: usize,
    executed: &mut ExecutedScripts,
) -> (r: Vec<Script>)
    requires
        acyclic(nodes@),
    ensures
        (script_models(r@), final(executed)@) == still_to_run(
            old(executed)@,
            in_running_order(scripts_of(nodes@, index@, root, idxs@)),
        ),
{
    let all = get_scripts(nodes, idxs, index, root);
    let ghost models = script_models(all@);
    let ghost start = executed@;
    let mut list: Vec<Script> = Vec::new();
    let mut at: usize = 0;
    assert(script_models(list@) =~= Seq::empty());
    while at < all.len()
        invariant
            at <= all@.len(),
            models == script_models(all@),
            (script_models(list@), executed@) == still_to_run(start, models.take(at as int)),
        decreases all@.len() - at,
    {
        let ghost before = script_models(list@);
        proof {
            assert(models.take(at + 1).drop_last() =~= models.take(at as int));
            assert(models[at as int] == all@[at as int]@);
        }
        if executed.upsert_script(&all[at]) {
            let copy = all[at].copy();
            list.push(copy);
            assert(script_models(list@) =~= before.push(copy@));
        }
        at = at + 1;
    }
    assert(models.take(models.len() as int) =~= models);
    list
}

/// The code that a script element runs when it is put into the document: that of a classic script
/// without a source that has not run.
pub open spec fn run_on_insert(executed: ExecutedModel, script: Option<ScriptModel>) -> Option<
    Seq<char>,
> {
    match script {
        Some(script) => match script.content {
            ContentModel::Code(code) => if script.script_type == ScriptType::Classic && !has_run(
                executed,
                script,
            ) {
                Some(code)
            } else {
                None
            },
            ContentModel::Link(_) => None,
        },
        None => None,
    }
}

/// The code that an element runs when it is put into the document. What is given has run
/// afterwards.
pub fn script_on_insert(
    nodes: &NodesTable,
    index: &ChildrenIndex,
    root: usize,
    idx: usize,
    executed: &mut ExecutedScripts,
) -> (r: Option<String>)
    requires
        acyclic(nodes@),
    ensures
        crate::urls::optional_view(r) == run_on_insert(
            old(executed)@,
            script_of(nodes@, index@, root, idx),
        ),
        final(executed)@ == (match (r, script_of(nodes@, index@, root, idx)) {
            (Some(_), Some(script)) => after_run(old(executed)@, script),
            _ => old(executed)@,
        }),
{
    let script = match extract_script_from_idx(nodes, index, root, idx) {
        Some(script) => script,
        None => {
            return None;
        },
    };
    match script.script_type {
        ScriptType::Module => {
            return None;
        },
        ScriptType::Classic => {},
    }
    let code = match &script.content {
        ScriptContent::Link(_) => {
            return None;
        },
        ScriptContent::Code(code) => code.clone(),
    };
    if executed.upsert_script(&script) {
        Some(code)
    } else {
        None
    }
}

} // verus!
