//! What running scripts promises: in which order they run and that each runs once, who is told of a
//! change, and how names and modules are told apart.
use vstd::prelude::*;

use crate::custom_elements::attach_fault;
use crate::custom_elements::can_be_defined;
use crate::custom_elements::is_name_char;
use crate::custom_elements::root_below;
use crate::custom_elements::ShadowRoot;
use crate::dom::lookup;
use crate::dom::node_at;
use crate::dom::NodeModel;
use crate::dom::NodesModel;
use crate::labels::text_before;
use crate::loader::module_of;
use crate::loader::ModuleModel;
use crate::loader::RequestedModuleType;
use crate::observers::after_change;
use crate::observers::after_telling;
use crate::observers::completed;
use crate::observers::fault;
use crate::observers::interest;
use crate::observers::registered_at;
use crate::observers::told_at_node;
use crate::observers::told_of;
use crate::observers::with_registration;
use crate::observers::ObserversModel;
use crate::observers::OptionsModel;
use crate::observers::RecordModel;
use crate::observers::RegistrationModel;
use crate::order::lemma_stable_positions;
use crate::order::precedes;
use crate::order::stable_positions;
use crate::script_runs::script_run;
use crate::script_runs::told_after;
use crate::script_runs::RunModel;
use crate::scripts::after_run;
use crate::scripts::has_run;
use crate::scripts::in_running_order;
use crate::scripts::run_on_insert;
use crate::scripts::script_key;
use crate::scripts::script_keys;
use crate::scripts::script_of;
use crate::scripts::still_to_run;
use crate::scripts::ContentModel;
use crate::scripts::ExecutedModel;
use crate::scripts::ScriptModel;
use crate::shapes::collapsed;
use crate::text::ascii_lower;
use crate::text::ends;
use crate::text::words;
use crate::tree::children_at;
use crate::tree::lineage;
use crate::tree::ChildrenModel;

verus! {

/// Deferred scripts run last, and before them asynchronous ones; of those that agree in that, modules run
/// after the others. Scripts that agree in everything keep their order, and all of them run.
pub proof fn lemma_running_order(scripts: Seq<ScriptModel>, i: int, j: int, one: int)
    requires
        scripts.len() <= usize::MAX,
        0 <= i < j < scripts.len(),
        0 <= one < scripts.len(),
    ensures
        ({
            let order = in_running_order(scripts);
            let first = order[i];
            let second = order[j];
            &&& order.len() == scripts.len()
            &&& order.contains(scripts[one])
            &&& first.defer ==> second.defer
            &&& first.defer == second.defer && first.is_async ==> second.is_async
            &&& first.defer == second.defer && first.is_async == second.is_async && first.script_type
                is Module ==> second.script_type is Module
        }),
{
    let keys = script_keys(scripts);
    lemma_stable_positions(keys);
    let places = stable_positions(keys);
    let order = in_running_order(scripts);
    assert(precedes(keys, places[i], places[j]));
    assert(keys[places[i] as int] == script_key(order[i]));
    assert(keys[places[j] as int] == script_key(order[j]));
    assert(places.contains(one as usize));
    let k = choose|k: int| 0 <= k < places.len() && places[k] == one as usize;
    assert(order[k] == scripts[one]);
}

/// A script with a source is read from there, and is asynchronous or deferred as it says; one without is
/// its own text. What is not in the document is no script, nor is another element.
pub proof fn lemma_script_elements(
    nodes: NodesModel,
    children: ChildrenModel,
    root: usize,
    idx: usize,
)
    ensures
        script_of(nodes, children, root, idx) matches Some(script) ==> {
            &&& node_at(nodes, idx) matches Some(NodeModel::Element { tag, attributes, .. }) && {
                &&& tag == "script"@
                &&& lookup(attributes, "src"@) matches Some(src) ==> {
                    &&& script.content == ContentModel::Link(src)
                    &&& script.is_async == lookup(attributes, "async"@) is Some
                    &&& !(script.is_async && script.defer)
                    &&& lookup(attributes, "async"@) is None ==> script.defer == lookup(
                        attributes,
                        "defer"@,
                    ) is Some
                }
                &&& lookup(attributes, "src"@) is None ==> {
                    &&& !script.is_async && !script.defer
                    &&& children_at(children, idx) matches Some(list) && list.len() == 1 && (node_at(
                        nodes,
                        list[0],
                    ) matches Some(NodeModel::Text { text, .. }) && script.content
                        == ContentModel::Code(text))
                }
            }
            &&& script.node_idx == Some(idx)
            &&& lineage(nodes, idx).contains(root)
        },
{
}

/// Of several scripts those run that have not run, each once, and afterwards all of them have.
pub proof fn lemma_scripts_run_once(
    executed: ExecutedModel,
    scripts: Seq<ScriptModel>,
    script: ScriptModel,
)
    ensures
        ({
            let (list, after) = still_to_run(executed, scripts);
            &&& has_run(executed, script) ==> !list.contains(script) && has_run(after, script)
            &&& scripts.contains(script) && (script.content is Link || script.node_idx is Some)
                ==> has_run(after, script)
            &&& list.contains(script) ==> scripts.contains(script)
        }),
    decreases scripts.len(),
{
    if scripts.len() > 0 {
        let less = scripts.drop_last();
        let last = scripts.last();
        lemma_scripts_run_once(executed, less, script);
        let (before, between) = still_to_run(executed, less);
        let (list, after) = still_to_run(executed, scripts);
        lemma_running_keeps(between, last, script);
        assert(scripts[scripts.len() - 1] == last);
        if scripts.contains(script) {
            let i = choose|i: int| 0 <= i < scripts.len() && scripts[i] == script;
            if i < less.len() {
                assert(less[i] == script);
            }
        }
        if less.contains(script) {
            let i = choose|i: int| 0 <= i < less.len() && less[i] == script;
            assert(scripts[i] == script);
        }
        if list.contains(script) {
            let i = choose|i: int| 0 <= i < list.len() && list[i] == script;
            if i < before.len() {
                assert(before[i] == script);
            }
        }
    }
}

proof fn lemma_running_keeps(executed: ExecutedModel, script: ScriptModel, other: ScriptModel)
    ensures
        has_run(executed, other) ==> has_run(after_run(executed, script), other),
        script.content is Link || script.node_idx is Some ==> has_run(
            after_run(executed, script),
            script,
        ),
{
    let after = after_run(executed, script);
    if !has_run(executed, script) {
        match script.content {
            ContentModel::Link(link) => {
                assert(after.links[executed.links.len() as int] == link);
                if let ContentModel::Link(own) = other.content {
                    if executed.links.contains(own) {
                        let i = choose|i: int|
                            0 <= i < executed.links.len() && executed.links[i] == own;
                        assert(after.links[i] == own);
                    }
                }
            },
            ContentModel::Code(_) => {
                if let Some(idx) = script.node_idx {
                    assert(after.nodes[executed.nodes.len() as int] == idx);
                    if let Some(own) = other.node_idx {
                        if executed.nodes.contains(own) {
                            let i = choose|i: int|
                                0 <= i < executed.nodes.len() && executed.nodes[i] == own;
                            assert(after.nodes[i] == own);
                        }
                    }
                }
            },
        }
    }
}

/// A script that is put into the document runs at once only where it holds its own code, is no module and
/// has not run.
pub proof fn lemma_inserted_scripts(executed: ExecutedModel, script: ScriptModel, code: Seq<char>)
    ensures
        script.content is Link || script.script_type is Module || has_run(executed, script)
            ==> run_on_insert(executed, Some(script)) is None,
        script.content == ContentModel::Code(code) && script.script_type is Classic && !has_run(
            executed,
            script,
        ) ==> run_on_insert(executed, Some(script)) == Some(code),
        run_on_insert(executed, None) is None,
{
}

/// Code runs as it is. What cannot be found is not run, and nobody is told that it has loaded.
pub proof fn lemma_code_is_run(
    script: ScriptModel,
    page_url: Seq<char>,
    document_id: usize,
    code: Seq<char>,
)
    ensures
        script.content == ContentModel::Code(code) ==> (script_run(script, page_url, document_id)
            matches RunModel::Code { code: own, .. } && own == code),
        told_after(script, RunModel::Nothing) is None,
        told_after(script, RunModel::NoAddress) is None,
        script.node_idx is None ==> told_after(
            script,
            script_run(script, page_url, document_id),
        ) is None,
        script.content is Code && script.node_idx is Some ==> told_after(
            script,
            script_run(script, page_url, document_id),
        ) is Some,
{
}

/// Who observes is told of attributes only where it asks for them, of those that it lists if it lists
/// some, and of what happens below only where it asks for that. Old values are told only to those
/// who want them.
pub proof fn lemma_interest(options: OptionsModel, depth: int, record: RecordModel)
    ensures
        depth != 0 && !options.subtree ==> interest(options, depth, record) is None,
        record.kind is Attributes && options.attributes != Some(true) ==> interest(
            options,
            depth,
            record,
        ) is None,
        record.kind is CharacterData && options.character_data != Some(true) ==> interest(
            options,
            depth,
            record,
        ) is None,
        (record.kind is Attributes && (options.attribute_filter matches Some(filter) && (
        record.attribute_name matches Some(name) ==> !filter.contains(name)))) ==> interest(
            options,
            depth,
            record,
        ) is None,
        record.kind is Attributes && options.attributes == Some(true) && options.attribute_filter is None
            && (depth == 0 || options.subtree) ==> interest(options, depth, record) == Some(
            options.attribute_old_value == Some(true),
        ),
        record.kind is CharacterData && options.character_data == Some(true) && (depth == 0
            || options.subtree) ==> interest(options, depth, record) == Some(
            options.character_data_old_value == Some(true),
        ),
{
}

/// Who names attributes or asks for their old values wants to be told of them, unless it says otherwise,
/// which is an error then. Who asks for nothing is told so.
pub proof fn lemma_options(options: OptionsModel)
    ensures
        options.attributes is None && options.attribute_filter is Some ==> completed(
            options,
        ).attributes == Some(true),
        options.attributes == Some(false) && options.attribute_filter is Some ==> fault(options) is Some,
        options.attributes is None && options.attribute_filter is None && options.attribute_old_value
            is None && options.character_data is None && options.character_data_old_value is None
            && !options.child_list ==> fault(options) is Some,
        options.child_list && options.attributes is None && options.character_data is None ==> fault(
            options,
        ) is None,
        options.attributes == Some(true) && options.character_data != Some(false) ==> fault(options)
            is None,
        completed(options).child_list == options.child_list && completed(options).subtree
            == options.subtree,
{
}

/// An observer that asks about a target is put down for it once, with what it asked for last; what others
/// asked for stays.
pub proof fn lemma_registrations(
    list: Seq<RegistrationModel>,
    registration: RegistrationModel,
    target: Option<usize>,
    observer: usize,
)
    ensures
        ({
            let after = with_registration(list, registration);
            let at = registered_at(after, registration.target, registration.observer);
            &&& 0 <= at < after.len()
            &&& after[at] == registration
        }),
        0 <= registered_at(list, target, observer) <= list.len(),
        registered_at(list, target, observer) < list.len() ==> list[registered_at(
            list,
            target,
            observer,
        )].target == target && list[registered_at(list, target, observer)].observer == observer,
        registered_at(list, target, observer) == list.len() ==> forall|i: int|
            0 <= i < list.len() ==> !((#[trigger] list[i]).target == target && list[i].observer
                == observer),
{
    lemma_registered_at(list, target, observer);
    lemma_registered_at(list, registration.target, registration.observer);
    let after = with_registration(list, registration);
    lemma_registered_at(after, registration.target, registration.observer);
    let old = registered_at(list, registration.target, registration.observer);
    let at = registered_at(after, registration.target, registration.observer);
    assert(after[old] == registration);
    if at > old {
        assert(!(after[old].target == registration.target && after[old].observer
            == registration.observer));
    }
    if at < old {
        assert(after[at] == list[at]);
    }
}

proof fn lemma_registered_at(list: Seq<RegistrationModel>, target: Option<usize>, observer: usize)
    ensures
        0 <= registered_at(list, target, observer) <= list.len(),
        registered_at(list, target, observer) < list.len() ==> list[registered_at(
            list,
            target,
            observer,
        )].target == target && list[registered_at(list, target, observer)].observer == observer,
        forall|i: int|
            0 <= i < registered_at(list, target, observer) ==> !((#[trigger] list[i]).target == target
                && list[i].observer == observer),
    decreases list.len(),
{
    if list.len() > 0 && !(list[0].target == target && list[0].observer == observer) {
        let rest = list.drop_first();
        lemma_registered_at(rest, target, observer);
        assert forall|i: int| 0 <= i < registered_at(list, target, observer) implies !((
        #[trigger] list[i]).target == target && list[i].observer == observer) by {
            if i > 0 {
                assert(list[i] == rest[i - 1]);
            }
        }
    }
}

/// Who observes a node alone is told of a change of it that interests it, and put down to be called; a
/// change that does not interest it is not told.
pub proof fn lemma_observer_is_told(
    observers: ObserversModel,
    registration: RegistrationModel,
    target: usize,
    record: RecordModel,
)
    requires
        observers.registrations == seq![registration],
        registration.target == Some(target),
        registration.observer < observers.records.len(),
    ensures
        ({
            let after = after_change(observers, seq![Some(target)], record);
            let id = registration.observer as int;
            match interest(registration.options, 0, record) {
                Some(with_old) => {
                    &&& after.records[id].len() == observers.records[id].len() + 1
                    &&& with_old ==> after.records[id].last() == record
                    &&& !with_old ==> after.records[id].last() == (RecordModel {
                        old_value: None,
                        ..record
                    })
                    &&& after.pending.contains(registration.observer)
                },
                None => after == observers,
            }
        }),
{
    let list = seq![registration];
    let line = seq![Some(target)];
    assert(line.drop_last() =~= Seq::<Option<usize>>::empty());
    assert(line.last() == Some(target));
    assert(told_of(list, Seq::empty(), record) =~= Seq::<(usize, bool)>::empty());
    reveal_with_fuel(told_at_node, 3);
    assert(list[0] == registration);
    let none = Seq::<(usize, bool)>::empty();
    let told = told_of(list, line, record);
    assert(told == told_at_node(list, 1, Some(target), 0, record, none));
    reveal_with_fuel(after_telling, 3);
    if let Some(with_old) = interest(registration.options, 0, record) {
        assert(told =~= seq![(registration.observer, with_old)]);
        assert(told.drop_last() =~= none);
        assert(told.last() == (registration.observer, with_old));
        let after = after_change(observers, line, record);
        if !observers.pending.contains(registration.observer) {
            assert(after.pending[observers.pending.len() as int] == registration.observer);
        }
    } else {
        assert(told =~= none);
    }
}

/// A page may define elements whose names are small letters with a hyphen between them. Names without a
/// hyphen, or with a capital letter, it may not.
pub proof fn lemma_names_of_elements(name: Seq<char>, i: int)
    requires
        name.len() > 0,
        0 <= i < name.len(),
    ensures
        !name.contains('-') ==> !can_be_defined(name),
        'A' <= name[i] <= 'Z' ==> !can_be_defined(name),
        !('a' <= name[0] <= 'z') ==> !can_be_defined(name),
        (forall|k: int| 0 <= k < name.len() ==> 'a' <= #[trigger] name[k] <= 'z') ==> can_be_defined(
            "x-"@ + name,
        ),
{
    reveal_strlit("x-");
    reveal_strlit("annotation-xml");
    reveal_strlit("color-profile");
    reveal_strlit("font-face");
    reveal_strlit("font-face-src");
    reveal_strlit("font-face-uri");
    reveal_strlit("font-face-format");
    reveal_strlit("font-face-name");
    reveal_strlit("missing-glyph");
    if 'A' <= name[i] <= 'Z' {
        assert(!is_name_char(name[i]));
    }
    if forall|k: int| 0 <= k < name.len() ==> 'a' <= #[trigger] name[k] <= 'z' {
        let whole = "x-"@ + name;
        assert(whole[0] == 'x' && whole[1] == '-');
        assert(whole.contains('-'));
        assert forall|k: int| 0 <= k < whole.len() implies is_name_char(#[trigger] whole[k]) by {
            if k >= 2 {
                assert(whole[k] == name[k - 2]);
            }
        }
        assert("annotation-xml"@[0] == 'a' && "color-profile"@[0] == 'c' && "missing-glyph"@[0]
            == 'm');
        assert("font-face"@[0] == 'f' && "font-face-src"@[0] == 'f' && "font-face-uri"@[0] == 'f');
        assert("font-face-format"@[0] == 'f' && "font-face-name"@[0] == 'f');
    }
}

/// An element gets one root of its own at most, and only an element does.
pub proof fn lemma_roots_are_attached_once(
    nodes: NodesModel,
    roots: Seq<ShadowRoot>,
    host: usize,
    mode: Seq<char>,
)
    ensures
        root_below(roots, host) is Some ==> attach_fault(nodes, roots, host, mode) is Some,
        !(node_at(nodes, host) matches Some(NodeModel::Element { .. })) ==> attach_fault(
            nodes,
            roots,
            host,
            mode,
        ) is Some,
        mode != "open"@ && mode != "closed"@ ==> attach_fault(nodes, roots, host, mode) is Some,
        (node_at(nodes, host) matches Some(NodeModel::Element { tag, .. }) && (tag == "div"@
            || can_be_defined(tag)) && root_below(roots, host) is None && (mode == "open"@ || mode
            == "closed"@)) ==> attach_fault(nodes, roots, host, mode) is None,
{
}

/// The end of a path tells what a module is, whatever was asked for; elsewhere it is what was asked for.
pub proof fn lemma_modules_by_ending(
    name: Seq<char>,
    content_type: Option<Seq<char>>,
    requested: RequestedModuleType,
)
    ensures
        module_of(name + ".json"@, content_type, requested) == ModuleModel::Json,
        module_of(name + ".JSON"@, content_type, requested) == ModuleModel::Json,
        content_type is None ==> module_of(name + ".wasm"@, content_type, requested)
            == ModuleModel::Wasm,
        content_type is None && requested is Text && !ends(ascii_lower(name), ".json"@) && !ends(
            ascii_lower(name),
            ".wasm"@,
        ) ==> module_of(name, content_type, requested) == ModuleModel::Text,
{
    reveal_strlit(".json");
    reveal_strlit(".JSON");
    reveal_strlit(".wasm");
    let n = name.len() as int;
    assert(ascii_lower(name + ".json"@).skip(n) =~= ".json"@);
    assert(ascii_lower(name + ".JSON"@).skip(n) =~= ".json"@);
    let wasm = ascii_lower(name + ".wasm"@);
    assert(wasm.skip(n) =~= ".wasm"@);
    assert(wasm.last() == 'm');
    if ends(wasm, ".json"@) {
        assert(wasm.skip(n).last() == 'n');
    }
}

/// Of two texts that differ, the first character in which they differ decides which comes first; a text
/// comes before a longer one that starts with it.
pub proof fn lemma_texts_in_order(
    front: Seq<char>,
    a: char,
    b: char,
    x: Seq<char>,
    y: Seq<char>,
)
    requires
        a < b,
    ensures
        text_before(front + seq![a] + x, front + seq![b] + y),
        !text_before(front + seq![b] + y, front + seq![a] + x),
        text_before(front, front + seq![a] + x),
        !text_before(front + seq![a] + x, front),
        !text_before(front, front),
    decreases front.len(),
{
    let p = front + seq![a] + x;
    let q = front + seq![b] + y;
    if front.len() > 0 {
        let rest = front.skip(1);
        lemma_texts_in_order(rest, a, b, x, y);
        assert(p.skip(1) =~= rest + seq![a] + x);
        assert(q.skip(1) =~= rest + seq![b] + y);
        assert(p[0] == front[0] && q[0] == front[0]);
    } else {
        assert(p[0] == a && q[0] == b);
    }
}

/// What is left of a text holds the same words; a text of white space alone leaves nothing.
pub proof fn lemma_collapsing_keeps_words(word: Seq<char>, text: Seq<char>)
    requires
        words(text) == seq![word],
    ensures
        collapsed(text) == Some(word),
{
}

} // verus!
