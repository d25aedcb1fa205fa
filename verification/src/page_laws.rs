//! What using a page promises: what a form sends, where links and forms lead, which node a click is for,
//! and what is in view or under the pointer.
use vstd::prelude::*;
use vstd::utf8::encode_utf8;

use crate::bits::lemma_members;
use crate::bits::members;
use crate::boxes::final_box;
use crate::boxes::is_box;
use crate::boxes::LayoutBox;
use crate::boxes::LayoutTable;
use crate::clicks::clicked;
use crate::clicks::first_sought;
use crate::clicks::is_sought;
use crate::clicks::nearest_sought;
use crate::clicks::submitted;
use crate::clicks::ActionModel;
use crate::clicks::ClickModel;
use crate::clicks::PageModel;
use crate::clicks::Sought;
use crate::dom::lemma_set_value_is_read_back;
use crate::dom::lookup;
use crate::dom::names_distinct;
use crate::dom::node_at;
use crate::dom::AttributesModel;
use crate::dom::NodeModel;
use crate::dom::NodesModel;
use crate::elements::elements_with_tag;
use crate::elements::has_place;
use crate::elements::implied_changes;
use crate::elements::is_below;
use crate::elements::kept;
use crate::forms::controls_below;
use crate::forms::controls_of_list;
use crate::forms::data_of;
use crate::forms::entries_of;
use crate::forms::form_method;
use crate::forms::form_navigation;
use crate::forms::navigation_to;
use crate::forms::takes_part;
use crate::forms::FormError;
use crate::forms::FormMethod;
use crate::forms::NavigationModel;
use crate::index::named;
use crate::index::NamedSets;
use crate::navigation::source_of;
use crate::navigation::SourceModel;
use crate::numbers::digit_value;
use crate::numbers::digits_value;
use crate::numbers::hex_text;
use crate::numbers::unsigned;
use crate::paint::RenderedNode;
use crate::raster::PaintClip;
use crate::redirect::instruction_target;
use crate::redirect::redirect_from;
use crate::redirect::redirect_in;
use crate::subtree::depth_of;
use crate::subtree::lemma_child_is_lower;
use crate::subtree::preorder;
use crate::subtree::preorder_list;
use crate::subtree::tree_like;
use crate::text::ascii_lower;
use crate::text::index_of;
use crate::text::lemma_index_of;
use crate::text::starts;
use crate::text_laws::all_digits;
use crate::text_laws::lemma_hex_is_read_back;
use crate::text_laws::lemma_numbers_are_read;
use crate::text_laws::sixteens;
use crate::tree::children_at;
use crate::tree::lineage;
use crate::tree::ChildrenModel;
use crate::urls::form_byte;
use crate::urls::form_bytes;
use crate::urls::form_encoded;
use crate::urls::joined_url;
use crate::urls::parsed_url;
use crate::urls::resolved_url;
use crate::viewport::first_scrollable;
use crate::viewport::in_view;
use crate::viewport::is_scrollable;
use crate::viewport::is_under;
use crate::viewport::PointerStyle;

verus! {

/// What is kept of a list is what meets the condition, in the order of the list.
pub proof fn lemma_kept(list: Seq<usize>, wanted: spec_fn(usize) -> bool, x: usize)
    ensures
        kept(list, wanted).contains(x) <==> list.contains(x) && wanted(x),
        list.len() > 0 && wanted(list.last()) ==> kept(list, wanted).last() == list.last(),
    decreases list.len(),
{
    if list.len() > 0 {
        let less = list.drop_last();
        lemma_kept(less, wanted, x);
        assert(list =~= less.push(list.last()));
        let all = kept(list, wanted);
        let before = kept(less, wanted);
        if list.contains(x) {
            let i = choose|i: int| 0 <= i < list.len() && list[i] == x;
            if i < less.len() {
                assert(less[i] == x);
            }
        }
        if less.contains(x) {
            let i = choose|i: int| 0 <= i < less.len() && less[i] == x;
            assert(list[i] == x);
        }
        assert(list[list.len() - 1] == list.last());
        if wanted(list.last()) {
            if before.contains(x) {
                let i = choose|i: int| 0 <= i < before.len() && before[i] == x;
                assert(all[i] == x);
            }
            if all.contains(x) {
                let i = choose|i: int| 0 <= i < all.len() && all[i] == x;
                if i < before.len() {
                    assert(before[i] == x);
                }
            }
            assert(all[all.len() - 1] == list.last());
        }
    }
}

proof fn lemma_kept_in_turn(a: Seq<usize>, b: Seq<usize>, wanted: spec_fn(usize) -> bool)
    ensures
        kept(a + b, wanted) == kept(a, wanted) + kept(b, wanted),
    decreases b.len(),
{
    if b.len() == 0 {
        assert(a + b =~= a);
        assert(kept(a + b, wanted) =~= kept(a, wanted) + kept(b, wanted));
    } else {
        lemma_kept_in_turn(a, b.drop_last(), wanted);
        assert((a + b).drop_last() =~= a + b.drop_last());
        assert((a + b).last() == b.last());
        assert(kept(a + b, wanted) =~= kept(a, wanted) + kept(b, wanted));
    }
}

/// Elements are found by their tag: exactly those with it, in any case, that have a place in the
/// document and lie below the node that was asked for.
pub proof fn lemma_elements_by_tag(
    nodes: NodesModel,
    listed: Seq<usize>,
    tags: NamedSets,
    root: usize,
    tag: Seq<char>,
    required: Option<usize>,
    idx: usize,
)
    requires
        ascii_lower(tag) != "*"@,
        named(tags, ascii_lower(tag)) matches Some(set) ==> (set.contains(idx) <==> (node_at(nodes, idx)
            matches Some(node) && node.has_tag(ascii_lower(tag)))),
        named(tags, ascii_lower(tag)) is Some || !(node_at(nodes, idx) matches Some(node)
            && node.has_tag(ascii_lower(tag))),
    ensures
        elements_with_tag(nodes, listed, tags, root, tag, required).contains(idx) <==> {
            &&& node_at(nodes, idx) matches Some(node) && node.has_tag(ascii_lower(tag))
            &&& has_place(nodes, root, idx)
            &&& is_below(nodes, idx, required)
        },
{
    if let Some(set) = named(tags, ascii_lower(tag)) {
        lemma_members(set);
        lemma_kept(
            members(set),
            |idx: usize|
                (node_at(nodes, idx) matches Some(node) && node is Element) && has_place(
                    nodes,
                    root,
                    idx,
                ) && is_below(nodes, idx, required),
            idx,
        );
    }
}

/// A label changes the radio buttons with the id that it is for, and nothing else does.
pub proof fn lemma_labels(nodes: NodesModel, ids: NamedSets, idx: usize, id: Seq<char>, el: usize)
    requires
        node_at(nodes, idx) matches Some(node) && node.attribute("for"@) == Some(id),
    ensures
        node_at(nodes, idx)->0.has_tag("label"@) ==> (implied_changes(nodes, ids, idx).contains(el)
            <==> {
            &&& named(ids, id) matches Some(set) && set.contains(el)
            &&& node_at(nodes, el) matches Some(node) && node.has_tag("input"@) && node.attribute(
                "type"@,
            ) == Some("radio"@)
        }),
        !node_at(nodes, idx)->0.has_tag("label"@) ==> implied_changes(nodes, ids, idx).len() == 0,
{
    if let Some(set) = named(ids, id) {
        lemma_members(set);
        lemma_kept(
            members(set),
            |el: usize|
                (node_at(nodes, el) matches Some(node) && node.has_tag("input"@) && node.attribute(
                    "type"@,
                ) == Some("radio"@)),
            el,
        );
    }
}

/// A control takes part only with a name and where it is not disabled. Texts always do, and a button
/// only where it was pressed.
pub proof fn lemma_controls_take_part(
    tag: Seq<char>,
    attributes: AttributesModel,
    idx: usize,
    submitted_by: Option<usize>,
)
    ensures
        lookup(attributes, "disabled"@) is Some ==> !takes_part(tag, attributes, idx, submitted_by),
        lookup(attributes, "name"@) is None ==> !takes_part(tag, attributes, idx, submitted_by),
        lookup(attributes, "disabled"@) is None && lookup(attributes, "name"@) is Some && tag
            == "textarea"@ ==> takes_part(tag, attributes, idx, submitted_by),
        lookup(attributes, "disabled"@) is None && lookup(attributes, "name"@) is Some && tag
            == "input"@ && lookup(attributes, "type"@) is None ==> takes_part(
            tag,
            attributes,
            idx,
            submitted_by,
        ),
        tag == "button"@ && submitted_by != Some(idx) ==> !takes_part(
            tag,
            attributes,
            idx,
            submitted_by,
        ),
        tag != "input"@ && tag != "button"@ && tag != "textarea"@ ==> !takes_part(
            tag,
            attributes,
            idx,
            submitted_by,
        ),
        lookup(attributes, "type"@) == Some("submit"@) && submitted_by != Some(idx) && tag
            != "textarea"@ ==> !takes_part(tag, attributes, idx, submitted_by),
        lookup(attributes, "type"@) == Some("submit"@) && submitted_by == Some(idx) && tag
            == "button"@ && lookup(attributes, "disabled"@) is None && lookup(attributes, "name"@)
            is Some ==> takes_part(tag, attributes, idx, submitted_by),
{
    reveal_strlit("textarea");
    reveal_strlit("input");
    reveal_strlit("button");
    assert("textarea"@.len() == 8 && "input"@.len() == 5 && "button"@.len() == 6);
}

/// Whether a node is a control that takes part.
pub open spec fn is_part(nodes: NodesModel, submitted_by: Option<usize>) -> spec_fn(usize) -> bool {
    |idx: usize|
        (node_at(nodes, idx) matches Some(NodeModel::Element { tag, attributes, .. }) && takes_part(
            tag,
            attributes,
            idx,
            submitted_by,
        ))
}

/// What a form sends is every control below it that takes part, in document order, and nothing else.
pub proof fn lemma_form_sends_its_controls(
    nodes: NodesModel,
    children: ChildrenModel,
    idx: usize,
    submitted_by: Option<usize>,
)
    requires
        tree_like(children),
        forall|i: int|
            0 <= i < preorder(children, idx).len() ==> node_at(
                nodes,
                #[trigger] preorder(children, idx)[i],
            ) is Some,
    ensures
        controls_below(nodes, children, idx, submitted_by) == kept(
            preorder(children, idx),
            is_part(nodes, submitted_by),
        ),
    decreases depth_of(children)(idx), 1int, 0nat,
{
    let wanted = is_part(nodes, submitted_by);
    let whole = preorder(children, idx);
    assert(whole[0] == idx);
    assert(seq![idx].drop_last() =~= Seq::<usize>::empty());
    assert(kept(Seq::empty(), wanted) =~= Seq::<usize>::empty());
    assert(kept(seq![idx], wanted) =~= if wanted(idx) {
        seq![idx]
    } else {
        Seq::empty()
    });
    if let Some(list) = children_at(children, idx) {
        let below = preorder_list(children, idx, list);
        assert(whole =~= seq![idx] + below);
        assert forall|i: int| 0 <= i < below.len() implies node_at(nodes, #[trigger] below[i])
            is Some by {
            assert(below[i] == whole[i + 1]);
        }
        lemma_list_sends_its_controls(nodes, children, idx, list, submitted_by);
        lemma_kept_in_turn(seq![idx], below, wanted);
    } else {
        assert(whole =~= seq![idx]);
    }
    assert(controls_below(nodes, children, idx, submitted_by) =~= kept(whole, wanted));
}

proof fn lemma_list_sends_its_controls(
    nodes: NodesModel,
    children: ChildrenModel,
    parent: usize,
    list: Seq<usize>,
    submitted_by: Option<usize>,
)
    requires
        tree_like(children),
        forall|i: int|
            0 <= i < preorder_list(children, parent, list).len() ==> node_at(
                nodes,
                #[trigger] preorder_list(children, parent, list)[i],
            ) is Some,
    ensures
        controls_of_list(nodes, children, parent, list, submitted_by) == kept(
            preorder_list(children, parent, list),
            is_part(nodes, submitted_by),
        ),
    decreases depth_of(children)(parent), 0int, list.len(),
{
    let wanted = is_part(nodes, submitted_by);
    if list.len() > 0 {
        let less = list.drop_last();
        let before = preorder_list(children, parent, less);
        let whole = preorder_list(children, parent, list);
        let own = if depth_of(children)(list.last()) < depth_of(children)(parent) {
            preorder(children, list.last())
        } else {
            Seq::empty()
        };
        assert(whole =~= before + own);
        assert forall|i: int| 0 <= i < before.len() implies node_at(nodes, #[trigger] before[i])
            is Some by {
            assert(before[i] == whole[i]);
        }
        assert forall|i: int| 0 <= i < own.len() implies node_at(nodes, #[trigger] own[i]) is Some by {
            assert(own[i] == whole[before.len() + i]);
        }
        lemma_list_sends_its_controls(nodes, children, parent, less, submitted_by);
        if depth_of(children)(list.last()) < depth_of(children)(parent) {
            lemma_form_sends_its_controls(nodes, children, list.last(), submitted_by);
        }
        lemma_kept_in_turn(before, own, wanted);
        assert(kept(Seq::empty(), wanted) =~= Seq::<usize>::empty());
        assert(controls_of_list(nodes, children, parent, list, submitted_by) =~= kept(
            whole,
            wanted,
        ));
    } else {
        assert(kept(Seq::empty(), wanted) =~= Seq::<usize>::empty());
    }
}

/// Each control that is sent gives its name and its value, which is empty where it has none.
pub proof fn lemma_entries(nodes: NodesModel, list: Seq<usize>, i: int)
    requires
        0 <= i < list.len(),
        forall|k: int|
            0 <= k < list.len() ==> (node_at(nodes, #[trigger] list[k]) matches Some(
                NodeModel::Element { attributes, .. },
            ) && lookup(attributes, "name"@) is Some),
    ensures
        entries_of(nodes, list).len() == list.len(),
        entries_of(nodes, list)[i].0 == node_at(nodes, list[i])->0.attribute("name"@)->0,
        node_at(nodes, list[i])->0.attribute("value"@) is Some ==> entries_of(nodes, list)[i].1
            == node_at(nodes, list[i])->0.attribute("value"@)->0,
        node_at(nodes, list[i])->0.attribute("value"@) is None ==> entries_of(nodes, list)[i].1.len()
            == 0,
    decreases list.len(),
{
    reveal_with_fuel(entries_of, 2);
    let less = list.drop_last();
    assert(list.last() == list[list.len() - 1]);
    assert forall|k: int| 0 <= k < less.len() implies (node_at(nodes, #[trigger] less[k]) matches Some(
        NodeModel::Element { attributes, .. },
    ) && lookup(attributes, "name"@) is Some) by {
        assert(less[k] == list[k]);
    }
    if i < less.len() {
        lemma_entries(nodes, less, i);
        assert(less[i] == list[i]);
    } else if less.len() > 0 {
        lemma_entries(nodes, less, 0);
    }
}

/// The bytes that an encoded text stands for: a plus sign is a space, and a percent sign is followed by
/// two digits of a byte.
pub open spec fn decoded(s: Seq<char>) -> Seq<u8>
    decreases s.len(),
{
    if s.len() == 0 {
        Seq::empty()
    } else if s[0] == '+' {
        seq![0x20u8] + decoded(s.skip(1))
    } else if s[0] == '%' && s.len() >= 3 {
        seq![digits_value(s.subrange(1, 3), 16)->0 as u8] + decoded(s.skip(3))
    } else {
        seq![s[0] as u8] + decoded(s.skip(1))
    }
}

/// What is encoded in a form can be read back, byte for byte, and neither an ampersand nor an equals sign
/// stands in it.
pub proof fn lemma_form_is_read_back(bytes: Seq<u8>)
    ensures
        decoded(form_bytes(bytes)) == bytes,
        forall|i: int|
            0 <= i < form_bytes(bytes).len() ==> #[trigger] form_bytes(bytes)[i] != '&' && form_bytes(
                bytes,
            )[i] != '=',
    decreases bytes.len(),
{
    if bytes.len() > 0 {
        let rest = bytes.drop_first();
        lemma_form_is_read_back(rest);
        lemma_bytes_from_the_front(bytes);
        lemma_one_byte(bytes[0], form_bytes(rest));
        assert(bytes =~= seq![bytes[0]] + rest);
        let own = form_byte(bytes[0]);
        let whole = form_bytes(bytes);
        assert forall|i: int| 0 <= i < whole.len() implies #[trigger] whole[i] != '&' && whole[i]
            != '=' by {
            if i >= own.len() {
                assert(whole[i] == form_bytes(rest)[i - own.len()]);
            } else {
                assert(whole[i] == own[i]);
            }
        }
    } else {
        assert(decoded(form_bytes(bytes)) =~= bytes);
    }
}

proof fn lemma_bytes_from_the_front(bytes: Seq<u8>)
    requires
        bytes.len() > 0,
    ensures
        form_bytes(bytes) == form_byte(bytes[0]) + form_bytes(bytes.drop_first()),
    decreases bytes.len(),
{
    if bytes.len() == 1 {
        assert(bytes.drop_last() =~= Seq::<u8>::empty());
        assert(bytes.drop_first() =~= Seq::<u8>::empty());
        assert(form_bytes(bytes) =~= form_byte(bytes[0]) + form_bytes(bytes.drop_first()));
    } else {
        let less = bytes.drop_last();
        lemma_bytes_from_the_front(less);
        assert(less.drop_first() =~= bytes.drop_first().drop_last());
        assert(form_bytes(bytes) =~= form_byte(bytes[0]) + form_bytes(bytes.drop_first()));
    }
}

proof fn lemma_one_byte(byte: u8, rest: Seq<char>)
    ensures
        decoded(form_byte(byte) + rest) == seq![byte] + decoded(rest),
        forall|i: int|
            0 <= i < form_byte(byte).len() ==> #[trigger] form_byte(byte)[i] != '&' && form_byte(
                byte,
            )[i] != '=',
{
    let own = form_byte(byte);
    let whole = own + rest;
    if own.len() == 1 {
        assert(whole.skip(1) =~= rest);
        assert(whole[0] == own[0]);
    } else {
        assert(sixteens(2) == 256) by {
            reveal_with_fuel(sixteens, 3);
        }
        lemma_hex_is_read_back(byte as nat, 2);
        let text = hex_text(byte as nat, 2);
        assert(whole.subrange(1, 3) =~= text);
        assert(whole.skip(3) =~= rest);
        assert(whole[0] == '%');
        assert(digit_value('&', 16) is None && digit_value('=', 16) is None);
        assert forall|i: int| 0 <= i < own.len() implies #[trigger] own[i] != '&' && own[i] != '=' by {
            if i > 0 {
                assert(own[i] == text[i - 1]);
                assert(digit_value(text[i - 1], 16) is Some);
            }
        }
    }
}

/// A form is a list of pairs with ampersands between them, each a name and a value around an equals sign.
pub proof fn lemma_pairs_follow_each_other(
    pairs: Seq<(Seq<char>, Seq<char>)>,
    name: Seq<char>,
    value: Seq<char>,
)
    ensures
        pairs.len() > 0 ==> form_encoded(pairs.push((name, value))) == form_encoded(pairs) + seq!['&']
            + form_encoded(seq![(name, value)]),
        form_encoded(seq![(name, value)]) == form_bytes(encode_utf8(name)) + seq!['=']
            + form_bytes(encode_utf8(value)),
{
    reveal_with_fuel(form_encoded, 2);
    let one = seq![(name, value)];
    assert(one.drop_last() =~= Seq::<(Seq<char>, Seq<char>)>::empty());
    assert(form_encoded(one) =~= form_bytes(encode_utf8(name)) + seq!['='] + form_bytes(
        encode_utf8(value),
    ));
    let all = pairs.push((name, value));
    assert(all.drop_last() =~= pairs);
    if pairs.len() > 0 {
        assert(form_encoded(all) =~= form_encoded(pairs) + seq!['&'] + form_encoded(one));
    }
}

/// A form that is posted leads to its target with the entries as the body; one that is not has no body.
pub proof fn lemma_forms_lead(
    target: Seq<char>,
    method: Option<Seq<char>>,
    entries: Seq<(Seq<char>, Seq<char>)>,
)
    ensures
        (method matches Some(text) && ascii_lower(text) == ascii_lower("post"@)) ==> navigation_to(
            target,
            form_method(method),
            entries,
        ) == Ok::<NavigationModel, FormError>(
            NavigationModel {
                url: target,
                method: FormMethod::Post,
                body: Some(form_encoded(entries)),
            },
        ),
        !(method matches Some(text) && ascii_lower(text) == ascii_lower("post"@)) ==> (navigation_to(
            target,
            form_method(method),
            entries,
        ) matches Ok(navigation) ==> navigation.body is None && navigation.method is Get),
{
}

/// Of several entries with one name the last counts, and entries with other names do not matter.
pub proof fn lemma_last_entry_counts(
    entries: Seq<(Seq<char>, Seq<char>)>,
    name: Seq<char>,
    value: Seq<char>,
    other: Seq<char>,
)
    ensures
        lookup(data_of(entries.push((name, value))), name) == Some(value),
        other != name ==> lookup(data_of(entries.push((name, value))), other) == lookup(
            data_of(entries),
            other,
        ),
        names_distinct(data_of(entries)),
{
    lemma_data_is_distinct(entries);
    assert(entries.push((name, value)).drop_last() =~= entries);
    lemma_set_value_is_read_back(data_of(entries), name, value, other);
}

proof fn lemma_data_is_distinct(entries: Seq<(Seq<char>, Seq<char>)>)
    ensures
        names_distinct(data_of(entries)),
    decreases entries.len(),
{
    if entries.len() > 0 {
        let less = entries.drop_last();
        lemma_data_is_distinct(less);
        lemma_set_value_is_read_back(
            data_of(less),
            entries.last().0,
            entries.last().1,
            entries.last().0,
        );
    }
}

/// An instruction to go elsewhere names an address behind a delay, relative to the page.
pub proof fn lemma_instruction(delay: Seq<char>, target: Seq<char>, url: Seq<char>)
    requires
        all_digits(delay),
    ensures
        instruction_target(delay + ";url="@ + target, url) == joined_url(url, target),
        instruction_target(delay, url) is None,
        instruction_target(";url="@ + target, url) is None,
{
    reveal_strlit(";url=");
    reveal_strlit("url=");
    let content = delay + ";url="@ + target;
    lemma_index_of(content, ';');
    let at = index_of(content, ';');
    assert(content[delay.len() as int] == ';');
    if at < delay.len() {
        assert(content[at] == delay[at]);
    }
    assert(at == delay.len());
    let rest = content.skip(at + 1);
    assert(rest =~= "url="@ + target);
    assert(rest.take(4) =~= "url="@);
    assert(rest.skip(4) =~= target);
    assert(content.take(at) =~= delay);
    lemma_numbers_are_read(delay, delay);
    lemma_index_of(delay, ';');
    if index_of(delay, ';') < delay.len() {
        assert(delay[index_of(delay, ';')] == ';');
    }
    let lone = ";url="@ + target;
    lemma_index_of(lone, ';');
    assert(lone[0] == ';');
    assert(index_of(lone, ';') == 0);
    assert(lone.take(0) =~= Seq::<char>::empty());
    reveal_strlit("inf");
    reveal_strlit("infinity");
    reveal_strlit("nan");
    assert(ascii_lower(Seq::<char>::empty()).len() == 0);
    assert(unsigned(Seq::<char>::empty()) =~= Seq::<char>::empty());
}

/// The first of two children that tells to go elsewhere is followed; what is for pages without scripts
/// is not.
pub proof fn lemma_first_instruction_counts(
    nodes: NodesModel,
    children: ChildrenModel,
    url: Seq<char>,
    idx: usize,
    first: usize,
    second: usize,
)
    requires
        tree_like(children),
        children_at(children, idx) == Some(seq![first, second]),
    ensures
        redirect_in(nodes, children, url, idx, seq![first, second], 2) == (match redirect_from(
            nodes,
            children,
            url,
            first,
        ) {
            Some(target) => Some(target),
            None => redirect_from(nodes, children, url, second),
        }),
        (node_at(nodes, idx) matches Some(node) && node.has_tag("noscript"@)) ==> redirect_from(
            nodes,
            children,
            url,
            idx,
        ) is None,
{
    reveal_strlit("noscript");
    reveal_strlit("meta");
    assert("noscript"@.len() == 8 && "meta"@.len() == 4);
    lemma_child_is_lower(children, idx, 0);
    lemma_child_is_lower(children, idx, 1);
    let list = seq![first, second];
    assert(list[0] == first && list[1] == second);
    reveal_with_fuel(redirect_in, 3);
}

/// An address of a file is read from that file, any other from the network, and what is sent is sent
/// there. The blank page is no address of either.
pub proof fn lemma_pages_come_from(path: Seq<char>, url: Seq<char>, body: Seq<char>)
    requires
        url != "about:blank"@,
    ensures
        source_of(
            NavigationModel { url: "file://"@ + path, method: FormMethod::Get, body: None },
        ) == SourceModel::File(path),
        !starts(url, "file://"@) ==> source_of(
            NavigationModel { url, method: FormMethod::Get, body: None },
        ) == SourceModel::Get(url),
        source_of(NavigationModel { url, method: FormMethod::Post, body: Some(body) })
            == (SourceModel::Post { url, body }),
        source_of(
            NavigationModel { url: "about:blank"@, method: FormMethod::Post, body: Some(body) },
        ) is Text,
{
    reveal_strlit("file://");
    reveal_strlit("about:blank");
    let whole = "file://"@ + path;
    assert(whole.take(7) =~= "file://"@);
    assert(whole.skip(7) =~= path);
    assert(whole[0] == 'f');
    assert("about:blank"@[0] == 'a');
}

/// A whole address stands for itself, whatever page it is on.
pub proof fn lemma_whole_addresses(
    href: Seq<char>,
    base: Option<Seq<char>>,
    other: Option<Seq<char>>,
)
    requires
        parsed_url(href) is Some,
    ensures
        resolved_url(href, base) == resolved_url(href, other),
        resolved_url(href, base) == parsed_url(href),
{
}

/// What is found around a node is the nearest: it is what is looked for, and nothing between it and the
/// node is.
pub proof fn lemma_nearest_is_found(nodes: NodesModel, list: Seq<usize>, sought: Sought)
    ensures
        first_sought(nodes, list, sought) matches Some(found) ==> exists|i: int|
            0 <= i < list.len() && #[trigger] list[i] == found && (node_at(nodes, found) matches Some(
                node,
            ) && is_sought(node, sought)) && forall|k: int|
                0 <= k < i ==> !(node_at(nodes, #[trigger] list[k]) matches Some(node) && is_sought(
                    node,
                    sought,
                )),
        first_sought(nodes, list, sought) is None ==> forall|k: int|
            0 <= k < list.len() ==> !(node_at(nodes, #[trigger] list[k]) matches Some(node)
                && is_sought(node, sought)),
    decreases list.len(),
{
    if list.len() > 0 {
        if node_at(nodes, list[0]) matches Some(node) && is_sought(node, sought) {
            assert(list[0] == first_sought(nodes, list, sought)->0);
        } else {
            let rest = list.drop_first();
            lemma_nearest_is_found(nodes, rest, sought);
            if let Some(found) = first_sought(nodes, list, sought) {
                let i = choose|i: int|
                    0 <= i < rest.len() && #[trigger] rest[i] == found && (node_at(nodes, found)
                        matches Some(node) && is_sought(node, sought)) && forall|k: int|
                        0 <= k < i ==> !(node_at(nodes, #[trigger] rest[k]) matches Some(node)
                            && is_sought(node, sought));
                assert(list[i + 1] == found);
                assert forall|k: int| 0 <= k < i + 1 implies !(node_at(nodes, #[trigger] list[k])
                    matches Some(node) && is_sought(node, sought)) by {
                    if k > 0 {
                        assert(list[k] == rest[k - 1]);
                    }
                }
            } else {
                assert forall|k: int| 0 <= k < list.len() implies !(node_at(
                    nodes,
                    #[trigger] list[k],
                ) matches Some(node) && is_sought(node, sought)) by {
                    if k > 0 {
                        assert(list[k] == rest[k - 1]);
                    }
                }
            }
        }
    }
}

/// A click on nothing takes the focus away. A click in a frame is for the frame. Any other is told to the
/// node and all nodes around it.
pub proof fn lemma_click_is_told(answer: bool, page: PageModel, target: usize)
    ensures
        clicked(ClickModel::Pressed(None), answer, page) == (
            ClickModel::Finished,
            ActionModel::ClearFocus,
        ),
        (node_at(page.nodes, target) matches Some(node) && node.has_tag("iframe"@)) ==> clicked(
            ClickModel::Pressed(Some(target)),
            answer,
            page,
        ).1 == ActionModel::Forward(target),
        !(node_at(page.nodes, target) matches Some(node) && node.has_tag("iframe"@)) ==> clicked(
            ClickModel::Pressed(Some(target)),
            answer,
            page,
        ).0 == (ClickModel::Clicked { target, parents: lineage(page.nodes, target) }),
{
}

/// A click that was not prevented opens the nearest link around its target, relative to the page.
pub proof fn lemma_link_is_opened(
    page: PageModel,
    target: usize,
    link: usize,
    href: Seq<char>,
    answer: bool,
)
    requires
        nearest_sought(page.nodes, target, Sought::Link) == Some(link),
        node_at(page.nodes, link) matches Some(node) && node.attribute("href"@) == Some(href),
    ensures
        joined_url(page.url, href) matches Some(url) ==> clicked(
            ClickModel::Submitted { target, prevented: false },
            answer,
            page,
        ) == (ClickModel::Finished, ActionModel::OpenLink(url)),
        clicked(ClickModel::Submitted { target, prevented: true }, answer, page) == (
            ClickModel::Finished,
            ActionModel::Stop,
        ),
{
}

/// A press on a submit button asks the form around it, and sends that form with the button unless the
/// page's own code said no.
pub proof fn lemma_form_is_submitted(
    page: PageModel,
    target: usize,
    button: usize,
    form: usize,
    prevented: bool,
    answer: bool,
)
    requires
        nearest_sought(page.nodes, target, Sought::SubmitButton) == Some(button),
        nearest_sought(page.nodes, button, Sought::Form) == Some(form),
    ensures
        clicked(ClickModel::Focused { target, prevented }, answer, page).0
            == (ClickModel::Submitting { target, form, button, prevented }),
        submitted(page, form, button) matches Ok(navigation) ==> clicked(
            ClickModel::Submitting { target, form, button, prevented },
            false,
            page,
        ).1 == ActionModel::Submit(navigation),
        !(clicked(ClickModel::Submitting { target, form, button, prevented }, true, page).1
            is Submit),
        node_at(page.nodes, form) matches Some(NodeModel::Element { attributes, .. }) ==> submitted(
            page,
            form,
            button,
        ) == form_navigation(
            page.url,
            lookup(attributes, "action"@),
            lookup(attributes, "method"@),
            entries_of(
                page.nodes,
                controls_below(page.nodes, page.children, form, Some(button)),
            ),
        ),
{
}

/// A box is in view where one of its pixels lies in what is shown, and is not where all of it lies to one
/// side.
pub proof fn lemma_boxes_in_view(
    layout: LayoutBox,
    offset_x: int,
    offset_y: int,
    clip: PaintClip,
    x: int,
    y: int,
)
    requires
        layout.rect.width <= i32::MAX,
        layout.rect.height <= i32::MAX,
    ensures
        ({
            let left = layout.rect.x + offset_x;
            let top = layout.rect.y + offset_y;
            let inside = left <= x < left + layout.rect.width && top <= y < top + layout.rect.height;
            let shown = clip.start_x <= x < clip.end_x && clip.start_y <= y < clip.end_y;
            &&& inside && shown ==> in_view(layout, offset_x, offset_y, clip)
            &&& left + layout.rect.width <= clip.start_x || left >= clip.end_x || top
                + layout.rect.height < clip.start_y || top >= clip.end_y ==> !in_view(
                layout,
                offset_x,
                offset_y,
                clip,
            )
        }),
{
}

/// The pointer finds a box where it is inside of it and of what is shown of it, and the box can be found
/// and is seen.
pub proof fn lemma_boxes_under_the_pointer(
    entry: RenderedNode,
    table: LayoutTable,
    styles: Seq<Option<PointerStyle>>,
    x: i32,
    y: i32,
    style: PointerStyle,
)
    requires
        is_box(table.boxes@, entry.layout_box_idx as int),
        table.boxes@[entry.layout_box_idx - 1].node_idx < styles.len(),
        styles[table.boxes@[entry.layout_box_idx - 1].node_idx as int] == Some(style),
        table.boxes@[entry.layout_box_idx - 1].rect.width <= i32::MAX,
        table.boxes@[entry.layout_box_idx - 1].rect.height <= i32::MAX,
    ensures
        ({
            let rect = table.boxes@[entry.layout_box_idx - 1].rect;
            let left = rect.x + entry.offset_x;
            let top = rect.y + entry.offset_y;
            let inside = left < x < left + rect.width && top < y < top + rect.height;
            let shown = entry.clip.start_x < x < entry.clip.end_x && entry.clip.start_y < y
                < entry.clip.end_y;
            &&& style.pointer_events is Auto && style.visibility is Visible ==> (is_under(
                entry,
                table,
                styles,
                x,
                y,
            ) <==> inside && shown)
            &&& style.pointer_events is Absent || style.visibility is Hidden ==> !is_under(
                entry,
                table,
                styles,
                x,
                y,
            )
        }),
{
}

/// What is scrolled is the nearest node that can be: it lets itself be scrolled and has more content than
/// it shows, and none before it does.
pub proof fn lemma_nearest_is_scrolled(list: Seq<usize>, table: LayoutTable, allowed: Seq<bool>)
    ensures
        first_scrollable(list, table, allowed) matches Some(found) ==> exists|i: int|
            0 <= i < list.len() && #[trigger] list[i] == found && is_scrollable(table, allowed, found)
                && forall|k: int|
                0 <= k < i ==> !is_scrollable(table, allowed, #[trigger] list[k]),
        first_scrollable(list, table, allowed) is None ==> forall|k: int|
            0 <= k < list.len() ==> !is_scrollable(table, allowed, #[trigger] list[k]),
    decreases list.len(),
{
    if list.len() > 0 {
        if is_scrollable(table, allowed, list[0]) {
            assert(list[0] == first_scrollable(list, table, allowed)->0);
        } else {
            let rest = list.drop_first();
            lemma_nearest_is_scrolled(rest, table, allowed);
            if let Some(found) = first_scrollable(list, table, allowed) {
                let i = choose|i: int|
                    0 <= i < rest.len() && #[trigger] rest[i] == found && is_scrollable(
                        table,
                        allowed,
                        found,
                    ) && forall|k: int|
                        0 <= k < i ==> !is_scrollable(table, allowed, #[trigger] rest[k]);
                assert(list[i + 1] == found);
                assert forall|k: int| 0 <= k < i + 1 implies !is_scrollable(
                    table,
                    allowed,
                    #[trigger] list[k],
                ) by {
                    if k > 0 {
                        assert(list[k] == rest[k - 1]);
                    }
                }
            } else {
                assert forall|k: int| 0 <= k < list.len() implies !is_scrollable(
                    table,
                    allowed,
                    #[trigger] list[k],
                ) by {
                    if k > 0 {
                        assert(list[k] == rest[k - 1]);
                    }
                }
            }
        }
    }
}

/// A node can be scrolled exactly where it is allowed and its content is higher than its box.
pub proof fn lemma_scrollable(table: LayoutTable, allowed: Seq<bool>, idx: usize, id: usize)
    requires
        final_box(table.node_layout@, idx) == Some(id),
        is_box(table.boxes@, id as int),
        idx < allowed.len(),
    ensures
        is_scrollable(table, allowed, idx) <==> allowed[idx as int] && table.boxes@[id
            - 1].content_height > table.boxes@[id - 1].rect.height,
{
}

} // verus!
