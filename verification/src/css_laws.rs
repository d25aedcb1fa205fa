//! What reading style sheets promises: a rule with its declarations is read to the letter, and so is a
//! selector.
use vstd::prelude::*;

use crate::calc::split_outside;
use crate::calc::split_state;
use crate::calc::split_step;
use crate::css::argument_of;
use crate::css::attribute_of_text;
use crate::css::attributes_of_text;
use crate::css::condition_state;
use crate::css::condition_step;
use crate::css::conditions_of;
use crate::css::part_of_condition;
use crate::css::part_of_piece;
use crate::css::parts_of_conditions;
use crate::css::parts_of_pieces;
use crate::css::parts_of_text;
use crate::css::pseudo_of_text;
use crate::css::unquoted;
use crate::css::AttributeModel;
use crate::css::PartModel;
use crate::css::PseudoModel;
use crate::stylesheet::declared_value;
use crate::stylesheet::rule_of_text;
use crate::stylesheet::trimmed_texts;
use crate::stylesheet::CssBuildPhase;
use crate::stylesheet::CssModel;
use crate::stylesheet::CssNodeModel;
use crate::text::ends;
use crate::text::index_of;
use crate::text::is_space;
use crate::text::lemma_index_of;
use crate::text::less_prefix;
use crate::text::less_suffix;
use crate::text::pieces;
use crate::text::starts;
use crate::text::trimmed;
use crate::text::trimmed_end;
use crate::text::trimmed_start;

verus! {

/// Whether a character can stand in a name.
pub open spec fn in_name(c: char) -> bool {
    'a' <= c <= 'z' || 'A' <= c <= 'Z' || '0' <= c <= '9' || c == '-' || c == '_'
}

/// Whether a text is a name.
pub open spec fn is_word(s: Seq<char>) -> bool {
    s.len() > 0 && forall|i: int| 0 <= i < s.len() ==> in_name(#[trigger] s[i])
}

/// Whether a text can be the value of a declaration: names, with spaces, points, commas and percent and
/// number signs between them.
pub open spec fn is_value(s: Seq<char>) -> bool {
    &&& s.len() > 0
    &&& !is_space(s[0]) && !is_space(s.last())
    &&& forall|i: int|
        0 <= i < s.len() ==> in_name(#[trigger] s[i]) || s[i] == ' ' || s[i] == '.' || s[i] == ','
            || s[i] == '%' || s[i] == '#'
}

/// Whether a text can be a selector: names with points, number signs and spaces between them, and not a
/// space at either end.
pub open spec fn is_plain_selector(s: Seq<char>) -> bool {
    &&& s.len() > 0
    &&& s[0] != ' ' && s.last() != ' '
    &&& forall|i: int|
        0 <= i < s.len() ==> in_name(#[trigger] s[i]) || s[i] == ' ' || s[i] == '.' || s[i] == '#'
}

proof fn lemma_names_are_not_space(c: char)
    requires
        in_name(c) || c == '.' || c == ',' || c == '%' || c == '#',
    ensures
        !is_space(c),
{
}

/// What is trimmed already stays as it is.
pub proof fn lemma_trimmed_stays(s: Seq<char>)
    requires
        s.len() > 0,
        !is_space(s[0]),
        !is_space(s.last()),
    ensures
        trimmed(s) == s,
{
    assert(trimmed_start(s) == s);
    assert(trimmed_end(s) == s);
}

/// Reading two texts is reading the one and then the other.
pub proof fn lemma_sheets_are_read_in_turn(m: CssModel, a: Seq<char>, b: Seq<char>)
    ensures
        m.run(a + b) == match m.run(a) {
            Some(between) => between.run(b),
            None => None,
        },
    decreases b.len(),
{
    if b.len() == 0 {
        assert(a + b =~= a);
    } else {
        lemma_sheets_are_read_in_turn(m, a, b.drop_last());
        assert((a + b).drop_last() =~= a + b.drop_last());
        assert((a + b).last() == b.last());
    }
}

proof fn lemma_one_char(m: CssModel, c: char)
    ensures
        m.run(seq![c]) == m.step(c),
{
    assert(seq![c].drop_last() =~= Seq::<char>::empty());
    reveal_with_fuel(CssModel::run, 2);
}

/// A text is collected to the letter until something ends it.
pub proof fn lemma_text_is_collected(m: CssModel, s: Seq<char>)
    requires
        m.stage is Start || m.stage is Specifier,
        s.len() > 0,
        s[0] != ' ' || m.stage is Specifier,
        forall|i: int|
            0 <= i < s.len() ==> in_name(#[trigger] s[i]) || s[i] == ' ' || s[i] == '.' || s[i] == ','
                || s[i] == '%' || s[i] == '#' || s[i] == '!',
    ensures
        m.run(s) == Some(CssModel { stage: CssBuildPhase::Specifier, label: m.label + s, ..m }),
    decreases s.len(),
{
    let before = s.drop_last();
    let c = s.last();
    assert(c == s[s.len() - 1]);
    if before.len() == 0 {
        assert(s =~= seq![c]);
        lemma_one_char(m, c);
        assert(m.label.push(c) =~= m.label + s);
    } else {
        assert forall|i: int| 0 <= i < before.len() implies in_name(#[trigger] before[i]) || before[i]
            == ' ' || before[i] == '.' || before[i] == ',' || before[i] == '%' || before[i] == '#'
            || before[i] == '!' by {
            assert(before[i] == s[i]);
        }
        assert(before[0] == s[0]);
        lemma_text_is_collected(m, before);
        assert((m.label + before).push(c) =~= m.label + s);
    }
}

proof fn lemma_colon_place(name: Seq<char>, value: Seq<char>)
    requires
        is_word(name),
    ensures
        index_of(name + seq![':'] + value, ':') == name.len(),
{
    let s = name + seq![':'] + value;
    lemma_index_of(s, ':');
    let at = index_of(s, ':');
    assert(s[name.len() as int] == ':');
    if at < name.len() {
        assert(s[at] == name[at]);
        assert(in_name(name[at]));
    }
    if at > name.len() {
        assert(s[name.len() as int] != ':');
    }
}

/// A declaration is read to the letter: its name in front of the colon, its value behind it, and that it
/// is important where it says so. It belongs to the rule that is open.
pub proof fn lemma_declaration_is_read(m: CssModel, name: Seq<char>, value: Seq<char>)
    requires
        m.stage is Start || m.stage is Specifier,
        m.label.len() == 0,
        !m.in_url,
        is_word(name),
        is_value(value),
        !ends(value, "!important"@),
    ensures
        m.run(name + seq![':'] + value + seq![';']) matches Some(after) && {
            &&& after.nodes.len() == m.nodes.len() + 1
            &&& after.nodes.drop_last() == m.nodes
            &&& !starts(name, "--"@) ==> after.nodes.last() == (CssNodeModel::Property {
                name,
                value: Some(value),
                important: false,
                parent: m.node,
            })
            &&& starts(name, "--"@) ==> after.nodes.last() == (CssNodeModel::Variable {
                name,
                value: Some(value),
                parent: m.node,
            })
            &&& after.node == m.node
            &&& after.label.len() == 0
            &&& after.stage is Specifier
            &&& !after.in_url
        },
        m.run(name + seq![':'] + value + " !important;"@) matches Some(after) && {
            &&& after.nodes.len() == m.nodes.len() + 1
            &&& !starts(name, "--"@) ==> after.nodes.last() == (CssNodeModel::Property {
                name,
                value: Some(value),
                important: true,
                parent: m.node,
            })
        },
{
    lemma_plain_value(value);
    lemma_read_behind_colon(m, name, value);
    lemma_marked_value(value);
    reveal_strlit(" !important;");
    reveal_strlit(" !important");
    let marked = value + " !important"@;
    assert(name + seq![':'] + value + " !important;"@ =~= name + seq![':'] + marked + seq![';']);
    assert forall|i: int| 0 <= i < marked.len() implies in_name(#[trigger] marked[i]) || marked[i]
        == ' ' || marked[i] == '.' || marked[i] == ',' || marked[i] == '%' || marked[i] == '#'
        || marked[i] == '!' by {
        if i < value.len() {
            assert(marked[i] == value[i]);
        }
    }
    lemma_read_behind_colon(m, name, marked);
}

proof fn lemma_plain_value(value: Seq<char>)
    requires
        is_value(value),
        !ends(value, "!important"@),
    ensures
        declared_value(value) == (value, false),
{
    lemma_trimmed_stays(value);
    assert(value.last() == value[value.len() - 1]);
    lemma_unquoted_stays(value);
}

proof fn lemma_marked_value(value: Seq<char>)
    requires
        is_value(value),
    ensures
        declared_value(value + " !important"@) == (value, true),
{
    reveal_strlit(" !important");
    reveal_strlit("!important");
    let marked = value + " !important"@;
    assert(marked[0] == value[0]);
    assert(marked.last() == 't');
    lemma_trimmed_stays(marked);
    lemma_unquoted_stays(marked);
    assert(marked.skip(marked.len() - 10) =~= "!important"@);
    let kept = marked.take(marked.len() - 10);
    assert(kept =~= value.push(' '));
    assert(kept.drop_last() =~= value);
    assert(kept[0] == value[0]);
    assert(trimmed_start(kept) == kept);
    assert(trimmed_end(kept) == trimmed_end(value));
    assert(trimmed_end(value) == value);
}

proof fn lemma_read_behind_colon(m: CssModel, name: Seq<char>, behind: Seq<char>)
    requires
        m.stage is Start || m.stage is Specifier,
        m.label.len() == 0,
        !m.in_url,
        is_word(name),
        behind.len() > 0,
        forall|i: int|
            0 <= i < behind.len() ==> in_name(#[trigger] behind[i]) || behind[i] == ' ' || behind[i]
                == '.' || behind[i] == ',' || behind[i] == '%' || behind[i] == '#' || behind[i] == '!',
    ensures
        m.run(name + seq![':'] + behind + seq![';']) matches Some(after) && {
            &&& after.nodes.len() == m.nodes.len() + 1
            &&& after.nodes.drop_last() == m.nodes
            &&& !starts(name, "--"@) ==> after.nodes.last() == (CssNodeModel::Property {
                name,
                value: Some(declared_value(behind).0),
                important: declared_value(behind).1,
                parent: m.node,
            })
            &&& starts(name, "--"@) ==> after.nodes.last() == (CssNodeModel::Variable {
                name,
                value: Some(declared_value(behind).0),
                parent: m.node,
            })
            &&& after.node == m.node
            &&& after.label.len() == 0
            &&& after.stage is Specifier
            &&& !after.in_url
        },
{
    let text = name + seq![':'] + behind;
    let named = CssModel { stage: CssBuildPhase::Specifier, label: m.label + name, ..m };
    assert(m.label + name =~= name);
    assert(in_name(name[0]));
    lemma_text_is_collected(m, name);
    lemma_sheets_are_read_in_turn(m, name, seq![':']);
    lemma_one_char(named, ':');
    let parted = CssModel { label: name.push(':'), ..named };
    assert(named.step(':') == Some(parted));
    lemma_text_is_collected(parted, behind);
    lemma_sheets_are_read_in_turn(m, name + seq![':'], behind);
    assert(name.push(':') + behind =~= text);
    let whole = CssModel { label: text, ..named };
    assert(m.run(text) == Some(whole));
    lemma_sheets_are_read_in_turn(m, text, seq![';']);
    lemma_one_char(whole, ';');
    assert(text[name.len() as int] == ':');
    assert(text.contains(':'));
    lemma_colon_place(name, behind);
    assert(text.take(name.len() as int) =~= name);
    assert(text.skip((name.len() + 1) as int) =~= behind);
    lemma_names_are_not_space(name[0]);
    assert(in_name(name.last())) by {
        assert(name.last() == name[name.len() - 1]);
    }
    lemma_names_are_not_space(name.last());
    lemma_trimmed_stays(name);
    let after = m.run(text + seq![';'])->0;
    assert(after.nodes.drop_last() =~= m.nodes);
}

proof fn lemma_unquoted_stays(s: Seq<char>)
    requires
        s.len() > 0,
        s[0] != '\'',
        s.last() != '\'',
    ensures
        less_suffix(less_prefix(s, "'"@), "'"@) == s,
{
    reveal_strlit("'");
    assert(s.take(1)[0] == s[0]);
    assert(s.skip(s.len() - 1)[0] == s.last());
}

/// A selector in front of a brace opens a rule with that selector, inside what is open. The next brace
/// closes it, and what was open before is open again.
pub proof fn lemma_rule_is_opened_and_closed(m: CssModel, s: Seq<char>)
    requires
        m.stage is Start,
        m.label.len() == 0,
        m.nodes.len() < usize::MAX,
        is_plain_selector(s),
    ensures
        m.run(s + seq!['{']) matches Some(open) && {
            &&& open.nodes.drop_last() == m.nodes
            &&& open.nodes.len() == m.nodes.len() + 1
            &&& open.nodes.last() == (CssNodeModel::ClassName {
                names: seq![s],
                parts: seq![parts_of_text(s)],
                parent: m.node,
            })
            &&& open.node == Some(m.nodes.len() as usize)
            &&& open.label.len() == 0
            &&& open.stage is Specifier
            &&& open.in_url == m.in_url
            &&& open.run(seq!['}']) matches Some(after) && after.node == m.node && after.nodes
                == open.nodes && after.stage is Start && after.label.len() == 0
        },
{
    lemma_text_is_collected(m, s);
    assert(m.label + s =~= s);
    let collected = CssModel { stage: CssBuildPhase::Specifier, label: s, ..m };
    lemma_sheets_are_read_in_turn(m, s, seq!['{']);
    lemma_one_char(collected, '{');
    lemma_no_separator(s, ',', Seq::empty());
    let names = trimmed_texts(split_outside(s, ',', Seq::empty()));
    assert(s.last() == s[s.len() - 1]);
    if s[0] != '.' && s[0] != '#' {
        assert(in_name(s[0]));
    }
    if s.last() != '.' && s.last() != '#' {
        assert(in_name(s[s.len() - 1]));
    }
    lemma_names_are_not_space(s[0]);
    lemma_names_are_not_space(s.last());
    lemma_trimmed_stays(s);
    assert(names =~= seq![s]);
    let node = rule_of_text(s, m.node);
    assert(node->parts =~= seq![parts_of_text(s)]);
    let open = m.run(s + seq!['{'])->0;
    assert(open.nodes.drop_last() =~= m.nodes);
    lemma_one_char(open, '}');
    assert(!open.label.contains(':'));
}

/// A whole rule with one declaration is read as that rule and that declaration in it.
pub proof fn lemma_sheet_is_read(m: CssModel, s: Seq<char>, name: Seq<char>, value: Seq<char>)
    requires
        m.stage is Start,
        m.label.len() == 0,
        m.nodes.len() == 0,
        m.node is None,
        !m.in_url,
        is_plain_selector(s),
        is_word(name),
        !starts(name, "--"@),
        is_value(value),
        !ends(value, "!important"@),
    ensures
        m.parsed(s + seq!['{'] + (name + seq![':'] + value + seq![';']) + seq!['}']) matches Some(after)
            && after.nodes == seq![
            CssNodeModel::ClassName {
                names: seq![s],
                parts: seq![parts_of_text(s)],
                parent: None,
            },
            CssNodeModel::Property {
                name,
                value: Some(value),
                important: false,
                parent: Some(0usize),
            },
        ],
{
    let declaration = name + seq![':'] + value + seq![';'];
    let sheet = s + seq!['{'] + declaration + seq!['}'];
    lemma_rule_with_declaration(m, s, name, value);
    assert(sheet[0] == s[0]);
    if s[0] != '.' && s[0] != '#' {
        assert(in_name(s[0]));
    }
    lemma_names_are_not_space(s[0]);
    assert(sheet.last() == '}');
    lemma_trimmed_stays(sheet);
}

proof fn lemma_rule_with_declaration(m: CssModel, s: Seq<char>, name: Seq<char>, value: Seq<char>)
    requires
        m.stage is Start,
        m.label.len() == 0,
        m.nodes.len() == 0,
        m.node is None,
        !m.in_url,
        is_plain_selector(s),
        is_word(name),
        !starts(name, "--"@),
        is_value(value),
        !ends(value, "!important"@),
    ensures
        m.run(s + seq!['{'] + (name + seq![':'] + value + seq![';']) + seq!['}']) matches Some(after)
            && after.stage is Start && after.nodes == seq![
            CssNodeModel::ClassName {
                names: seq![s],
                parts: seq![parts_of_text(s)],
                parent: None,
            },
            CssNodeModel::Property {
                name,
                value: Some(value),
                important: false,
                parent: Some(0usize),
            },
        ],
{
    let declaration = name + seq![':'] + value + seq![';'];
    let front = s + seq!['{'];
    lemma_rule_is_opened_and_closed(m, s);
    let open = m.run(front)->0;
    lemma_declaration_is_read(open, name, value);
    let declared = open.run(declaration)->0;
    lemma_sheets_are_read_in_turn(m, front, declaration);
    lemma_sheets_are_read_in_turn(m, front + declaration, seq!['}']);
    lemma_one_char(declared, '}');
    assert(!declared.label.contains(':'));
    assert(declared.nodes =~= open.nodes.push(declared.nodes.last()));
    assert(open.nodes =~= m.nodes.push(open.nodes.last()));
}

proof fn lemma_no_separator(s: Seq<char>, separator: char, keep: Seq<char>)
    requires
        forall|i: int|
            0 <= i < s.len() ==> #[trigger] s[i] != separator && !keep.contains(s[i]) && s[i] != '('
                && s[i] != ')',
    ensures
        split_state(s, separator, keep).list == Seq::<Seq<char>>::empty(),
        split_state(s, separator, keep).buffer == s,
        split_state(s, separator, keep).depth == 0,
        s.len() > 0 ==> split_outside(s, separator, keep) == seq![s],
    decreases s.len(),
{
    if s.len() > 0 {
        let less = s.drop_last();
        assert forall|i: int| 0 <= i < less.len() implies #[trigger] less[i] != separator
            && !keep.contains(less[i]) && less[i] != '(' && less[i] != ')' by {
            assert(less[i] == s[i]);
        }
        lemma_no_separator(less, separator, keep);
        assert(s.last() == s[s.len() - 1]);
        assert(less.push(s.last()) =~= s);
        assert(split_outside(s, separator, keep) =~= seq![s]);
    } else {
        assert(split_state(s, separator, keep).buffer =~= s);
    }
}

/// Whether a text is one step of a selector: something without a space, an arrow or parentheses.
pub open spec fn is_step(s: Seq<char>) -> bool {
    s.len() > 0 && forall|i: int|
        0 <= i < s.len() ==> #[trigger] s[i] != ' ' && s[i] != '>' && s[i] != '(' && s[i] != ')'
}

proof fn lemma_step_behind(a: Seq<char>, b: Seq<char>)
    requires
        split_state(a, ' ', seq!['>']).depth == 0,
        split_state(a, ' ', seq!['>']).buffer.len() == 0,
        is_step(b),
    ensures
        split_state(a + b, ' ', seq!['>']).list == split_state(a, ' ', seq!['>']).list,
        split_state(a + b, ' ', seq!['>']).buffer == b,
        split_state(a + b, ' ', seq!['>']).depth == 0,
    decreases b.len(),
{
    let less = b.drop_last();
    assert((a + b).drop_last() =~= a + less);
    assert((a + b).last() == b.last());
    assert(b.last() == b[b.len() - 1]);
    assert(!seq!['>'].contains(b.last()));
    if less.len() > 0 {
        assert forall|i: int| 0 <= i < less.len() implies #[trigger] less[i] != ' ' && less[i] != '>'
            && less[i] != '(' && less[i] != ')' by {
            assert(less[i] == b[i]);
        }
        lemma_step_behind(a, less);
        assert(less.push(b.last()) =~= b);
    } else {
        assert(a + less =~= a);
        assert(split_state(a + b, ' ', seq!['>']).buffer =~= b);
    }
}

proof fn lemma_split_push(a: Seq<char>, c: char)
    ensures
        split_state(a.push(c), ' ', seq!['>']) == split_step(
            split_state(a, ' ', seq!['>']),
            c,
            ' ',
            seq!['>'],
        ),
{
    assert(a.push(c).drop_last() =~= a);
}

/// One step is one part. A space between two steps puts one part behind the other, and an arrow between
/// them stands between the parts.
pub proof fn lemma_steps_of_a_selector(a: Seq<char>, b: Seq<char>)
    requires
        is_step(a),
        is_step(b),
        part_of_piece(a) is Some,
        part_of_piece(b) is Some,
    ensures
        parts_of_text(a) == seq![part_of_piece(a)->0],
        parts_of_text(a + seq![' '] + b) == seq![part_of_piece(a)->0, part_of_piece(b)->0],
        parts_of_text(a + seq![' ', '>', ' '] + b) == seq![
            part_of_piece(a)->0,
            PartModel::ArrowRight,
            part_of_piece(b)->0,
        ],
{
    let keep = seq!['>'];
    assert(keep[0] == '>');
    assert(keep.contains('>') && !keep.contains(' '));
    reveal_with_fuel(parts_of_pieces, 6);
    // One step.
    assert(split_state(Seq::<char>::empty(), ' ', keep).buffer.len() == 0);
    lemma_step_behind(Seq::empty(), a);
    assert(Seq::<char>::empty() + a =~= a);
    assert(split_outside(a, ' ', keep) =~= seq![a]);
    assert(seq![a].drop_last() =~= Seq::<Seq<char>>::empty());
    assert(parts_of_text(a) =~= seq![part_of_piece(a)->0]);
    // Two steps.
    lemma_split_push(a, ' ');
    let front = a.push(' ');
    assert(split_state(front, ' ', keep).list =~= seq![a]);
    lemma_step_behind(front, b);
    assert(front + b =~= a + seq![' '] + b);
    let list = split_outside(a + seq![' '] + b, ' ', keep);
    assert(list =~= seq![a, b]);
    assert(list.drop_last() =~= seq![a]);
    assert(parts_of_text(a + seq![' '] + b) =~= seq![part_of_piece(a)->0, part_of_piece(b)->0]);
    // Two steps with an arrow between them.
    lemma_split_push(front, '>');
    let arrow = front.push('>');
    assert(split_state(arrow, ' ', keep).list =~= seq![a, seq!['>']]);
    lemma_split_push(arrow, ' ');
    let behind = arrow.push(' ');
    assert(split_state(behind, ' ', keep).list =~= seq![a, seq!['>'], Seq::empty()]);
    lemma_step_behind(behind, b);
    let whole = a + seq![' ', '>', ' '] + b;
    assert(behind + b =~= whole);
    let list = split_outside(whole, ' ', keep);
    assert(list =~= seq![a, seq!['>'], Seq::empty(), b]);
    let bound = whole.len();
    assert(list.drop_last() =~= seq![a, seq!['>'], Seq::empty()]);
    assert(seq![a, seq!['>'], Seq::<char>::empty()].drop_last() =~= seq![a, seq!['>']]);
    assert(seq![a, seq!['>']].drop_last() =~= seq![a]);
    lemma_arrow_is_a_part();
    lemma_nothing_is_no_part();
    assert(parts_of_pieces(seq![a], bound) =~= seq![part_of_piece(a)->0]);
    assert(parts_of_pieces(seq![a, seq!['>']], bound) =~= seq![
        part_of_piece(a)->0,
        PartModel::ArrowRight,
    ]);
    assert(parts_of_pieces(seq![a, seq!['>'], Seq::empty()], bound) =~= seq![
        part_of_piece(a)->0,
        PartModel::ArrowRight,
    ]);
    assert(parts_of_text(whole) =~= seq![
        part_of_piece(a)->0,
        PartModel::ArrowRight,
        part_of_piece(b)->0,
    ]);
}

proof fn lemma_arrow_is_a_part()
    ensures
        part_of_piece(seq!['>']) == Some(PartModel::ArrowRight),
{
    lemma_condition_push(Seq::empty(), '>');
    assert(Seq::<char>::empty().push('>') =~= seq!['>']);
    let list = conditions_of(seq!['>']);
    assert(condition_state(seq!['>']).buffer =~= seq!['>']);
    assert(list =~= seq![seq!['>']]);
    lemma_one_condition(seq!['>'], 1);
}

proof fn lemma_nothing_is_no_part()
    ensures
        part_of_piece(Seq::empty()) is None,
{
    assert(conditions_of(Seq::empty()) =~= Seq::<Seq<char>>::empty());
}

proof fn lemma_one_condition(s: Seq<char>, bound: nat)
    requires
        s.len() <= bound,
    ensures
        parts_of_conditions(seq![s], bound) == match part_of_condition(s) {
            Some(part) => Some(seq![part]),
            None => None,
        },
{
    reveal_with_fuel(parts_of_conditions, 3);
    assert(seq![s].drop_last() =~= Seq::<Seq<char>>::empty());
    if let Some(part) = part_of_condition(s) {
        assert(Seq::<PartModel>::empty().push(part) =~= seq![part]);
    }
}

proof fn lemma_condition_push(a: Seq<char>, c: char)
    ensures
        condition_state(a.push(c)) == condition_step(condition_state(a), c),
{
    assert(a.push(c).drop_last() =~= a);
}

/// Collecting a name behind something that is collected already.
proof fn lemma_name_behind(a: Seq<char>, b: Seq<char>)
    requires
        condition_state(a).depth == 0,
        !condition_state(a).escaped,
        forall|i: int| 0 <= i < b.len() ==> in_name(#[trigger] b[i]),
    ensures
        condition_state(a + b).list == condition_state(a).list,
        condition_state(a + b).buffer == condition_state(a).buffer + b,
        condition_state(a + b).depth == 0,
        !condition_state(a + b).escaped,
    decreases b.len(),
{
    if b.len() == 0 {
        assert(a + b =~= a);
        assert(condition_state(a).buffer + b =~= condition_state(a).buffer);
    } else {
        let less = b.drop_last();
        assert forall|i: int| 0 <= i < less.len() implies in_name(#[trigger] less[i]) by {
            assert(less[i] == b[i]);
        }
        lemma_name_behind(a, less);
        assert((a + b).drop_last() =~= a + less);
        assert((a + b).last() == b.last());
        assert(b.last() == b[b.len() - 1]);
        assert((condition_state(a).buffer + less).push(b.last()) =~= condition_state(a).buffer + b);
    }
}

/// A name is a tag, a name behind a point a class, and one behind a number sign an id. Several of them
/// without a space stand together for one element.
pub proof fn lemma_conditions_of_a_step(tag: Seq<char>, other: Seq<char>)
    requires
        is_word(tag),
        is_word(other),
    ensures
        part_of_piece(tag) == Some(PartModel::Tag(tag)),
        part_of_piece(seq!['.'] + other) == Some(PartModel::Class(other)),
        part_of_piece(seq!['#'] + other) == Some(PartModel::Id(other)),
        part_of_piece(tag + seq!['.'] + other) == Some(
            PartModel::Combined(seq![PartModel::Tag(tag), PartModel::Class(other)]),
        ),
        part_of_piece(tag + seq!['#'] + other) == Some(
            PartModel::Combined(seq![PartModel::Tag(tag), PartModel::Id(other)]),
        ),
{
    let none = Seq::<char>::empty();
    assert(in_name(tag[0]) && in_name(other[0]));
    // A tag alone.
    lemma_name_behind(none, tag);
    assert(none + tag =~= tag);
    assert(condition_state(tag).buffer =~= tag);
    assert(conditions_of(tag) =~= seq![tag]);
    lemma_one_condition(tag, tag.len());
    lemma_marked_alone('.', other);
    lemma_marked_alone('#', other);
    lemma_marked_behind(tag, '.', other);
    lemma_marked_behind(tag, '#', other);
}

proof fn lemma_marked_alone(mark: char, other: Seq<char>)
    requires
        mark == '.' || mark == '#',
        is_word(other),
    ensures
        part_of_piece(seq![mark] + other) == part_of_condition(seq![mark] + other),
        part_of_condition(seq![mark] + other) == Some(
            if mark == '.' {
                PartModel::Class(other)
            } else {
                PartModel::Id(other)
            },
        ),
{
    let none = Seq::<char>::empty();
    let whole = seq![mark] + other;
    lemma_condition_push(none, mark);
    assert(none.push(mark) =~= seq![mark]);
    lemma_name_behind(seq![mark], other);
    assert(condition_state(seq![mark]).buffer =~= seq![mark]);
    assert(conditions_of(whole) =~= seq![whole]);
    lemma_one_condition(whole, whole.len());
    assert(whole.drop_first() =~= other);
}

proof fn lemma_marked_behind(tag: Seq<char>, mark: char, other: Seq<char>)
    requires
        mark == '.' || mark == '#',
        is_word(tag),
        is_word(other),
    ensures
        part_of_piece(tag + seq![mark] + other) == Some(
            PartModel::Combined(
                seq![
                    PartModel::Tag(tag),
                    part_of_condition(seq![mark] + other)->0,
                ],
            ),
        ),
{
    let none = Seq::<char>::empty();
    let marked = seq![mark] + other;
    let whole = tag + seq![mark] + other;
    lemma_name_behind(none, tag);
    assert(none + tag =~= tag);
    assert(condition_state(tag).buffer =~= tag);
    lemma_condition_push(tag, mark);
    let front = tag.push(mark);
    assert(condition_state(front).list =~= seq![tag]);
    assert(condition_state(front).buffer =~= seq![mark]);
    lemma_name_behind(front, other);
    assert(front + other =~= whole);
    assert(conditions_of(whole) =~= seq![tag, marked]);
    reveal_with_fuel(parts_of_conditions, 3);
    assert(seq![tag, marked].drop_last() =~= seq![tag]);
    lemma_one_condition(tag, whole.len());
    lemma_marked_alone(mark, other);
    assert(in_name(tag[0]));
    let parts = parts_of_conditions(conditions_of(whole), whole.len());
    assert(parts->0 =~= seq![PartModel::Tag(tag), part_of_condition(marked)->0]);
}

/// A condition on an attribute is read to the letter, with its value in quotes or without them.
pub proof fn lemma_attribute_is_read(key: Seq<char>, value: Seq<char>)
    requires
        is_word(key),
        is_word(value),
    ensures
        attribute_of_text(key) == Some(AttributeModel::Key(key)),
        attribute_of_text(key + seq!['='] + value) == Some(AttributeModel::KeyValue(key, value)),
        attribute_of_text(key + seq!['=', '"'] + value + seq!['"']) == Some(
            AttributeModel::KeyValue(key, value),
        ),
        attributes_of_text(key + seq!['='] + value + seq![']']) == seq![
            AttributeModel::KeyValue(key, value),
        ],
{
    reveal_strlit("'");
    reveal_strlit("\"");
    reveal_with_fuel(pieces, 3);
    assert(in_name(value[0]) && in_name(key[0]));
    assert(value.last() == value[value.len() - 1]);
    lemma_names_are_not_space(value[0]);
    lemma_names_are_not_space(value[value.len() - 1]);
    lemma_no_equals(key);
    assert(pieces(key, '=') =~= seq![key]);
    // Without quotes.
    let plain = key + seq!['='] + value;
    lemma_equals_place(key, value);
    assert(plain.take(key.len() as int) =~= key);
    assert(plain.skip((key.len() + 1) as int) =~= value);
    lemma_no_equals(value);
    assert(pieces(value, '=') =~= seq![value]);
    assert(pieces(plain, '=') =~= seq![key, value]);
    lemma_trimmed_stays(value);
    lemma_no_quotes(value);
    // With quotes.
    let inner = seq!['"'] + value + seq!['"'];
    let quoted = key + seq!['=', '"'] + value + seq!['"'];
    assert(quoted =~= key + seq!['='] + inner);
    lemma_equals_place(key, inner);
    assert(quoted.take(key.len() as int) =~= key);
    assert(quoted.skip((key.len() + 1) as int) =~= inner);
    assert forall|i: int| 0 <= i < inner.len() implies #[trigger] inner[i] != '=' by {
        if 0 < i < inner.len() - 1 {
            assert(inner[i] == value[i - 1]);
            assert(in_name(value[i - 1]));
        }
    }
    lemma_index_of(inner, '=');
    assert(pieces(inner, '=') =~= seq![inner]);
    assert(pieces(quoted, '=') =~= seq![key, inner]);
    assert(!is_space('"'));
    lemma_trimmed_stays(inner);
    lemma_unquoted_stays(inner);
    assert(starts(inner, "\""@)) by {
        assert(inner.take(1) =~= "\""@);
    }
    let opened = inner.skip(1);
    assert(opened =~= value.push('"'));
    assert(ends(opened, "\""@)) by {
        assert(opened.skip(opened.len() - 1) =~= "\""@);
    }
    assert(opened.take(opened.len() - 1) =~= value);
    assert(unquoted(inner) == value);
    // In brackets.
    let list = plain.push(']');
    assert(list =~= key + seq!['='] + value + seq![']']);
    lemma_index_of(list, ']');
    let at = index_of(list, ']');
    assert(list[plain.len() as int] == ']');
    if at < plain.len() {
        if at < key.len() {
            assert(list[at] == key[at]);
        } else if at > key.len() {
            assert(list[at] == value[at - key.len() - 1]);
        }
    }
    assert(at == plain.len());
    assert(list.take(at) =~= plain);
    assert(list.skip(list.len() as int) =~= Seq::<char>::empty());
    reveal_with_fuel(attributes_of_text, 2);
    assert(attributes_of_text(Seq::empty()) =~= Seq::<AttributeModel>::empty());
    assert(attributes_of_text(list) =~= seq![AttributeModel::KeyValue(key, value)]);
}

proof fn lemma_no_equals(s: Seq<char>)
    requires
        is_word(s),
    ensures
        index_of(s, '=') == s.len(),
{
    lemma_index_of(s, '=');
    if index_of(s, '=') < s.len() {
        assert(in_name(s[index_of(s, '=')]));
    }
}

proof fn lemma_equals_place(key: Seq<char>, value: Seq<char>)
    requires
        is_word(key),
    ensures
        index_of(key + seq!['='] + value, '=') == key.len(),
{
    let s = key + seq!['='] + value;
    lemma_index_of(s, '=');
    let at = index_of(s, '=');
    assert(s[key.len() as int] == '=');
    if at < key.len() {
        assert(s[at] == key[at]);
        assert(in_name(key[at]));
    }
}

proof fn lemma_no_quotes(s: Seq<char>)
    requires
        is_word(s),
    ensures
        unquoted(s) == s,
{
    reveal_strlit("'");
    reveal_strlit("\"");
    assert(in_name(s[0]));
    assert(in_name(s[s.len() - 1]));
    lemma_unquoted_stays(s);
    assert(s.take(1)[0] == s[0]);
    assert(s.skip(s.len() - 1)[0] == s.last());
}

/// What stands in the parentheses of `:not()` is read as a selector of its own.
pub proof fn lemma_negation_is_read(inner: Seq<char>)
    requires
        is_step(inner),
        forall|i: int| 0 <= i < inner.len() ==> #[trigger] inner[i] != '\\',
    ensures
        pseudo_of_text("not("@ + inner + seq![')']) == Some(
            PseudoModel::Not(parts_of_text(inner)),
        ),
        part_of_condition(seq![':'] + ("not("@ + inner + seq![')'])) == Some(
            PartModel::Pseudo(PseudoModel::Not(parts_of_text(inner))),
        ),
{
    reveal_strlit("not(");
    reveal_strlit(")");
    reveal_strlit(":");
    let s = "not("@ + inner + seq![')'];
    assert(s.take(4) =~= "not("@);
    let rest = s.skip(4);
    assert(rest =~= inner.push(')'));
    assert(rest.skip(rest.len() - 1) =~= ")"@);
    assert(s.subrange(4, s.len() - 1) =~= inner);
    assert(argument_of(s, "not("@) == Some(inner));
    let whole = seq![':'] + s;
    assert(whole.drop_first() =~= s);
    assert(s[0] == 'n');
    assert(s.take(1)[0] == 'n');
    assert(less_prefix(s, ":"@) == s);
}

} // verus!
