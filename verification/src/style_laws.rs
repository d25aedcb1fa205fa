//! What values of a style promise: what the words in it do, how a calculation is solved, how lines and
//! boxes are moved by it, and under which names its values are found.
use vstd::prelude::*;

use crate::boxes::border_side;
use crate::boxes::is_box;
use crate::boxes::BoxModel;
use crate::boxes::StyleBackground;
use crate::calc::all_slots;
use crate::calc::applied;
use crate::calc::has_unit;
use crate::calc::lemma_small_numbers_are_exact;
use crate::calc::next_operator;
use crate::calc::operator_from;
use crate::calc::reduced;
use crate::calc::single_value;
use crate::calc::size_value;
use crate::calc::slot_value;
use crate::calc::solved;
use crate::calc::spliced;
use crate::calc::term_value;
use crate::calc::CalcError;
use crate::calc::CalcSlot;
use crate::calc::CalcTerm;
use crate::calc::SizeContext;
use crate::calc::SizeTerm;
use crate::calc::StyleCalcOperator;
use crate::cascade::ExpandableModel;
use crate::computed::with_values;
use crate::dom::lemma_set_value_is_read_back;
use crate::dom::lookup;
use crate::dom::names_distinct;
use crate::dom::AttributesModel;
use crate::keywords::align_of;
use crate::keywords::border_style_of;
use crate::keywords::default_display;
use crate::keywords::display_of;
use crate::keywords::flex_direction_of;
use crate::keywords::pointer_events_of;
use crate::keywords::position_of;
use crate::keywords::visibility_of;
use crate::layout_model::main_margin;
use crate::lengths::line_height;
use crate::lengths::margin_style;
use crate::lengths::translated;
use crate::lengths::translated_from;
use crate::lengths::LayoutStyle;
use crate::lengths::Stop;
use crate::lengths::Translation;
use crate::margins::line_moved;
use crate::margins::line_shift;
use crate::margins::MarginStyle;
use crate::place_laws::lemma_lines_are_aligned;
use crate::place_laws::lemma_shifted_box;
use crate::place_laws::widths_of;
use crate::sheets::planned;
use crate::sheets::source_from;
use crate::sheets::SheetStep;
use crate::sizing::Edges;
use crate::sizing::Size;
use crate::stylesheet::StyleDisplay;
use crate::waiters::frame_size;

verus! {

/// What is displayed in a line stands on one, what is displayed as a block does not, and what is not
/// displayed is neither. No two of the words mean the same.
pub proof fn lemma_words_for_display()
    ensures
        display_of("inline"@) matches Some(display) && display.on_line(),
        display_of("inline-block"@) matches Some(display) && display.on_line(),
        display_of("inline-flex"@) matches Some(display) && display.on_line(),
        display_of("block"@) matches Some(display) && !display.on_line(),
        display_of("flex"@) matches Some(display) && !display.on_line(),
        display_of("grid"@) matches Some(display) && !display.on_line(),
        display_of("none"@) == Some(StyleDisplay::Absent),
        display_of("flex"@) != display_of("block"@) && display_of("flex"@) != display_of("grid"@)
            && display_of("block"@) != display_of("grid"@),
        display_of("inline"@) != display_of("inline-block"@) && display_of("inline"@) != display_of(
            "inline-flex"@,
        ) && display_of("inline-block"@) != display_of("inline-flex"@),
        display_of("flex"@) == Some(StyleDisplay::Flex),
        display_of("grid"@) == Some(StyleDisplay::Grid),
        display_of("inline-flex"@) == Some(StyleDisplay::InlineFlex),
{
    reveal_strlit("inline");
    reveal_strlit("inline-block");
    reveal_strlit("inline-flex");
    reveal_strlit("block");
    reveal_strlit("flex");
    reveal_strlit("grid");
    reveal_strlit("none");
    assert("inline"@.len() == 6 && "inline-block"@.len() == 12 && "inline-flex"@.len() == 11);
    assert("block"@.len() == 5 && "flex"@.len() == 4 && "grid"@.len() == 4 && "none"@.len() == 4);
    assert("flex"@[0] == 'f' && "grid"@[0] == 'g' && "none"@[0] == 'n');
}

/// Scripts and styles are not displayed, phrases and controls stand on a line, and what is no known tag is
/// a block.
pub proof fn lemma_displays_of_tags(tag: Seq<char>)
    ensures
        default_display("script"@) is Absent,
        default_display("style"@) is Absent,
        default_display("head"@) is Absent,
        default_display("span"@).on_line(),
        default_display("a"@).on_line(),
        default_display("strong"@).on_line(),
        default_display("img"@).on_line(),
        default_display("button"@) is InlineBlock,
        default_display("input"@) is InlineBlock,
        tag.len() > 8 ==> default_display(tag) is Block,
        default_display("div"@) is Block,
        default_display("p"@) is Block,
{
    reveal_strlit("head");
    reveal_strlit("script");
    reveal_strlit("style");
    reveal_strlit("title");
    reveal_strlit("meta");
    reveal_strlit("link");
    reveal_strlit("template");
    reveal_strlit("noscript");
    reveal_strlit("a");
    reveal_strlit("abbr");
    reveal_strlit("b");
    reveal_strlit("br");
    reveal_strlit("canvas");
    reveal_strlit("code");
    reveal_strlit("em");
    reveal_strlit("i");
    reveal_strlit("iframe");
    reveal_strlit("img");
    reveal_strlit("label");
    reveal_strlit("small");
    reveal_strlit("span");
    reveal_strlit("strong");
    reveal_strlit("sub");
    reveal_strlit("sup");
    reveal_strlit("svg");
    reveal_strlit("u");
    reveal_strlit("video");
    reveal_strlit("button");
    reveal_strlit("input");
    reveal_strlit("select");
    reveal_strlit("textarea");
    reveal_strlit("div");
    reveal_strlit("p");
    assert("span"@.len() == 4 && "span"@[0] == 's' && "head"@[0] == 'h' && "meta"@[0] == 'm');
    assert("link"@[0] == 'l' && "a"@.len() == 1 && "strong"@.len() == 6 && "script"@.len() == 6);
    assert("strong"@[1] == 't' && "script"@[1] == 'c' && "img"@.len() == 3);
    assert("button"@.len() == 6 && "button"@[0] == 'b' && "canvas"@[0] == 'c' && "iframe"@[0] == 'i');
    assert("input"@.len() == 5 && "input"@[0] == 'i' && "style"@[0] == 's' && "title"@[0] == 't');
    assert("label"@[0] == 'l' && "small"@[0] == 's' && "video"@[0] == 'v' && "select"@[0] == 's');
    assert("div"@.len() == 3 && "div"@[0] == 'd' && "img"@[0] == 'i' && "sub"@[0] == 's');
    assert("sup"@[0] == 's' && "svg"@[0] == 's');
    assert("p"@.len() == 1 && "p"@[0] == 'p' && "a"@[0] == 'a' && "b"@[0] == 'b' && "i"@[0] == 'i'
        && "u"@[0] == 'u');
}

/// What is absolute or fixed leaves the flow, and only what is fixed is placed in the window. Everything
/// else stays in the flow, and what is not known is static.
pub proof fn lemma_words_for_position(word: Seq<char>, container: Size, window: Size)
    ensures
        position_of("absolute"@).leaves_flow() && position_of("fixed"@).leaves_flow(),
        !position_of("relative"@).leaves_flow() && !position_of("sticky"@).leaves_flow()
            && !position_of("static"@).leaves_flow(),
        frame_size(position_of("fixed"@), container, window) == window,
        frame_size(position_of("absolute"@), container, window) == container,
        position_of("static"@) is Static,
        !(position_of("relative"@) is Static) && !(position_of("sticky"@) is Static),
        position_of("relative"@) != position_of("sticky"@),
        word.len() > 8 ==> position_of(word) is Static,
{
    reveal_strlit("relative");
    reveal_strlit("absolute");
    reveal_strlit("fixed");
    reveal_strlit("sticky");
    reveal_strlit("static");
    assert("relative"@.len() == 8 && "absolute"@.len() == 8 && "relative"@[0] == 'r');
    assert("absolute"@[0] == 'a' && "fixed"@.len() == 5 && "sticky"@.len() == 6);
    assert("static"@.len() == 6 && "static"@[2] == 'a' && "sticky"@[2] == 'i');
}

/// Texts to the right leave nothing free behind their line, centred ones as much as in front, and any
/// others nothing in front.
pub proof fn lemma_words_for_alignment(
    boxes: Seq<BoxModel>,
    facts: Seq<MarginStyle>,
    row: Seq<usize>,
    width: i32,
    word: Seq<char>,
)
    requires
        row.len() > 0,
        forall|k: int|
            0 <= k < row.len() ==> (#[trigger] boxes[row[k] - 1]).rect.width <= i32::MAX,
        forall|k: int|
            0 <= k < row.len() ==> facts[(#[trigger] row[k]) - 1].text_align == align_of(word),
        widths_of(boxes, row) <= width,
        !facts[row[0] - 1].left_auto,
    ensures
        line_shift(boxes, facts, row, width) matches Some(shift) ==> {
            let behind = width - widths_of(boxes, row) - shift;
            &&& word == "right"@ ==> behind == 0
            &&& word == "center"@ ==> shift <= behind <= shift + 1
            &&& word == "left"@ ==> shift == 0
            &&& word.len() > 6 ==> shift == 0
        },
{
    reveal_strlit("right");
    reveal_strlit("center");
    reveal_strlit("left");
    assert("right"@.len() == 5 && "center"@.len() == 6 && "left"@.len() == 4);
    lemma_lines_are_aligned(boxes, facts, row, width, align_of(word));
}

/// The other words: what is hidden is not seen, what the pointer does not find has no events, items of a
/// column follow each other downwards, and only a solid border is drawn.
pub proof fn lemma_other_words(edges: Edges, size: i32, hex: u32, word: Seq<char>)
    requires
        size >= 0,
    ensures
        visibility_of("hidden"@) is Hidden,
        word != "hidden"@ ==> visibility_of(word) is Visible,
        pointer_events_of("none"@) is Absent,
        word != "none"@ ==> pointer_events_of(word) is Auto,
        main_margin(flex_direction_of("column"@), edges) == edges.top + edges.bottom,
        word != "column"@ ==> main_margin(flex_direction_of(word), edges) == edges.left + edges.right,
        border_side(
            border_style_of("solid"@),
            Some(size),
            StyleBackground::Hex(hex),
            StyleBackground::Hex(hex),
        ) is Some,
        word != "solid"@ ==> border_side(
            border_style_of(word),
            Some(size),
            StyleBackground::Hex(hex),
            StyleBackground::Hex(hex),
        ) is None,
{
}

proof fn lemma_slot_of_pixels(terms: Seq<CalcTerm>, k: usize, value: i32, context: SizeContext)
    requires
        k < terms.len(),
        terms[k as int] == CalcTerm::Size(SizeTerm::Px(value)) || terms[k as int] == CalcTerm::Solved(
            value,
        ),
    ensures
        slot_value(terms, CalcSlot::Term(k), context) == Ok::<Option<int>, CalcError>(
            Some(value as int),
        ),
{
    assert(size_value(SizeTerm::Px(value), context) == Ok::<Option<int>, CalcError>(
        Some(value as int),
    ));
    assert(term_value(terms[k as int], context) == Ok::<Option<int>, CalcError>(
        Some(value as int),
    ));
}

/// A calculation with one sign gives what the sign does with the two values.
pub proof fn lemma_one_sign(a: i32, b: i32, sign: StyleCalcOperator, context: SizeContext)
    requires
        -0x100_0000 < applied(sign, a as int, b as int) < 0x100_0000,
    ensures
        solved(
            seq![
                CalcTerm::Size(SizeTerm::Px(a)),
                CalcTerm::Operator(sign),
                CalcTerm::Size(SizeTerm::Px(b)),
            ],
            context,
        ) == Ok::<Option<int>, CalcError>(Some(applied(sign, a as int, b as int))),
{
    let terms = seq![
        CalcTerm::Size(SizeTerm::Px(a)),
        CalcTerm::Operator(sign),
        CalcTerm::Size(SizeTerm::Px(b)),
    ];
    let slots = all_slots(3);
    let value = applied(sign, a as int, b as int);
    lemma_small_numbers_are_exact(value);
    assert(slots[0] == CalcSlot::Term(0) && slots[1] == CalcSlot::Term(1) && slots[2]
        == CalcSlot::Term(2));
    assert(terms[0] == CalcTerm::Size(SizeTerm::Px(a)) && terms[1] == CalcTerm::Operator(sign)
        && terms[2] == CalcTerm::Size(SizeTerm::Px(b)));
    reveal_with_fuel(operator_from, 5);
    assert(next_operator(terms, slots) == 1);
    let after = spliced(slots, 1, value);
    assert(after =~= seq![CalcSlot::Solved(value as i32)]);
    lemma_slot_of_pixels(terms, 0, a, context);
    lemma_slot_of_pixels(terms, 2, b, context);
    assert(reduced(terms, after, context) == Ok::<Option<Seq<CalcSlot>>, CalcError>(Some(after)));
    assert(reduced(terms, slots, context) == Ok::<Option<Seq<CalcSlot>>, CalcError>(Some(after)));
    assert(single_value(terms, after) == Some(value));
    assert(terms[0] is Size);
    assert(has_unit(terms));
}

/// A product behind a sum is solved first: what is added is the product.
pub proof fn lemma_products_before_sums(a: i32, b: i32, c: i32, context: SizeContext)
    requires
        -0x100_0000 < b * c < 0x100_0000,
        -0x100_0000 < a + b * c < 0x100_0000,
    ensures
        solved(
            seq![
                CalcTerm::Size(SizeTerm::Px(a)),
                CalcTerm::Operator(StyleCalcOperator::Plus),
                CalcTerm::Size(SizeTerm::Px(b)),
                CalcTerm::Operator(StyleCalcOperator::Multiply),
                CalcTerm::Solved(c),
            ],
            context,
        ) == Ok::<Option<int>, CalcError>(Some(a + b * c)),
{
    let terms = seq![
        CalcTerm::Size(SizeTerm::Px(a)),
        CalcTerm::Operator(StyleCalcOperator::Plus),
        CalcTerm::Size(SizeTerm::Px(b)),
        CalcTerm::Operator(StyleCalcOperator::Multiply),
        CalcTerm::Solved(c),
    ];
    let slots = all_slots(5);
    let product = applied(StyleCalcOperator::Multiply, b as int, c as int);
    assert(product == b * c);
    lemma_small_numbers_are_exact(product);
    lemma_small_numbers_are_exact(a + product);
    assert(slots[0] == CalcSlot::Term(0) && slots[1] == CalcSlot::Term(1) && slots[2]
        == CalcSlot::Term(2) && slots[3] == CalcSlot::Term(3) && slots[4] == CalcSlot::Term(4));
    assert(terms[0] == CalcTerm::Size(SizeTerm::Px(a)) && terms[2] == CalcTerm::Size(
        SizeTerm::Px(b),
    ) && terms[4] == CalcTerm::Solved(c));
    assert(terms[1] == CalcTerm::Operator(StyleCalcOperator::Plus) && terms[3]
        == CalcTerm::Operator(StyleCalcOperator::Multiply));
    reveal_with_fuel(operator_from, 7);
    assert(next_operator(terms, slots) == 3);
    let between = spliced(slots, 3, product);
    assert(between =~= seq![
        CalcSlot::Term(0),
        CalcSlot::Term(1),
        CalcSlot::Solved(product as i32),
    ]);
    assert(next_operator(terms, between) == 1);
    let after = spliced(between, 1, a + product);
    assert(after =~= seq![CalcSlot::Solved((a + product) as i32)]);
    lemma_slot_of_pixels(terms, 0, a, context);
    lemma_slot_of_pixels(terms, 2, b, context);
    lemma_slot_of_pixels(terms, 4, c, context);
    assert(slot_value(terms, between[2], context) == Ok::<Option<int>, CalcError>(Some(product)));
    assert(reduced(terms, after, context) == Ok::<Option<Seq<CalcSlot>>, CalcError>(Some(after)));
    assert(reduced(terms, between, context) == reduced(terms, after, context));
    assert(reduced(terms, slots, context) == reduced(terms, between, context));
    assert(single_value(terms, after) == Some(a + product));
    assert(terms[0] is Size);
    assert(has_unit(terms));
}

/// The boxes of a line all go as far to the right as the line does, beyond what they have been moved, and
/// down together; where a box stands on the line once, it is moved once.
pub proof fn lemma_line_moves_together(
    boxes: Seq<BoxModel>,
    row: Seq<usize>,
    moved_already: Map<usize, i32>,
    give_x: u32,
    give_y: u32,
)
    requires
        row.len() == 1,
        is_box(boxes, row[0] as int),
        give_x <= i32::MAX,
        give_y <= i32::MAX,
    ensures
        line_moved(boxes, row, moved_already, give_x, give_y) matches Some(after) ==> {
            let before = boxes[row[0] - 1].rect;
            let rect = after[row[0] - 1].rect;
            &&& rect.x + moved_already[row[0]] == before.x + give_x
            &&& rect.y == before.y + give_y
            &&& rect.width == before.width && rect.height == before.height
        },
{
    assert(row.drop_last() =~= Seq::<usize>::empty());
    assert(row.last() == row[0]);
    reveal_with_fuel(line_moved, 2);
    lemma_shifted_box(boxes, row[0] as int, give_x - moved_already[row[0]], give_y as int);
}

/// A style says that a margin is automatic where it is written so, side by side.
pub proof fn lemma_automatic_margins(style: LayoutStyle)
    ensures
        margin_style(style).left_auto == style.margin.left is Auto,
        margin_style(style).right_auto == style.margin.right is Auto,
        margin_style(style).top_auto == style.margin.top is Auto,
        margin_style(style).bottom_auto == style.margin.bottom is Auto,
{
}

/// A line height in pixels is what it says; one that is not positive is none.
pub proof fn lemma_line_heights(value: i32, font: u32, window: Size)
    ensures
        value > 0 ==> line_height(SizeTerm::Px(value), font, window) == Ok::<Option<u32>, Stop>(
            Some(value as u32),
        ),
        value <= 0 ==> line_height(SizeTerm::Px(value), font, window) == Ok::<Option<u32>, Stop>(None),
{
}

/// Translations in pixels add up, across and down apart.
pub proof fn lemma_translations_add_up(
    operations: Seq<Translation>,
    font: u32,
    size: Size,
    window: Size,
    at: int,
    x: int,
    y: int,
    dx: i32,
    dy: i32,
)
    requires
        0 <= at < operations.len(),
        operations[at].x == SizeTerm::Px(dx),
        operations[at].y == SizeTerm::Px(dy),
        i32::MIN <= x + dx <= i32::MAX,
        i32::MIN <= y + dy <= i32::MAX,
    ensures
        translated_from(operations, font, size, window, at, x, y) == translated_from(
            operations,
            font,
            size,
            window,
            at + 1,
            x + dx,
            y + dy,
        ),
        translated_from(operations, font, size, window, operations.len() as int, x, y) == Ok::<
            (int, int),
            Stop,
        >((x, y)),
        translated(SizeTerm::Auto, font, size.width, window) == Ok::<i32, Stop>(0),
{
}

/// A value is found under its name, and of several under one name the last.
pub proof fn lemma_values_are_found(
    known: AttributesModel,
    pairs: Seq<(Seq<char>, Seq<char>)>,
    name: Seq<char>,
    value: Seq<char>,
    other: Seq<char>,
)
    requires
        names_distinct(known),
    ensures
        lookup(with_values(known, pairs.push((name, value))), name) == Some(value),
        other != name ==> lookup(with_values(known, pairs.push((name, value))), other) == lookup(
            with_values(known, pairs),
            other,
        ),
        with_values(known, Seq::empty()) == known,
{
    lemma_values_are_distinct(known, pairs);
    assert(pairs.push((name, value)).drop_last() =~= pairs);
    lemma_set_value_is_read_back(with_values(known, pairs), name, value, other);
}

proof fn lemma_values_are_distinct(known: AttributesModel, pairs: Seq<(Seq<char>, Seq<char>)>)
    requires
        names_distinct(known),
    ensures
        names_distinct(with_values(known, pairs)),
    decreases pairs.len(),
{
    if pairs.len() > 0 {
        let less = pairs.drop_last();
        lemma_values_are_distinct(known, less);
        lemma_set_value_is_read_back(
            with_values(known, less),
            pairs.last().0,
            pairs.last().1,
            pairs.last().0,
        );
    }
}

/// A style sheet that was read is not read again; one of the page itself is read at once, and one behind a
/// link is fetched.
pub proof fn lemma_sheets_are_read_once(
    known: Seq<ExpandableModel>,
    list: Seq<ExpandableModel>,
    count: nat,
)
    requires
        0 < count <= list.len(),
    ensures
        ({
            let (steps, after) = planned(known, list, count);
            let (before_steps, before) = planned(known, list, (count - 1) as nat);
            let source = list[count - 1];
            &&& steps.drop_last() == before_steps
            &&& before.contains(source) && before.len() <= usize::MAX ==> after == before && (steps.last()
                matches SheetStep::Known(place) && place < before.len() && before[place as int]
                == source)
            &&& !before.contains(source) && source is Link ==> steps.last() is Fetch && after == before
            &&& !before.contains(source) && source is Inline ==> steps.last() is Parse && after
                == before.push(source)
        }),
{
    let (before_steps, before) = planned(known, list, (count - 1) as nat);
    lemma_source_from(before, list[count - 1], 0);
    let steps = planned(known, list, count).0;
    assert(steps.drop_last() =~= before_steps);
    if before.contains(list[count - 1]) {
        let k = choose|k: int| 0 <= k < before.len() && before[k] == list[count - 1];
        assert(before[k] == list[count - 1]);
    }
}

proof fn lemma_source_from(known: Seq<ExpandableModel>, source: ExpandableModel, from: int)
    requires
        0 <= from <= known.len(),
    ensures
        (source_from(known, source, from) matches Some(place) && known.len() <= usize::MAX) ==> {
            let place = source_from(known, source, from)->0;
            from <= place < known.len() && known[place as int] == source
        },
        source_from(known, source, from) is None <==> forall|k: int|
            from <= k < known.len() ==> #[trigger] known[k] != source,
    decreases known.len() - from,
{
    if from < known.len() && known[from] != source {
        lemma_source_from(known, source, from + 1);
    }
}

} // verus!
