//! The words that declarations are written with.
use vstd::prelude::*;

use crate::boxes::StyleBorderStyle;
use crate::flex::StyleFlexDirection;
use crate::flex::StyleJustifyContent;
use crate::margins::StyleAlign;
use crate::numbers::parse_unsigned;
use crate::numbers::unsigned_value;
use crate::paint::StylePosition;
use crate::stylesheet::StyleDisplay;
use crate::stylesheet::StylePointerEvents;
use crate::stylesheet::StyleVisibility;
use crate::text::same_text;
use crate::text::to_chars;

verus! {

/// How a word says that an element is displayed; nothing for any other text.
pub open spec fn display_of(text: Seq<char>) -> Option<StyleDisplay> {
    if text == "block"@ {
        Some(StyleDisplay::Block)
    } else if text == "inline-block"@ {
        Some(StyleDisplay::InlineBlock)
    } else if text == "inline"@ {
        Some(StyleDisplay::Inline)
    } else if text == "flex"@ {
        Some(StyleDisplay::Flex)
    } else if text == "inline-flex"@ {
        Some(StyleDisplay::InlineFlex)
    } else if text == "grid"@ {
        Some(StyleDisplay::Grid)
    } else if text == "none"@ {
        Some(StyleDisplay::Absent)
    } else {
        None
    }
}

pub fn parse_display(text: &str) -> (r: Option<StyleDisplay>)
    ensures
        r == display_of(text@),
{
    if same_text(text, "block") {
        Some(StyleDisplay::Block)
    } else if same_text(text, "inline-block") {
        Some(StyleDisplay::InlineBlock)
    } else if same_text(text, "inline") {
        Some(StyleDisplay::Inline)
    } else if same_text(text, "flex") {
        Some(StyleDisplay::Flex)
    } else if same_text(text, "inline-flex") {
        Some(StyleDisplay::InlineFlex)
    } else if same_text(text, "grid") {
        Some(StyleDisplay::Grid)
    } else if same_text(text, "none") {
        Some(StyleDisplay::Absent)
    } else {
        None
    }
}

/// How elements of a tag are displayed where no declaration says otherwise.
pub open spec fn default_display(text: Seq<char>) -> StyleDisplay {
    if text == "head"@ || text == "script"@ || text == "style"@ || text == "title"@ || text == "meta"@ || text == "link"@ || text == "template"@ || text == "noscript"@ {
        StyleDisplay::Absent
    } else if text == "a"@ || text == "abbr"@ || text == "b"@ || text == "br"@ || text == "canvas"@ || text == "code"@ || text == "em"@ || text == "i"@ || text == "iframe"@ || text == "img"@ || text == "label"@ || text == "small"@ || text == "span"@ || text == "strong"@ || text == "sub"@ || text == "sup"@ || text == "svg"@ || text == "u"@ || text == "video"@ {
        StyleDisplay::Inline
    } else if text == "button"@ || text == "input"@ || text == "select"@ || text == "textarea"@ {
        StyleDisplay::InlineBlock
    } else {
        StyleDisplay::Block
    }
}

pub fn get_default_display(text: &str) -> (r: StyleDisplay)
    ensures
        r == default_display(text@),
{
    if same_text(text, "head") || same_text(text, "script") || same_text(text, "style") || same_text(text, "title") || same_text(text, "meta") || same_text(text, "link") || same_text(text, "template") || same_text(text, "noscript") {
        StyleDisplay::Absent
    } else if same_text(text, "a") || same_text(text, "abbr") || same_text(text, "b") || same_text(text, "br") || same_text(text, "canvas") || same_text(text, "code") || same_text(text, "em") || same_text(text, "i") || same_text(text, "iframe") || same_text(text, "img") || same_text(text, "label") || same_text(text, "small") || same_text(text, "span") || same_text(text, "strong") || same_text(text, "sub") || same_text(text, "sup") || same_text(text, "svg") || same_text(text, "u") || same_text(text, "video") {
        StyleDisplay::Inline
    } else if same_text(text, "button") || same_text(text, "input") || same_text(text, "select") || same_text(text, "textarea") {
        StyleDisplay::InlineBlock
    } else {
        StyleDisplay::Block
    }
}

/// How a word says that free space is divided.
pub open spec fn justify_of(text: Seq<char>) -> StyleJustifyContent {
    if text == "flex-start"@ || text == "start"@ {
        StyleJustifyContent::FlexStart
    } else if text == "flex-end"@ || text == "end"@ {
        StyleJustifyContent::FlexEnd
    } else if text == "center"@ {
        StyleJustifyContent::Center
    } else if text == "space-between"@ {
        StyleJustifyContent::SpaceBetween
    } else if text == "space-around"@ {
        StyleJustifyContent::SpaceAround
    } else if text == "space-evenly"@ {
        StyleJustifyContent::SpaceEvenly
    } else if text == "stretch"@ {
        StyleJustifyContent::Stretch
    } else {
        StyleJustifyContent::Auto
    }
}

pub fn parse_justify(text: &str) -> (r: StyleJustifyContent)
    ensures
        r == justify_of(text@),
{
    if same_text(text, "flex-start") || same_text(text, "start") {
        StyleJustifyContent::FlexStart
    } else if same_text(text, "flex-end") || same_text(text, "end") {
        StyleJustifyContent::FlexEnd
    } else if same_text(text, "center") {
        StyleJustifyContent::Center
    } else if same_text(text, "space-between") {
        StyleJustifyContent::SpaceBetween
    } else if same_text(text, "space-around") {
        StyleJustifyContent::SpaceAround
    } else if same_text(text, "space-evenly") {
        StyleJustifyContent::SpaceEvenly
    } else if same_text(text, "stretch") {
        StyleJustifyContent::Stretch
    } else {
        StyleJustifyContent::Auto
    }
}

/// How a word says that a box takes part in the flow.
pub open spec fn position_of(text: Seq<char>) -> StylePosition {
    if text == "relative"@ {
        StylePosition::Relative
    } else if text == "absolute"@ {
        StylePosition::Absolute
    } else if text == "fixed"@ {
        StylePosition::Fixed
    } else if text == "sticky"@ {
        StylePosition::Sticky
    } else {
        StylePosition::Static
    }
}

pub fn parse_position(text: &str) -> (r: StylePosition)
    ensures
        r == position_of(text@),
{
    if same_text(text, "relative") {
        StylePosition::Relative
    } else if same_text(text, "absolute") {
        StylePosition::Absolute
    } else if same_text(text, "fixed") {
        StylePosition::Fixed
    } else if same_text(text, "sticky") {
        StylePosition::Sticky
    } else {
        StylePosition::Static
    }
}

/// How a word says that text is aligned.
pub open spec fn align_of(text: Seq<char>) -> StyleAlign {
    if text == "center"@ {
        StyleAlign::Center
    } else if text == "right"@ {
        StyleAlign::Right
    } else {
        StyleAlign::Left
    }
}

pub fn parse_align(text: &str) -> (r: StyleAlign)
    ensures
        r == align_of(text@),
{
    if same_text(text, "center") {
        StyleAlign::Center
    } else if same_text(text, "right") {
        StyleAlign::Right
    } else {
        StyleAlign::Left
    }
}

/// How a word says whether a box is seen.
pub open spec fn visibility_of(text: Seq<char>) -> StyleVisibility {
    if text == "hidden"@ {
        StyleVisibility::Hidden
    } else {
        StyleVisibility::Visible
    }
}

pub fn parse_visibility(text: &str) -> (r: StyleVisibility)
    ensures
        r == visibility_of(text@),
{
    if same_text(text, "hidden") {
        StyleVisibility::Hidden
    } else {
        StyleVisibility::Visible
    }
}

/// How a word says whether the pointer finds a box.
pub open spec fn pointer_events_of(text: Seq<char>) -> StylePointerEvents {
    if text == "none"@ {
        StylePointerEvents::Absent
    } else {
        StylePointerEvents::Auto
    }
}

pub fn parse_pointer_events(text: &str) -> (r: StylePointerEvents)
    ensures
        r == pointer_events_of(text@),
{
    if same_text(text, "none") {
        StylePointerEvents::Absent
    } else {
        StylePointerEvents::Auto
    }
}

/// How a word says in which direction items follow each other.
pub open spec fn flex_direction_of(text: Seq<char>) -> StyleFlexDirection {
    if text == "column"@ {
        StyleFlexDirection::Column
    } else {
        StyleFlexDirection::Row
    }
}

pub fn parse_flex_direction(text: &str) -> (r: StyleFlexDirection)
    ensures
        r == flex_direction_of(text@),
{
    if same_text(text, "column") {
        StyleFlexDirection::Column
    } else {
        StyleFlexDirection::Row
    }
}

/// How a word says that a border is drawn.
pub open spec fn border_style_of(text: Seq<char>) -> StyleBorderStyle {
    if text == "solid"@ {
        StyleBorderStyle::Solid
    } else {
        StyleBorderStyle::Absent
    }
}

pub fn parse_border_style(text: &str) -> (r: StyleBorderStyle)
    ensures
        r == border_style_of(text@),
{
    if same_text(text, "solid") {
        StyleBorderStyle::Solid
    } else {
        StyleBorderStyle::Absent
    }
}

/// The colour that six hexadecimal digits behind a number sign write, which is opaque, or eight, the
/// last two of which are its opacity; nothing for any other text.
pub open spec fn color_of(text: Seq<char>) -> Option<u32> {
    if text.len() == 0 || text[0] != '#' || (text.len() > 1 && text[1] == '+') {
        None
    } else if text.len() == 7 {
        match unsigned_value(text.subrange(1, 7), 16, 0xff_ffff) {
            Some(value) => Some((value * 256 + 255) as u32),
            None => None,
        }
    } else if text.len() == 9 {
        match unsigned_value(text.subrange(1, 9), 16, u32::MAX as int) {
            Some(value) => Some(value as u32),
            None => None,
        }
    } else {
        None
    }
}

pub fn parse_hex_color(text: &str) -> (r: Option<u32>)
    ensures
        r == color_of(text@),
{
    let chars = to_chars(text);
    if chars.len() == 0 || chars[0] != '#' || (chars.len() > 1 && chars[1] == '+') {
        return None;
    }
    if chars.len() == 7 {
        match parse_unsigned(&chars, 1, 7, 16, 0xff_ffff) {
            Some(value) => Some((value * 256 + 255) as u32),
            None => None,
        }
    } else if chars.len() == 9 {
        match parse_unsigned(&chars, 1, 9, 16, u32::MAX as u64) {
            Some(value) => Some(value as u32),
            None => None,
        }
    } else {
        None
    }
}

} // verus!
