//! What a computed style promises: each value stands under the name of its property.
use vstd::prelude::*;

use crate::computed::corners_values;
use crate::computed::edges_values;
use crate::computed::flow_values;
use crate::computed::looks_values;
use crate::computed::place_values;
use crate::computed::sizes_values;
use crate::computed::style_values;
use crate::computed::text_values;
use crate::computed::StyleTexts;

verus! {

/// What a group of properties gives is in the whole style.
proof fn lemma_every_group_is_told(style: StyleTexts)
    ensures
        forall|p: (Seq<char>, Seq<char>)| #[trigger]
            sizes_values(style).contains(p) ==> style_values(style).contains(p),
        forall|p: (Seq<char>, Seq<char>)| #[trigger]
            looks_values(style).contains(p) ==> style_values(style).contains(p),
        forall|p: (Seq<char>, Seq<char>)| #[trigger]
            flow_values(style).contains(p) ==> style_values(style).contains(p),
        forall|p: (Seq<char>, Seq<char>)| #[trigger]
            edges_values(style).contains(p) ==> style_values(style).contains(p),
        forall|p: (Seq<char>, Seq<char>)| #[trigger]
            place_values(style).contains(p) ==> style_values(style).contains(p),
        forall|p: (Seq<char>, Seq<char>)| #[trigger]
            corners_values(style).contains(p) ==> style_values(style).contains(p),
        forall|p: (Seq<char>, Seq<char>)| #[trigger]
            text_values(style).contains(p) ==> style_values(style).contains(p),
{
    let all = style_values(style);
    assert forall|p: (Seq<char>, Seq<char>)| #[trigger] sizes_values(style).contains(p) implies all.contains(
        p,
    ) by {
        let k = choose|k: int| 0 <= k < sizes_values(style).len() && sizes_values(style)[k] == p;
        assert(all[0 + k] == p);
    }
    assert forall|p: (Seq<char>, Seq<char>)| #[trigger] looks_values(style).contains(p) implies all.contains(
        p,
    ) by {
        let k = choose|k: int| 0 <= k < looks_values(style).len() && looks_values(style)[k] == p;
        assert(all[sizes_values(style).len() + k] == p);
    }
    assert forall|p: (Seq<char>, Seq<char>)| #[trigger] flow_values(style).contains(p) implies all.contains(
        p,
    ) by {
        let k = choose|k: int| 0 <= k < flow_values(style).len() && flow_values(style)[k] == p;
        assert(all[sizes_values(style).len() + looks_values(style).len() + k] == p);
    }
    assert forall|p: (Seq<char>, Seq<char>)| #[trigger] edges_values(style).contains(p) implies all.contains(
        p,
    ) by {
        let k = choose|k: int| 0 <= k < edges_values(style).len() && edges_values(style)[k] == p;
        assert(all[sizes_values(style).len() + looks_values(style).len() + flow_values(style).len() + k] == p);
    }
    assert forall|p: (Seq<char>, Seq<char>)| #[trigger] place_values(style).contains(p) implies all.contains(
        p,
    ) by {
        let k = choose|k: int| 0 <= k < place_values(style).len() && place_values(style)[k] == p;
        assert(all[sizes_values(style).len() + looks_values(style).len() + flow_values(style).len() + edges_values(style).len() + k] == p);
    }
    assert forall|p: (Seq<char>, Seq<char>)| #[trigger] corners_values(style).contains(p) implies all.contains(
        p,
    ) by {
        let k = choose|k: int| 0 <= k < corners_values(style).len() && corners_values(style)[k] == p;
        assert(all[sizes_values(style).len() + looks_values(style).len() + flow_values(style).len() + edges_values(style).len() + place_values(style).len() + k] == p);
    }
    assert forall|p: (Seq<char>, Seq<char>)| #[trigger] text_values(style).contains(p) implies all.contains(
        p,
    ) by {
        let k = choose|k: int| 0 <= k < text_values(style).len() && text_values(style)[k] == p;
        assert(all[sizes_values(style).len() + looks_values(style).len() + flow_values(style).len() + edges_values(style).len() + place_values(style).len() + corners_values(style).len() + k] == p);
    }
}

/// A computed style gives the sides of the box under the names of the properties.
pub proof fn lemma_sizes_are_named(style: StyleTexts)
    ensures
        style_values(style).contains(("width"@, style.width@)),
        style_values(style).contains(("height"@, style.height@)),
        style_values(style).contains(("min-width"@, style.min_width@)),
        style_values(style).contains(("max-width"@, style.max_width@)),
        style_values(style).contains(("min-height"@, style.min_height@)),
        style_values(style).contains(("max-height"@, style.max_height@)),
{
    lemma_every_group_is_told(style);
    assert(sizes_values(style).contains(sizes_values(style)[0]));
    assert(sizes_values(style).contains(sizes_values(style)[1]));
    assert(sizes_values(style).contains(sizes_values(style)[2]));
    assert(sizes_values(style).contains(sizes_values(style)[3]));
    assert(sizes_values(style).contains(sizes_values(style)[4]));
    assert(sizes_values(style).contains(sizes_values(style)[5]));
}

/// A computed style gives how it looks under the names of the properties.
pub proof fn lemma_looks_are_named(style: StyleTexts)
    ensures
        style_values(style).contains(("background-color"@, style.background_color@)),
        style_values(style).contains(("background-image"@, style.background_image@)),
        style_values(style).contains(("color"@, style.color@)),
        style_values(style).contains(("opacity"@, style.opacity@)),
        style_values(style).contains(("visibility"@, style.visibility@)),
        style_values(style).contains(("transform"@, style.transform@)),
        style_values(style).contains(("pointer-events"@, style.pointer_events@)),
        style_values(style).contains(("overflow-x"@, style.overflow_x@)),
        style_values(style).contains(("overflow-y"@, style.overflow_y@)),
        style_values(style).contains(("z-index"@, style.z_index@)),
{
    lemma_every_group_is_told(style);
    assert(looks_values(style).contains(looks_values(style)[0]));
    assert(looks_values(style).contains(looks_values(style)[1]));
    assert(looks_values(style).contains(looks_values(style)[2]));
    assert(looks_values(style).contains(looks_values(style)[3]));
    assert(looks_values(style).contains(looks_values(style)[4]));
    assert(looks_values(style).contains(looks_values(style)[5]));
    assert(looks_values(style).contains(looks_values(style)[6]));
    assert(looks_values(style).contains(looks_values(style)[7]));
    assert(looks_values(style).contains(looks_values(style)[8]));
    assert(looks_values(style).contains(looks_values(style)[9]));
}

/// A computed style gives how its children stand under the names of the properties.
pub proof fn lemma_flow_are_named(style: StyleTexts)
    ensures
        style_values(style).contains(("display"@, style.display@)),
        style_values(style).contains(("flex-grow"@, style.flex_grow@)),
        style_values(style).contains(("flex-shrink"@, style.flex_shrink@)),
        style_values(style).contains(("flex-basis"@, style.flex_basis@)),
        style_values(style).contains(("order"@, style.order@)),
        style_values(style).contains(("justify-content"@, style.justify_content@)),
        style_values(style).contains(("justify-items"@, style.justify_items@)),
        style_values(style).contains(("align-items"@, style.align_items@)),
        style_values(style).contains(("align-self"@, style.align_self@)),
        style_values(style).contains(("flex-direction"@, style.flex_direction@)),
        style_values(style).contains(("gap"@, style.gap@)),
{
    lemma_every_group_is_told(style);
    assert(flow_values(style).contains(flow_values(style)[0]));
    assert(flow_values(style).contains(flow_values(style)[1]));
    assert(flow_values(style).contains(flow_values(style)[2]));
    assert(flow_values(style).contains(flow_values(style)[3]));
    assert(flow_values(style).contains(flow_values(style)[4]));
    assert(flow_values(style).contains(flow_values(style)[5]));
    assert(flow_values(style).contains(flow_values(style)[6]));
    assert(flow_values(style).contains(flow_values(style)[7]));
    assert(flow_values(style).contains(flow_values(style)[8]));
    assert(flow_values(style).contains(flow_values(style)[9]));
    assert(flow_values(style).contains(flow_values(style)[10]));
}

/// A computed style gives its margins and paddings under the names of the properties.
pub proof fn lemma_edges_are_named(style: StyleTexts)
    ensures
        style_values(style).contains(("margin-left"@, style.margin.left@)),
        style_values(style).contains(("margin-right"@, style.margin.right@)),
        style_values(style).contains(("margin-top"@, style.margin.top@)),
        style_values(style).contains(("margin-bottom"@, style.margin.bottom@)),
        style_values(style).contains(("padding-left"@, style.padding.left@)),
        style_values(style).contains(("padding-right"@, style.padding.right@)),
        style_values(style).contains(("padding-top"@, style.padding.top@)),
        style_values(style).contains(("padding-bottom"@, style.padding.bottom@)),
{
    lemma_every_group_is_told(style);
    assert(edges_values(style).contains(edges_values(style)[0]));
    assert(edges_values(style).contains(edges_values(style)[1]));
    assert(edges_values(style).contains(edges_values(style)[2]));
    assert(edges_values(style).contains(edges_values(style)[3]));
    assert(edges_values(style).contains(edges_values(style)[4]));
    assert(edges_values(style).contains(edges_values(style)[5]));
    assert(edges_values(style).contains(edges_values(style)[6]));
    assert(edges_values(style).contains(edges_values(style)[7]));
}

/// A computed style gives where it stands under the names of the properties.
pub proof fn lemma_place_are_named(style: StyleTexts)
    ensures
        style_values(style).contains(("position"@, style.position@)),
        style_values(style).contains(("left"@, style.inset.left@)),
        style_values(style).contains(("right"@, style.inset.right@)),
        style_values(style).contains(("top"@, style.inset.top@)),
        style_values(style).contains(("bottom"@, style.inset.bottom@)),
{
    lemma_every_group_is_told(style);
    assert(place_values(style).contains(place_values(style)[0]));
    assert(place_values(style).contains(place_values(style)[1]));
    assert(place_values(style).contains(place_values(style)[2]));
    assert(place_values(style).contains(place_values(style)[3]));
    assert(place_values(style).contains(place_values(style)[4]));
}

/// A computed style gives its corners under the names of the properties.
pub proof fn lemma_corners_are_named(style: StyleTexts)
    ensures
        style_values(style).contains(("border-top-left-radius"@, style.radius_top_left@)),
        style_values(style).contains(("border-top-right-radius"@, style.radius_top_right@)),
        style_values(style).contains(("border-bottom-right-radius"@, style.radius_bottom_right@)),
        style_values(style).contains(("border-bottom-left-radius"@, style.radius_bottom_left@)),
{
    lemma_every_group_is_told(style);
    assert(corners_values(style).contains(corners_values(style)[0]));
    assert(corners_values(style).contains(corners_values(style)[1]));
    assert(corners_values(style).contains(corners_values(style)[2]));
    assert(corners_values(style).contains(corners_values(style)[3]));
}

/// A computed style gives its text under the names of the properties.
pub proof fn lemma_text_are_named(style: StyleTexts)
    ensures
        style_values(style).contains(("text-align"@, style.text_align@)),
        style_values(style).contains(("font-size"@, style.font_size@)),
        style.line_height matches Some(height) ==> style_values(style).contains(
            ("line-height"@, height@),
        ),
        style.line_height is None ==> style_values(style).contains(("line-height"@, "normal"@)),
{
    lemma_every_group_is_told(style);
    assert(text_values(style).contains(text_values(style)[0]));
    assert(text_values(style).contains(text_values(style)[1]));
    assert(text_values(style).contains(text_values(style)[2]));
}

/// The width, the color and the style of each border stand under the name of its side.
pub proof fn lemma_borders_are_named(style: StyleTexts)
    ensures
        style_values(style).contains(("border-"@ + "left"@ + "-width"@, style.border_left.width@)),
        style_values(style).contains(("border-"@ + "left"@ + "-color"@, style.border_left.color@)),
        style_values(style).contains(("border-"@ + "left"@ + "-style"@, style.border_left.style@)),
        style_values(style).contains(("border-"@ + "top"@ + "-width"@, style.border_top.width@)),
        style_values(style).contains(("border-"@ + "top"@ + "-color"@, style.border_top.color@)),
        style_values(style).contains(("border-"@ + "top"@ + "-style"@, style.border_top.style@)),
        style_values(style).contains(
            ("border-"@ + "right"@ + "-width"@, style.border_right.width@),
        ),
        style_values(style).contains(
            ("border-"@ + "right"@ + "-color"@, style.border_right.color@),
        ),
        style_values(style).contains(
            ("border-"@ + "right"@ + "-style"@, style.border_right.style@),
        ),
        style_values(style).contains(
            ("border-"@ + "bottom"@ + "-width"@, style.border_bottom.width@),
        ),
        style_values(style).contains(
            ("border-"@ + "bottom"@ + "-color"@, style.border_bottom.color@),
        ),
        style_values(style).contains(
            ("border-"@ + "bottom"@ + "-style"@, style.border_bottom.style@),
        ),
{
    let all = style_values(style);
    let before = (sizes_values(style).len() + looks_values(style).len() + flow_values(style).len()
        + edges_values(style).len() + place_values(style).len() + corners_values(style).len() + text_values(style).len()) as int;
    assert(all[before + 0] == ("border-"@ + "left"@ + "-width"@, style.border_left.width@));
    assert(all[before + 1] == ("border-"@ + "left"@ + "-color"@, style.border_left.color@));
    assert(all[before + 2] == ("border-"@ + "left"@ + "-style"@, style.border_left.style@));
    assert(all[before + 3] == ("border-"@ + "top"@ + "-width"@, style.border_top.width@));
    assert(all[before + 4] == ("border-"@ + "top"@ + "-color"@, style.border_top.color@));
    assert(all[before + 5] == ("border-"@ + "top"@ + "-style"@, style.border_top.style@));
    assert(all[before + 6] == ("border-"@ + "right"@ + "-width"@, style.border_right.width@));
    assert(all[before + 7] == ("border-"@ + "right"@ + "-color"@, style.border_right.color@));
    assert(all[before + 8] == ("border-"@ + "right"@ + "-style"@, style.border_right.style@));
    assert(all[before + 9] == ("border-"@ + "bottom"@ + "-width"@, style.border_bottom.width@));
    assert(all[before + 10] == ("border-"@ + "bottom"@ + "-color"@, style.border_bottom.color@));
    assert(all[before + 11] == ("border-"@ + "bottom"@ + "-style"@, style.border_bottom.style@));
}

} // verus!
