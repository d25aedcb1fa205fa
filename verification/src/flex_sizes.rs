//! The main sizes of flex items: how much is too much or left over, and which part of it each
//! item gets. Sums go through single precision.
use vstd::prelude::*;

use crate::calc::lemma_single_bound;
use crate::calc::round_to_single;
use crate::calc::to_single;
use crate::flex::StyleFlexDirection;
use crate::lengths::Stop;
use crate::needs::Answer;
use crate::needs::Answers;
use crate::needs::FlexTarget;
use crate::needs::Need;
use crate::raster::max2;
use crate::raster::min2;

verus! {

/// A flex item with the size that it wants.
#[derive(Debug, Clone, Copy, PartialEq, Eq, Structural)]
pub struct FlexBase {
    pub node_idx: usize,
    /// The size along the main axis.
    pub base: i64,
    pub max: i64,
    /// The margins along the main axis.
    pub margin: i32,
    /// The size across the main axis.
    pub cross: i64,
    pub max_cross: i64,
    /// Whether the item is stretched across the main axis.
    pub stretch: bool,
    pub shrink: u32,
    pub grow: u32,
}

/// Two sizes in single precision, of which the smaller counts.
pub open spec fn held(size: u32, max: i32) -> int {
    min2(to_single(size as int), to_single(max as int))
}

impl FlexBase {
    pub open spec fn wf(self) -> bool {
        -0x8000_0000 <= self.base <= 0x8000_0000
    }

    pub fn new(
        node_idx: usize,
        size: u32,
        max: i32,
        margin: i32,
        cross: u32,
        max_cross: i32,
        stretch: bool,
        shrink: u32,
        grow: u32,
    ) -> (r: FlexBase)
        ensures
            r.wf(),
            r == (FlexBase {
                node_idx,
                base: held(size, max) as i64,
                max: to_single(max as int) as i64,
                margin,
                cross: held(cross, max_cross) as i64,
                max_cross: to_single(max_cross as int) as i64,
                stretch,
                shrink,
                grow,
            }),
    {
        proof {
            lemma_single_bound(size as int);
            lemma_single_bound(max as int);
            lemma_single_bound(cross as int);
            lemma_single_bound(max_cross as int);
        }
        let single_size: i128 = round_to_single(size as i128);
        let single_max: i128 = round_to_single(max as i128);
        let single_cross: i128 = round_to_single(cross as i128);
        let single_max_cross: i128 = round_to_single(max_cross as i128);
        FlexBase {
            node_idx,
            base: if single_size < single_max {
                single_size as i64
            } else {
                single_max as i64
            },
            max: single_max as i64,
            margin,
            cross: if single_cross < single_max_cross {
                single_cross as i64
            } else {
                single_max_cross as i64
            },
            max_cross: single_max_cross as i64,
            stretch,
            shrink,
            grow,
        }
    }
}

/// Whether a sum stays where it can be worked with.
pub open spec fn moderate(value: int) -> bool {
    -0x2000_0000_0000_0000 <= value <= 0x2000_0000_0000_0000
}

fn is_moderate(value: i128) -> (r: bool)
    ensures
        r == moderate(value as int),
{
    -0x2000_0000_0000_0000 <= value && value <= 0x2000_0000_0000_0000
}

/// The main size of an item with its margins.
pub open spec fn outer_size(item: FlexBase) -> int {
    to_single(item.base + to_single(item.margin as int))
}

fn get_outer_size(item: &FlexBase) -> (r: i128)
    requires
        item.wf(),
    ensures
        r == outer_size(*item),
        -0x1_ffff_ffff_ffff_ffff <= r <= 0x1_ffff_ffff_ffff_ffff,
{
    proof {
        lemma_single_bound(item.margin as int);
    }
    let margin: i128 = round_to_single(item.margin as i128);
    round_to_single(item.base as i128 + margin)
}

/// What the items from a place on add to a sum of main sizes with margins.
pub open spec fn outer_from(items: Seq<FlexBase>, at: int, sum: int) -> Option<int>
    decreases items.len() - at,
{
    if at < 0 || at >= items.len() {
        Some(sum)
    } else {
        let next = sum + outer_size(items[at]);
        if moderate(next) {
            outer_from(items, at + 1, to_single(next))
        } else {
            None
        }
    }
}

/// The main sizes of all items with their margins; nothing where they add up to more than can be
/// worked with.
pub fn total_outer(items: &Vec<FlexBase>) -> (r: Option<i64>)
    requires
        forall|i: int| 0 <= i < items@.len() ==> (#[trigger] items@[i]).wf(),
    ensures
        match (r, outer_from(items@, 0, 0)) {
            (Some(sum), Some(total)) => sum == total,
            (None, None) => true,
            _ => false,
        },
        r matches Some(sum) ==> -0x4000_0000_0000_0000 <= sum <= 0x4000_0000_0000_0000,
{
    let mut sum: i128 = 0;
    let mut at: usize = 0;
    while at < items.len()
        invariant
            at <= items@.len(),
            forall|i: int| 0 <= i < items@.len() ==> (#[trigger] items@[i]).wf(),
            outer_from(items@, 0, 0) == outer_from(items@, at as int, sum as int),
            -0x4000_0000_0000_0000 <= sum <= 0x4000_0000_0000_0000,
        decreases items@.len() - at,
    {
        let outer: i128 = get_outer_size(&items[at]);
        let next: i128 = sum + outer;
        if !is_moderate(next) {
            return None;
        }
        proof {
            lemma_single_moderate(next as int);
        }
        sum = round_to_single(next);
        at = at + 1;
    }
    Some(sum as i64)
}

proof fn lemma_single_moderate(value: int)
    requires
        -0x3000_0000_0000_0000 <= value <= 0x3000_0000_0000_0000,
    ensures
        -0x6000_0000_0000_0001 <= to_single(value) <= 0x6000_0000_0000_0001,
        moderate(value) ==> -0x4000_0000_0000_0000 <= to_single(value) <= 0x4000_0000_0000_0000,
        0 <= value ==> 0 <= to_single(value),
{
    let magnitude = if value < 0 {
        -value
    } else {
        value
    };
    lemma_rounding(magnitude);
}

proof fn lemma_single_large(value: int)
    requires
        -0x4000_0001_0000_0000 <= value <= 0x4000_0001_0000_0000,
    ensures
        -0x7fff_ffff_ffff_ffff <= to_single(value) <= 0x7fff_ffff_ffff_ffff,
{
    let magnitude = if value < 0 {
        -value
    } else {
        value
    };
    lemma_rounding(magnitude);
    lemma_unit_small(magnitude);
}

/// The distance of neighbouring numbers is far smaller than the numbers.
proof fn lemma_unit_small(magnitude: int)
    requires
        0 <= magnitude,
    ensures
        crate::calc::single_unit(magnitude) == 1 || crate::calc::single_unit(magnitude) * 0x80_0000
            <= magnitude,
    decreases magnitude,
{
    if magnitude >= 0x100_0000 {
        lemma_unit_small(magnitude / 2);
    }
}

proof fn lemma_rounding(magnitude: int)
    requires
        0 <= magnitude,
    ensures
        0 <= to_single(magnitude) <= 2 * magnitude,
        to_single(magnitude) <= magnitude + crate::calc::single_unit(magnitude),
{
    let unit = crate::calc::single_unit(magnitude);
    crate::calc::lemma_single_unit(magnitude);
    let whole = magnitude / unit;
    let rest = magnitude % unit;
    vstd::arithmetic::div_mod::lemma_fundamental_div_mod(magnitude, unit);
    assert(whole * unit == unit * whole) by (nonlinear_arith);
    assert((whole + 1) * unit == whole * unit + unit) by (nonlinear_arith);
    if magnitude == 0 {
        assert(unit == 1);
    }
    assert(0 <= whole * unit) by (nonlinear_arith)
        requires
            0 <= whole,
            1 <= unit,
    ;
}

/// How much of what is too much an item gives up, before it is set against the other items.
pub open spec fn scaled_shrink(item: FlexBase) -> int {
    to_single(item.base * to_single(item.shrink as int))
}

fn get_scaled_shrink(item: &FlexBase) -> (r: i128)
    requires
        item.wf(),
    ensures
        r == scaled_shrink(*item),
        -0x1_ffff_ffff_ffff_ffff <= r <= 0x1_ffff_ffff_ffff_ffff,
{
    proof {
        lemma_single_bound(item.shrink as int);
    }
    let shrink: i128 = round_to_single(item.shrink as i128);
    assert(-0x8000_0000 * 0x1_0000_0000 <= item.base * shrink <= 0x8000_0000 * 0x1_0000_0000)
        by (nonlinear_arith)
        requires
            -0x8000_0000 <= item.base <= 0x8000_0000,
            0 <= shrink <= 0x1_0000_0000,
    ;
    round_to_single(item.base as i128 * shrink)
}

/// What the items from a place on add to a sum of scaled shrink factors.
pub open spec fn scaled_from(items: Seq<FlexBase>, at: int, sum: int) -> Option<int>
    decreases items.len() - at,
{
    if at < 0 || at >= items.len() {
        Some(sum)
    } else {
        let next = sum + scaled_shrink(items[at]);
        if moderate(next) {
            scaled_from(items, at + 1, to_single(next))
        } else {
            None
        }
    }
}

fn total_scaled(items: &Vec<FlexBase>) -> (r: Option<i128>)
    requires
        forall|i: int| 0 <= i < items@.len() ==> (#[trigger] items@[i]).wf(),
    ensures
        match (r, scaled_from(items@, 0, 0)) {
            (Some(sum), Some(total)) => sum == total,
            (None, None) => true,
            _ => false,
        },
{
    let mut sum: i128 = 0;
    let mut at: usize = 0;
    while at < items.len()
        invariant
            at <= items@.len(),
            forall|i: int| 0 <= i < items@.len() ==> (#[trigger] items@[i]).wf(),
            scaled_from(items@, 0, 0) == scaled_from(items@, at as int, sum as int),
            -0x4000_0000_0000_0000 <= sum <= 0x4000_0000_0000_0000,
        decreases items@.len() - at,
    {
        let scaled: i128 = get_scaled_shrink(&items[at]);
        let next: i128 = sum + scaled;
        if !is_moderate(next) {
            return None;
        }
        proof {
            lemma_single_moderate(next as int);
        }
        sum = round_to_single(next);
        at = at + 1;
    }
    Some(sum)
}

/// What the items from a place on add to a sum of grow factors.
pub open spec fn grow_from(items: Seq<FlexBase>, at: int, sum: int) -> Option<int>
    decreases items.len() - at,
{
    if at < 0 || at >= items.len() {
        Some(sum)
    } else if sum + items[at].grow > u32::MAX {
        None
    } else {
        grow_from(items, at + 1, sum + items[at].grow)
    }
}

fn total_grow(items: &Vec<FlexBase>) -> (r: Option<u32>)
    ensures
        match (r, grow_from(items@, 0, 0)) {
            (Some(sum), Some(total)) => sum == total,
            (None, None) => true,
            _ => false,
        },
{
    let mut sum: u32 = 0;
    let mut at: usize = 0;
    while at < items.len()
        invariant
            at <= items@.len(),
            grow_from(items@, 0, 0) == grow_from(items@, at as int, sum as int),
        decreases items@.len() - at,
    {
        match sum.checked_add(items[at].grow) {
            None => {
                return None;
            },
            Some(next) => {
                sum = next;
            },
        }
        at = at + 1;
    }
    Some(sum)
}

/// What happens to the main sizes of the items of a container.
#[derive(Debug, Clone, Copy, PartialEq, Eq, Structural)]
pub enum FlexPlan {
    /// They stay as they are.
    Keep,
    /// The items give up what is too much.
    Shrink { overflow: i64, scaled: i128 },
    /// The items take what is left.
    Grow { left: i64, grow: u32 },
}

/// A number held in the range of `u32`.
pub open spec fn clamp_u32(value: int) -> u32 {
    if value < 0 {
        0
    } else if value > u32::MAX {
        u32::MAX
    } else {
        value as u32
    }
}

pub fn to_u32(value: i64) -> (r: u32)
    ensures
        r == clamp_u32(value as int),
{
    if value < 0 {
        0
    } else if value > u32::MAX as i64 {
        u32::MAX
    } else {
        value as u32
    }
}

/// What is too much, or, where it is negative, left over.
pub open spec fn overflow_of(total: int, available: u32) -> int {
    to_single(total - to_single(available as int))
}

/// What happens to the main sizes of items that take `total` of what is available. Nothing where
/// a sum leaves its range.
pub open spec fn flex_plan(
    items: Seq<FlexBase>,
    total: int,
    available: u32,
    distributes: bool,
) -> Option<FlexPlan> {
    let overflow = overflow_of(total, available);
    if overflow > 0 {
        match scaled_from(items, 0, 0) {
            None => None,
            Some(scaled) => Some(
                if scaled > 0 {
                    FlexPlan::Shrink { overflow: overflow as i64, scaled: scaled as i128 }
                } else {
                    FlexPlan::Keep
                },
            ),
        }
    } else if overflow < 0 && distributes {
        match grow_from(items, 0, 0) {
            None => None,
            Some(grow) => Some(
                if grow > 0 {
                    FlexPlan::Grow { left: (-overflow) as i64, grow: grow as u32 }
                } else {
                    FlexPlan::Keep
                },
            ),
        }
    } else {
        Some(FlexPlan::Keep)
    }
}

/// What happens to the main sizes of items that take `total` of what is available.
pub fn plan_main_sizes(items: &Vec<FlexBase>, total: i64, available: u32, distributes: bool) -> (r:
    Option<FlexPlan>)
    requires
        forall|i: int| 0 <= i < items@.len() ==> (#[trigger] items@[i]).wf(),
        -0x4000_0000_0000_0000 <= total <= 0x4000_0000_0000_0000,
    ensures
        r == flex_plan(items@, total as int, available, distributes),
{
    proof {
        lemma_single_bound(available as int);
    }
    let single: i128 = round_to_single(available as i128);
    let difference: i128 = total as i128 - single;
    proof {
        lemma_single_large(difference as int);
    }
    let overflow: i128 = round_to_single(difference);
    if overflow > 0 {
        match total_scaled(items) {
            None => None,
            Some(scaled) => Some(
                if scaled > 0 {
                    FlexPlan::Shrink { overflow: overflow as i64, scaled }
                } else {
                    FlexPlan::Keep
                },
            ),
        }
    } else if overflow < 0 && distributes {
        match total_grow(items) {
            None => None,
            Some(grow) => Some(
                if grow > 0 {
                    FlexPlan::Grow { left: (-overflow) as i64, grow }
                } else {
                    FlexPlan::Keep
                },
            ),
        }
    } else {
        Some(FlexPlan::Keep)
    }
}

/// The size of an item that keeps its own.
pub open spec fn kept_size(item: FlexBase) -> FlexTarget {
    FlexTarget { size: clamp_u32(item.base as int), outer: clamp_u32(outer_size(item)) }
}

/// What has to be told to know the main size of an item.
pub open spec fn target_need(plan: FlexPlan, item: FlexBase) -> Option<Need> {
    match plan {
        FlexPlan::Keep => None,
        FlexPlan::Shrink { overflow, scaled: total } => Some(
            Need::Shrink {
                base: item.base,
                overflow,
                scaled: scaled_shrink(item) as i128,
                scaled_total: total,
                max: item.max,
                margin: item.margin,
            },
        ),
        FlexPlan::Grow { left, grow: total } => Some(
            Need::Grow {
                base: item.base,
                left,
                grow: item.grow,
                grow_total: total,
                max: item.max,
                margin: item.margin,
            },
        ),
    }
}

/// The main size of an item.
pub open spec fn target(answers: Answers, plan: FlexPlan, item: FlexBase) -> Result<FlexTarget, Stop> {
    match target_need(plan, item) {
        None => Ok(kept_size(item)),
        Some(need) => match answers.answer(need) {
            Some(Answer::Target(target)) => Ok(target),
            _ => Err(Stop::Need(need)),
        },
    }
}

fn get_target(answers: &Answers, plan: FlexPlan, item: &FlexBase) -> (r: Result<FlexTarget, Stop>)
    requires
        item.wf(),
    ensures
        r == target(*answers, plan, *item),
{
    let need = match plan {
        FlexPlan::Keep => {
            let outer: i128 = get_outer_size(item);
            let outer: u32 = if outer < 0 {
                0
            } else if outer > u32::MAX as i128 {
                u32::MAX
            } else {
                outer as u32
            };
            return Ok(FlexTarget { size: to_u32(item.base), outer });
        },
        FlexPlan::Shrink { overflow, scaled: total } => Need::Shrink {
            base: item.base,
            overflow,
            scaled: get_scaled_shrink(item),
            scaled_total: total,
            max: item.max,
            margin: item.margin,
        },
        FlexPlan::Grow { left, grow: total } => Need::Grow {
            base: item.base,
            left,
            grow: item.grow,
            grow_total: total,
            max: item.max,
            margin: item.margin,
        },
    };
    match answers.find(need) {
        Some(Answer::Target(target)) => Ok(target),
        _ => Err(Stop::Need(need)),
    }
}

/// The main sizes of the items from a place on, behind those that are known.
pub open spec fn targets_from(
    answers: Answers,
    plan: FlexPlan,
    items: Seq<FlexBase>,
    at: int,
    known: Seq<FlexTarget>,
) -> Result<Seq<FlexTarget>, Stop>
    decreases items.len() - at,
{
    if at < 0 || at >= items.len() {
        Ok(known)
    } else {
        match target(answers, plan, items[at]) {
            Err(stop) => Err(stop),
            Ok(target) => targets_from(answers, plan, items, at + 1, known.push(target)),
        }
    }
}

/// The main sizes of all items.
pub fn get_targets(answers: &Answers, plan: FlexPlan, items: &Vec<FlexBase>) -> (r: Result<
    Vec<FlexTarget>,
    Stop,
>)
    requires
        forall|i: int| 0 <= i < items@.len() ==> (#[trigger] items@[i]).wf(),
    ensures
        match (r, targets_from(*answers, plan, items@, 0, Seq::empty())) {
            (Ok(found), Ok(targets)) => found@ == targets && found@.len() == items@.len(),
            (Err(stop), Err(reason)) => stop == reason,
            _ => false,
        },
{
    let mut targets: Vec<FlexTarget> = Vec::new();
    let mut at: usize = 0;
    assert(targets@ =~= Seq::empty());
    while at < items.len()
        invariant
            at <= items@.len(),
            at == targets@.len(),
            forall|i: int| 0 <= i < items@.len() ==> (#[trigger] items@[i]).wf(),
            targets_from(*answers, plan, items@, 0, Seq::empty()) == targets_from(
                *answers,
                plan,
                items@,
                at as int,
                targets@,
            ),
        decreases items@.len() - at,
    {
        match get_target(answers, plan, &items[at]) {
            Err(stop) => {
                return Err(stop);
            },
            Ok(target) => {
                targets.push(target);
            },
        }
        at = at + 1;
    }
    Ok(targets)
}

/// The largest size across the main axis, at least `least`, among the items from a place on.
pub open spec fn cross_from(items: Seq<FlexBase>, at: int, least: int) -> int
    decreases items.len() - at,
{
    if at < 0 || at >= items.len() {
        least
    } else {
        cross_from(items, at + 1, max2(least, items[at].cross as int))
    }
}

/// The largest size of an item across the main axis.
pub fn largest_cross(items: &Vec<FlexBase>) -> (r: i64)
    ensures
        r == cross_from(items@, 0, 0),
{
    let mut largest: i64 = 0;
    let mut at: usize = 0;
    while at < items.len()
        invariant
            at <= items@.len(),
            cross_from(items@, 0, 0) == cross_from(items@, at as int, largest as int),
        decreases items@.len() - at,
    {
        if items[at].cross > largest {
            largest = items[at].cross;
        }
        at = at + 1;
    }
    largest
}

/// Whether some item is stretched across the main axis.
pub open spec fn any_stretch(items: Seq<FlexBase>) -> bool {
    exists|i: int| 0 <= i < items.len() && (#[trigger] items[i]).stretch
}

pub fn stretches_any(items: &Vec<FlexBase>) -> (r: bool)
    ensures
        r == any_stretch(items@),
{
    let mut at: usize = 0;
    while at < items.len()
        invariant
            at <= items@.len(),
            forall|i: int| 0 <= i < at ==> !(#[trigger] items@[i]).stretch,
        decreases items@.len() - at,
    {
        if items[at].stretch {
            return true;
        }
        at = at + 1;
    }
    false
}

/// The size of an item across the main axis: a stretched one takes what is available, or what the
/// largest item of the row takes.
pub open spec fn cross_size(
    item: FlexBase,
    direction: StyleFlexDirection,
    has_definite_height: bool,
    available: u32,
    row_cross: int,
) -> u32 {
    clamp_u32(
        if !item.stretch {
            item.cross as int
        } else if direction is Column || has_definite_height {
            min2(to_single(available as int), item.max_cross as int)
        } else {
            min2(row_cross, item.max_cross as int)
        },
    )
}

pub fn get_cross_size(
    item: &FlexBase,
    direction: StyleFlexDirection,
    has_definite_height: bool,
    available: u32,
    row_cross: i64,
) -> (r: u32)
    ensures
        r == cross_size(*item, direction, has_definite_height, available, row_cross as int),
{
    if !item.stretch {
        return to_u32(item.cross);
    }
    proof {
        lemma_single_bound(available as int);
    }
    let wanted: i64 = if direction == StyleFlexDirection::Column || has_definite_height {
        round_to_single(available as i128) as i64
    } else {
        row_cross
    };
    to_u32(
        if wanted < item.max_cross {
            wanted
        } else {
            item.max_cross
        },
    )
}

/// An item that neither shrinks nor grows keeps its size, whatever is available, and needs nothing
/// from outside.
pub proof fn lemma_fitting_items_keep_their_size(answers: Answers, items: Seq<FlexBase>, at: int)
    requires
        0 <= at <= items.len(),
    ensures
        targets_from(answers, FlexPlan::Keep, items, at, Seq::empty()) is Ok,
        (targets_from(answers, FlexPlan::Keep, items, at, Seq::empty())->Ok_0).len() == items.len()
            - at,
{
    lemma_kept(answers, items, at, Seq::empty());
}

proof fn lemma_kept(answers: Answers, items: Seq<FlexBase>, at: int, known: Seq<FlexTarget>)
    requires
        0 <= at <= items.len(),
    ensures
        targets_from(answers, FlexPlan::Keep, items, at, known) is Ok,
        (targets_from(answers, FlexPlan::Keep, items, at, known)->Ok_0).len() == known.len()
            + items.len() - at,
    decreases items.len() - at,
{
    if at < items.len() {
        lemma_kept(answers, items, at + 1, known.push(kept_size(items[at])));
    }
}

} // verus!
