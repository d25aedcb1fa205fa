//! What happens when: animations, frames and waiting. Times are counted in nanoseconds.
use vstd::prelude::*;

verus! {

pub const MILLISECOND: u128 = 1_000_000;

/// How long an animation frame lasts.
pub const ANIMATION_FRAME_INTERVAL: u128 = 16_666_667;

/// How long scrolling takes.
pub const SCROLL_DURATION: u128 = 60_000_000;

#[derive(Debug, Clone, Copy, PartialEq, Eq, Structural)]
pub struct ScrollAnimation {
    pub start: i32,
    pub end: i32,
    pub start_at: u128,
    pub duration: u128,
    pub node_idx: usize,
}

#[derive(Debug, Clone, Copy, PartialEq, Eq, Structural)]
pub enum Animation {
    ScrollAnimation(ScrollAnimation),
}

impl Animation {
    pub open spec fn scroll(self) -> ScrollAnimation {
        match self {
            Animation::ScrollAnimation(animation) => animation,
        }
    }

    /// Whether the animation has ended before a time.
    pub open spec fn ended(self, now: u128) -> bool {
        self.scroll().start_at + self.scroll().duration < now
    }

    /// Whether the animation has ended.
    pub fn is_done(&self, now: u128) -> (r: bool)
        ensures
            r == self.ended(now),
    {
        match self {
            Animation::ScrollAnimation(animation) => animation.start_at < now && animation.duration
                < now - animation.start_at,
        }
    }
}

/// The scroll offsets after a node has been scrolled; nodes without an offset stand at zero.
pub open spec fn with_scroll(scroll: Seq<i32>, idx: usize, value: i32) -> Seq<i32> {
    Seq::new(
        if idx < scroll.len() {
            scroll.len()
        } else {
            (idx + 1) as nat
        },
        |i: int|
            if i == idx {
                value
            } else if i < scroll.len() {
                scroll[i]
            } else {
                0
            },
    )
}

/// The scroll offsets after each animation has set that of its node.
pub open spec fn with_animated(scroll: Seq<i32>, animations: Seq<Animation>, values: Seq<i32>) -> Seq<
    i32,
>
    decreases animations.len(),
{
    if animations.len() == 0 {
        scroll
    } else {
        with_scroll(
            with_animated(scroll, animations.drop_last(), values),
            animations.last().scroll().node_idx,
            values[animations.len() - 1],
        )
    }
}

/// The animations that have not ended.
pub open spec fn still_running(animations: Seq<Animation>, now: u128) -> Seq<Animation>
    decreases animations.len(),
{
    if animations.len() == 0 {
        Seq::empty()
    } else if animations.last().ended(now) {
        still_running(animations.drop_last(), now)
    } else {
        still_running(animations.drop_last(), now).push(animations.last())
    }
}

fn set_scroll(scroll: &mut Vec<i32>, idx: usize, value: i32)
    requires
        idx < usize::MAX,
    ensures
        final(scroll)@ == with_scroll(old(scroll)@, idx, value),
{
    let ghost start = scroll@;
    while scroll.len() <= idx
        invariant
            idx < usize::MAX,
            start.len() <= scroll@.len(),
            scroll@.len() <= idx + 1 || scroll@.len() == start.len(),
            forall|i: int| 0 <= i < start.len() ==> #[trigger] scroll@[i] == start[i],
            forall|i: int| start.len() <= i < scroll@.len() ==> #[trigger] scroll@[i] == 0,
        decreases idx + 1 - scroll@.len(),
    {
        scroll.push(0);
    }
    scroll.set(idx, value);
    assert(scroll@ =~= with_scroll(start, idx, value));
}

/// Moves on with the animations: each sets the offset of its node to the value that it has come to,
/// and those that have ended are dropped. Gives whether any is left.
pub fn tick_animations(
    animations: &mut Vec<Animation>,
    scroll: &mut Vec<i32>,
    values: &Vec<i32>,
    now: u128,
) -> (r: bool)
    requires
        values@.len() == old(animations)@.len(),
        forall|i: int|
            0 <= i < old(animations)@.len() ==> (#[trigger] old(animations)@[i]).scroll().node_idx
                < usize::MAX,
    ensures
        final(scroll)@ == with_animated(old(scroll)@, old(animations)@, values@),
        final(animations)@ == still_running(old(animations)@, now),
        r == (final(animations)@.len() > 0),
{
    let ghost all = animations@;
    let ghost start = scroll@;
    let mut kept: Vec<Animation> = Vec::new();
    let mut at: usize = 0;
    while at < animations.len()
        invariant
            at <= animations@.len(),
            animations@ == all,
            values@.len() == all.len(),
            forall|i: int|
                0 <= i < all.len() ==> (#[trigger] all[i]).scroll().node_idx < usize::MAX,
            scroll@ == with_animated(start, all.take(at as int), values@),
            kept@ == still_running(all.take(at as int), now),
        decreases animations@.len() - at,
    {
        let animation = animations[at];
        assert(all.take(at + 1).drop_last() =~= all.take(at as int));
        match animation {
            Animation::ScrollAnimation(inner) => set_scroll(scroll, inner.node_idx, values[at]),
        }
        if !animation.is_done(now) {
            kept.push(animation);
        }
        at = at + 1;
    }
    assert(all.take(all.len() as int) =~= all);
    let left = kept.len() > 0;
    *animations = kept;
    left
}

/// How far a node can be scrolled.
pub fn get_max_scroll(content_height: u32, shown_height: u32) -> (r: u32)
    ensures
        r == (if content_height > shown_height {
            content_height - shown_height
        } else {
            0
        }),
{
    if content_height > shown_height {
        content_height - shown_height
    } else {
        0
    }
}

/// From where further scrolling goes on: where the running animation leads, else where the node
/// stands.
pub open spec fn scroll_base(animations: Seq<Animation>, scroll_y: i32) -> i32 {
    if animations.len() > 0 {
        animations[0].scroll().end
    } else {
        scroll_y
    }
}

pub fn get_scroll_base(animations: &Vec<Animation>, scroll_y: i32) -> (r: i32)
    ensures
        r == scroll_base(animations@, scroll_y),
{
    if animations.len() == 0 {
        return scroll_y;
    }
    match animations[0] {
        Animation::ScrollAnimation(animation) => animation.end,
    }
}

/// The animations after scrolling has been asked for: the running one is turned to the new end, else
/// one is started. Nothing changes where the node stands there already.
pub open spec fn with_scrolling(
    animations: Seq<Animation>,
    node_idx: usize,
    scroll_y: i32,
    target: i32,
    now: u128,
) -> Seq<Animation> {
    if target == scroll_y {
        animations
    } else if animations.len() > 0 {
        animations.update(
            0,
            Animation::ScrollAnimation(
                ScrollAnimation {
                    start: scroll_y,
                    end: target,
                    start_at: now,
                    ..animations[0].scroll()
                },
            ),
        )
    } else {
        animations.push(
            Animation::ScrollAnimation(
                ScrollAnimation {
                    start: scroll_y,
                    end: target,
                    start_at: now,
                    duration: SCROLL_DURATION,
                    node_idx,
                },
            ),
        )
    }
}

/// Starts to scroll a node. Gives whether there is anything to scroll.
pub fn scroll_to(
    animations: &mut Vec<Animation>,
    node_idx: usize,
    scroll_y: i32,
    target: i32,
    now: u128,
) -> (r: bool)
    ensures
        r == (target != scroll_y),
        final(animations)@ == with_scrolling(old(animations)@, node_idx, scroll_y, target, now),
{
    if target == scroll_y {
        return false;
    }
    if animations.len() > 0 {
        let running = match animations[0] {
            Animation::ScrollAnimation(animation) => animation,
        };
        let turned = ScrollAnimation {
            start: scroll_y,
            end: target,
            start_at: now,
            duration: running.duration,
            node_idx: running.node_idx,
        };
        animations.set(0, Animation::ScrollAnimation(turned));
    } else {
        animations.push(
            Animation::ScrollAnimation(
                ScrollAnimation {
                    start: scroll_y,
                    end: target,
                    start_at: now,
                    duration: SCROLL_DURATION,
                    node_idx,
                },
            ),
        );
    }
    true
}

/// Scrolling is done in time: an animation that was just started or turned has not ended, and has
/// once its duration has passed.
pub proof fn lemma_scrolling_ends(
    animations: Seq<Animation>,
    node_idx: usize,
    scroll_y: i32,
    target: i32,
    now: u128,
    later: u128,
)
    requires
        target != scroll_y,
    ensures
        ({
            let first = with_scrolling(animations, node_idx, scroll_y, target, now)[0];
            &&& !first.ended(now)
            &&& first.scroll().end == target
            &&& first.ended(later) <==> now + first.scroll().duration < later
        }),
{
}

/// How long to wait for the next animation frame; nothing where none was asked for.
pub open spec fn frame_delay(requested: bool, last: u128, now: u128) -> Option<int> {
    if requested {
        Some(
            if last + ANIMATION_FRAME_INTERVAL > now {
                last + ANIMATION_FRAME_INTERVAL - now
            } else {
                0
            },
        )
    } else {
        None
    }
}

/// How long to wait for the next animation frame.
pub fn animation_frame_delay(requested: bool, last: u128, now: u128) -> (r: Option<u128>)
    requires
        last + ANIMATION_FRAME_INTERVAL <= u128::MAX,
    ensures
        match (r, frame_delay(requested, last, now)) {
            (Some(delay), Some(model)) => delay == model,
            (None, None) => true,
            _ => false,
        },
{
    if !requested {
        return None;
    }
    let due: u128 = last + ANIMATION_FRAME_INTERVAL;
    if due > now {
        Some(due - now)
    } else {
        Some(0)
    }
}

/// Whether the next animation frame is to run. One that runs is not asked for any more, and is the
/// last one.
pub fn run_animation_frame_if_due(requested: &mut bool, last: &mut u128, now: u128) -> (r: bool)
    requires
        *old(last) + ANIMATION_FRAME_INTERVAL <= u128::MAX,
    ensures
        r == (frame_delay(*old(requested), *old(last), now) == Some(0int)),
        *final(requested) == (*old(requested) && !r),
        *final(last) == (if r {
            now
        } else {
            *old(last)
        }),
{
    match animation_frame_delay(*requested, *last, now) {
        Some(delay) => {
            if delay == 0 {
                *requested = false;
                *last = now;
                true
            } else {
                false
            }
        },
        None => false,
    }
}

fn smaller(a: u128, b: u128) -> (r: u128)
    ensures
        r == (if a <= b {
            a
        } else {
            b
        }),
{
    if a <= b {
        a
    } else {
        b
    }
}

/// How long to wait for the next command; as long as it takes where nothing is given. While scripts
/// have work left, it is at most sixteen milliseconds.
pub fn command_wait_timeout(js_pending: bool, delay: Option<u128>) -> (r: Option<u128>)
    ensures
        r == (match (js_pending, delay) {
            (true, Some(delay)) => Some(
                if delay <= 16 * MILLISECOND {
                    delay
                } else {
                    (16 * MILLISECOND) as u128
                },
            ),
            (true, None) => Some((16 * MILLISECOND) as u128),
            (false, delay) => delay,
        }),
{
    let slice: u128 = 16 * MILLISECOND;
    if js_pending {
        match delay {
            Some(delay) => Some(smaller(delay, slice)),
            None => Some(slice),
        }
    } else {
        delay
    }
}

/// How long scripts may run before the next frame: at most ten milliseconds.
pub fn event_loop_wait(delay: Option<u128>) -> (r: u128)
    ensures
        r == (match delay {
            Some(delay) => if delay <= 10 * MILLISECOND {
                delay
            } else {
                (10 * MILLISECOND) as u128
            },
            None => (10 * MILLISECOND) as u128,
        }),
{
    let slice: u128 = 10 * MILLISECOND;
    match delay {
        Some(delay) => smaller(delay, slice),
        None => slice,
    }
}

/// Counts how many frames are shown in a second, anew every half second.
#[derive(Debug, Clone, Copy, PartialEq, Eq, Structural)]
pub struct FpsCounter {
    pub window_started: u128,
    pub frames: u32,
    pub fps: u32,
}

impl FpsCounter {
    pub fn new(now: u128) -> (r: FpsCounter)
        ensures
            r == (FpsCounter { window_started: now, frames: 0, fps: 0 }),
    {
        FpsCounter { window_started: now, frames: 0, fps: 0 }
    }

    /// The frames in the window with one more.
    pub open spec fn frames_shown(self) -> u32 {
        if self.frames < u32::MAX {
            (self.frames + 1) as u32
        } else {
            u32::MAX
        }
    }

    /// Counts a frame that was shown. `rate` is how many frames a second the window has come to with
    /// it; it is given back when the window ends, and the next window starts.
    pub fn record_present(&mut self, now: u128, rate: u32) -> (r: Option<u32>)
        ensures
            now - old(self).window_started < 500 * MILLISECOND ==> r is None && *final(self) == (
            FpsCounter { frames: old(self).frames_shown(), ..*old(self) }),
            now - old(self).window_started >= 500 * MILLISECOND ==> r == Some(rate) && *final(self)
                == (FpsCounter { window_started: now, frames: 0, fps: rate }),
    {
        if self.frames < u32::MAX {
            self.frames = self.frames + 1;
        }
        let elapsed: u128 = if now > self.window_started {
            now - self.window_started
        } else {
            0
        };
        if elapsed < 500 * MILLISECOND {
            return None;
        }
        self.fps = rate;
        self.frames = 0;
        self.window_started = now;
        Some(rate)
    }
}

} // verus!
