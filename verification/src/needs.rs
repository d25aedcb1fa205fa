//! What layout has to be told from outside: how large a text or a picture is, and numbers that
//! take fractions to work out.
use vstd::prelude::*;

verus! {

/// Something that layout has to be told.
#[derive(Debug, Clone, Copy, PartialEq, Eq, Structural)]
pub enum Need {
    /// The text of a node, broken into lines of at most `line_width` pixels.
    Text { node_idx: usize, line_width: Option<u32> },
    /// The picture of a node, in the sizes that it is asked to have. It is only needed to look
    /// right where `complete` is set.
    Picture {
        node_idx: usize,
        wanted_width: Option<u32>,
        wanted_height: Option<u32>,
        max_width: u32,
        max_height: u32,
        complete: bool,
    },
    /// The background picture of a node.
    Background { node_idx: usize, width: u32, height: u32, complete: bool },
    /// The part `fraction / total` of a space, in single precision and without its fraction.
    Fraction { space: u32, fraction: i32, total: i32 },
    /// A flex item that gives up its part of what is too much: `base` less `overflow * scaled /
    /// scaled_total`, at least zero and at most `max`, in single precision.
    Shrink { base: i64, overflow: i64, scaled: i128, scaled_total: i128, max: i64, margin: i32 },
    /// A flex item that takes its part of what is left: `base` and `left * (grow / grow_total)`, at
    /// most `max`, in single precision.
    Grow { base: i64, left: i64, grow: u32, grow_total: u32, max: i64, margin: i32 },
}

/// A text or picture that has been drawn.
#[derive(Debug, Clone, Copy, PartialEq, Eq, Structural)]
pub struct Drawn {
    pub image: usize,
    pub opaque: bool,
    pub width: u32,
    pub height: u32,
}

/// The main size of a flex item without its fraction, and the size with its margins to the
/// nearest pixel.
#[derive(Debug, Clone, Copy, PartialEq, Eq, Structural)]
pub struct FlexTarget {
    pub size: u32,
    pub outer: u32,
}

#[derive(Debug, Clone, Copy, PartialEq, Eq, Structural)]
pub enum Answer {
    /// What was drawn; nothing where that is impossible.
    Drawn(Option<Drawn>),
    Number(i32),
    Target(FlexTarget),
}

/// What layout has been told so far.
#[derive(Debug)]
pub struct Answers {
    pub entries: Vec<(Need, Answer)>,
}

/// The first answer to a need.
pub open spec fn answer_from(entries: Seq<(Need, Answer)>, need: Need, from: int) -> Option<Answer>
    decreases entries.len() - from,
{
    if from < 0 || from >= entries.len() {
        None
    } else if entries[from].0 == need {
        Some(entries[from].1)
    } else {
        answer_from(entries, need, from + 1)
    }
}

impl Answers {
    pub open spec fn answer(self, need: Need) -> Option<Answer> {
        answer_from(self.entries@, need, 0)
    }

    pub fn new() -> (r: Answers)
        ensures
            r.entries@.len() == 0,
    {
        Answers { entries: Vec::new() }
    }

    /// Notes an answer. Where there is an earlier one to the same need, that one stays.
    pub fn tell(&mut self, need: Need, answer: Answer)
        ensures
            final(self).entries@ == old(self).entries@.push((need, answer)),
    {
        self.entries.push((need, answer));
    }

    /// The answer to a need, if there is one.
    pub fn find(&self, need: Need) -> (r: Option<Answer>)
        ensures
            r == self.answer(need),
    {
        let mut at: usize = 0;
        while at < self.entries.len()
            invariant
                at <= self.entries@.len(),
                self.answer(need) == answer_from(self.entries@, need, at as int),
            decreases self.entries@.len() - at,
        {
            if self.entries[at].0 == need {
                return Some(self.entries[at].1);
            }
            at = at + 1;
        }
        None
    }
}

/// What has been told is known from then on, and does not change.
pub proof fn lemma_told_stays(before: Answers, after: Answers, told: (Need, Answer), need: Need)
    requires
        after.entries@ == before.entries@.push(told),
    ensures
        before.answer(need) is Some ==> after.answer(need) == before.answer(need),
        before.answer(need) is None ==> after.answer(need) == (if told.0 == need {
            Some(told.1)
        } else {
            None
        }),
{
    lemma_told_from(before.entries@, told, need, 0);
}

proof fn lemma_told_from(entries: Seq<(Need, Answer)>, told: (Need, Answer), need: Need, from: int)
    requires
        0 <= from <= entries.len(),
    ensures
        answer_from(entries, need, from) is Some ==> answer_from(entries.push(told), need, from)
            == answer_from(entries, need, from),
        answer_from(entries, need, from) is None ==> answer_from(entries.push(told), need, from)
            == (if told.0 == need {
            Some(told.1)
        } else {
            None
        }),
    decreases entries.len() - from,
{
    reveal_with_fuel(answer_from, 2);
    if from < entries.len() {
        lemma_told_from(entries, told, need, from + 1);
    }
}

} // verus!
