//! Which style sheets of a document have been read, and which are still to be read or fetched.
use vstd::prelude::*;

use crate::cascade::expandables;
use crate::cascade::ExpandableCssNode;
use crate::cascade::ExpandableModel;
use crate::text::same_text;

verus! {

/// What becomes of a source of style rules.
#[derive(Debug, Clone, Copy, PartialEq, Eq, Structural)]
pub enum SheetStep {
    /// It has been read, as the one at this place.
    Known(usize),
    /// It is read now, and is from then on the one at this place.
    Parse(usize),
    /// It has to be fetched first.
    Fetch,
}

/// The sources that have been read, and those of the sheets that were last put together.
#[derive(Debug)]
pub struct SheetCache {
    pub known: Vec<ExpandableCssNode>,
    /// The address of the page, and its sources.
    pub joined: Option<(String, Vec<ExpandableCssNode>)>,
}

/// The first place of a source from a place on.
pub open spec fn source_from(
    known: Seq<ExpandableModel>,
    source: ExpandableModel,
    from: int,
) -> Option<usize>
    decreases known.len() - from,
{
    if from < 0 || from >= known.len() {
        None
    } else if known[from] == source {
        Some(from as usize)
    } else {
        source_from(known, source, from + 1)
    }
}

/// What becomes of the first sources of a document, and the sources that have been read after that.
pub open spec fn planned(
    known: Seq<ExpandableModel>,
    list: Seq<ExpandableModel>,
    count: nat,
) -> (Seq<SheetStep>, Seq<ExpandableModel>)
    decreases count,
{
    if count == 0 {
        (Seq::empty(), known)
    } else {
        let (steps, before) = planned(known, list, (count - 1) as nat);
        let source = list[count - 1];
        match source_from(before, source, 0) {
            Some(place) => (steps.push(SheetStep::Known(place)), before),
            None => match source {
                ExpandableModel::Link(_) => (steps.push(SheetStep::Fetch), before),
                ExpandableModel::Inline(_) => (
                    steps.push(SheetStep::Parse(before.len() as usize)),
                    before.push(source),
                ),
            },
        }
    }
}

fn same_source(a: &ExpandableCssNode, b: &ExpandableCssNode) -> (r: bool)
    ensures
        r == (a@ == b@),
{
    match (a, b) {
        (ExpandableCssNode::Link(a), ExpandableCssNode::Link(b)) => same_text(
            a.as_str(),
            b.as_str(),
        ),
        (ExpandableCssNode::Inline(a), ExpandableCssNode::Inline(b)) => same_text(
            a.as_str(),
            b.as_str(),
        ),
        _ => false,
    }
}

fn copy_source(source: &ExpandableCssNode) -> (r: ExpandableCssNode)
    ensures
        r@ == source@,
{
    match source {
        ExpandableCssNode::Link(link) => ExpandableCssNode::Link(link.clone()),
        ExpandableCssNode::Inline(text) => ExpandableCssNode::Inline(text.clone()),
    }
}

fn same_sources(a: &Vec<ExpandableCssNode>, b: &Vec<ExpandableCssNode>) -> (r: bool)
    ensures
        r == (expandables(a@) == expandables(b@)),
{
    if a.len() != b.len() {
        assert(expandables(a@).len() != expandables(b@).len());
        return false;
    }
    let mut at: usize = 0;
    while at < a.len()
        invariant
            at <= a@.len(),
            a@.len() == b@.len(),
            forall|i: int| 0 <= i < at ==> expandables(a@)[i] == #[trigger] expandables(b@)[i],
        decreases a@.len() - at,
    {
        if !same_source(&a[at], &b[at]) {
            assert(expandables(a@)[at as int] != expandables(b@)[at as int]);
            return false;
        }
        at = at + 1;
    }
    assert(expandables(a@) =~= expandables(b@));
    true
}

impl SheetCache {
    pub fn new() -> (r: SheetCache)
        ensures
            expandables(r.known@) == Seq::<ExpandableModel>::empty(),
            r.joined is None,
    {
        let r = SheetCache { known: Vec::new(), joined: None };
        assert(expandables(r.known@) =~= Seq::empty());
        r
    }

    /// Whether the sheets that were last put together are those of a page.
    pub open spec fn has_joined(self, base: Seq<char>, list: Seq<ExpandableModel>) -> bool {
        self.joined matches Some((address, sources)) && address@ == base && expandables(sources@)
            == list
    }

    /// Whether the sheets that were last put together are those of a page.
    pub fn is_current(&self, base: &str, list: &Vec<ExpandableCssNode>) -> (r: bool)
        ensures
            r == self.has_joined(base@, expandables(list@)),
    {
        match &self.joined {
            None => false,
            Some((address, sources)) => same_text(address.as_str(), base) && same_sources(
                sources,
                list,
            ),
        }
    }

    fn find(&self, source: &ExpandableCssNode) -> (r: Option<usize>)
        ensures
            r == source_from(expandables(self.known@), source@, 0),
    {
        let mut at: usize = 0;
        while at < self.known.len()
            invariant
                at <= self.known@.len(),
                source_from(expandables(self.known@), source@, 0) == source_from(
                    expandables(self.known@),
                    source@,
                    at as int,
                ),
            decreases self.known@.len() - at,
        {
            assert(expandables(self.known@)[at as int] == self.known@[at as int]@);
            if same_source(&self.known[at], source) {
                return Some(at);
            }
            at = at + 1;
        }
        None
    }

    /// What becomes of the sources of a document. What is written in the document itself counts as
    /// read from then on.
    pub fn plan_css_nodes(&mut self, list: &Vec<ExpandableCssNode>) -> (r: Vec<SheetStep>)
        ensures
            (r@, expandables(final(self).known@)) == planned(
                expandables(old(self).known@),
                expandables(list@),
                list@.len(),
            ),
            final(self).joined == old(self).joined,
    {
        let ghost start = expandables(self.known@);
        let ghost models = expandables(list@);
        let mut steps: Vec<SheetStep> = Vec::new();
        let mut at: usize = 0;
        assert(steps@ =~= Seq::empty());
        while at < list.len()
            invariant
                at <= list@.len(),
                models == expandables(list@),
                (steps@, expandables(self.known@)) == planned(start, models, at as nat),
                self.joined == old(self).joined,
            decreases list@.len() - at,
        {
            assert(models[at as int] == list@[at as int]@);
            match self.find(&list[at]) {
                Some(place) => {
                    steps.push(SheetStep::Known(place));
                },
                None => match &list[at] {
                    ExpandableCssNode::Link(_) => {
                        steps.push(SheetStep::Fetch);
                    },
                    ExpandableCssNode::Inline(_) => {
                        let ghost before = expandables(self.known@);
                        steps.push(SheetStep::Parse(self.known.len()));
                        self.known.push(copy_source(&list[at]));
                        assert(expandables(self.known@) =~= before.push(models[at as int]));
                    },
                },
            }
            at = at + 1;
        }
        steps
    }

    /// Notes that a source was fetched and read. The result is its place, and whether it is new.
    pub fn note_fetched(&mut self, source: &ExpandableCssNode) -> (r: (usize, bool))
        ensures
            match source_from(expandables(old(self).known@), source@, 0) {
                Some(place) => r == (place, false) && final(self).known@ == old(self).known@,
                None => r == (old(self).known@.len() as usize, true) && expandables(
                    final(self).known@,
                ) == expandables(old(self).known@).push(source@),
            },
            final(self).joined == old(self).joined,
    {
        match self.find(source) {
            Some(place) => (place, false),
            None => {
                let place: usize = self.known.len();
                self.known.push(copy_source(source));
                assert(expandables(self.known@) =~= expandables(old(self).known@).push(source@));
                (place, true)
            },
        }
    }

    /// Notes that the sheets of a page were put together.
    pub fn note_joined(&mut self, base: String, list: Vec<ExpandableCssNode>)
        ensures
            final(self).has_joined(base@, expandables(list@)),
            final(self).known@ == old(self).known@,
    {
        self.joined = Some((base, list));
    }
}

proof fn lemma_source_found(known: Seq<ExpandableModel>, source: ExpandableModel, from: int, at: int)
    requires
        0 <= from <= at < known.len() <= usize::MAX,
        known[at] == source,
    ensures
        source_from(known, source, from) is Some,
    decreases known.len() - from,
{
    if known[from] != source {
        lemma_source_found(known, source, from + 1, at);
    }
}

/// A source that has been read is neither read nor fetched again.
pub proof fn lemma_known_sheets_stay(
    known: Seq<ExpandableModel>,
    list: Seq<ExpandableModel>,
    count: nat,
)
    requires
        known.len() <= usize::MAX,
        count <= list.len(),
        forall|i: int| 0 <= i < count ==> known.contains(#[trigger] list[i]),
    ensures
        planned(known, list, count).1 == known,
        planned(known, list, count).0.len() == count,
        forall|i: int| 0 <= i < count ==> (#[trigger] planned(known, list, count).0[i]) is Known,
    decreases count,
{
    if count > 0 {
        lemma_known_sheets_stay(known, list, (count - 1) as nat);
        assert(known.contains(list[count - 1]));
        let at = choose|at: int| 0 <= at < known.len() && known[at] == list[count - 1];
        lemma_source_found(known, list[count - 1], 0, at);
        let before = planned(known, list, (count - 1) as nat).0;
        assert forall|i: int| 0 <= i < count implies (#[trigger] planned(known, list, count).0[i])
            is Known by {
            if i < count - 1 {
                assert(before[i] is Known);
            }
        }
    }
}

} // verus!
