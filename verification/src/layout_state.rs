//! What layout knows while it runs: the boxes, the sizes of nodes, and which nodes wait for
//! which.
use vstd::prelude::*;

use crate::boxes::final_box;
use crate::boxes::is_box;
use crate::boxes::shifted;
use crate::boxes::BoxModel;
use crate::boxes::LayoutBox;
use crate::boxes::LayoutTable;
use crate::boxes::Rect;
use crate::flow::MarginRows;
use crate::lengths::Stop;
use crate::margins::divide_free_space_for_margin;
use crate::margins::height_in_front;
use crate::margins::lemma_lines_agree;
use crate::margins::lines_moved;
use crate::margins::lines_of_boxes;
use crate::margins::MarginStyle;
use crate::sizing::entry;
use crate::sizing::with_entry;
use crate::sizing::Position;
use crate::sizing::ResolvedSizes;
use crate::sizing::Size;
use crate::sizing::SizesModel;
use crate::waiters::moved_by;
use crate::waiters::moves_in_range;
use crate::waiters::settle_waiter;
use crate::waiters::waiter_moves;
use crate::waiters::ContainingModel;
use crate::waiters::ContainingNode;
use crate::waiters::ResumableNode;
use crate::waiters::WaiterStyle;

verus! {

/// What layout knows while it runs.
pub struct LayoutState {
    pub table: LayoutTable,
    /// What the style of each box says about its margins.
    pub margins: Vec<MarginStyle>,
    pub sizes: ResolvedSizes,
    /// For each node, what it holds as a containing node.
    pub containing: Vec<Option<ContainingNode>>,
    /// The canvases that have been laid out, with the sizes of their drawings.
    pub canvases: Vec<(usize, Size)>,
}

/// What a [`LayoutState`] holds.
#[verifier::ext_equal]
pub struct LayoutModel {
    pub boxes: Seq<BoxModel>,
    pub finals: Seq<(usize, usize)>,
    pub margins: Seq<MarginStyle>,
    pub sizes: SizesModel,
    pub containing: Seq<Option<ContainingModel>>,
    pub canvases: Seq<(usize, Size)>,
}

pub open spec fn containing_model(node: Option<ContainingNode>) -> Option<ContainingModel> {
    match node {
        Some(node) => Some(node@),
        None => None,
    }
}

pub open spec fn containing_models(nodes: Seq<Option<ContainingNode>>) -> Seq<
    Option<ContainingModel>,
> {
    Seq::new(nodes.len(), |i: int| containing_model(nodes[i]))
}

impl View for LayoutState {
    type V = LayoutModel;

    open spec fn view(&self) -> LayoutModel {
        LayoutModel {
            boxes: self.table.models(),
            finals: self.table.node_layout@,
            margins: self.margins@,
            sizes: self.sizes@,
            containing: containing_models(self.containing@),
            canvases: self.canvases@,
        }
    }
}

/// The same amount, nothing, for every box.
pub open spec fn unmoved() -> Map<usize, i32> {
    Map::new(|id: usize| true, |id: usize| 0i32)
}

/// Whether all numbers are those of boxes.
pub open spec fn all_boxes(ids: Seq<usize>, count: nat) -> bool {
    forall|k: int| 0 <= k < ids.len() ==> 1 <= #[trigger] ids[k] <= count
}

/// Whether all numbers on all lines are those of boxes.
pub open spec fn lines_all_boxes(lines: Seq<Seq<usize>>, count: nat) -> bool {
    forall|i: int| 0 <= i < lines.len() ==> all_boxes(#[trigger] lines[i], count)
}

impl LayoutModel {
    /// What is known before anything is laid out.
    pub open spec fn initial(count: nat) -> LayoutModel {
        LayoutModel {
            boxes: Seq::empty(),
            finals: Seq::empty(),
            margins: Seq::empty(),
            sizes: SizesModel {
                content: Seq::new(count, |i: int| None),
                heights: Seq::new(count, |i: int| None),
                widths: Seq::new(count, |i: int| None),
                specified_heights: Seq::new(count, |i: int| None),
                specified_widths: Seq::new(count, |i: int| None),
            },
            containing: Seq::new(count, |i: int| None),
            canvases: Seq::empty(),
        }
    }

    /// A box is added. With `save`, the node's entry is set unless it has one already.
    pub open spec fn registered(self, layout_box: BoxModel, margin: MarginStyle, save: bool) -> Result<
        (LayoutModel, usize),
        Stop,
    > {
        if self.boxes.len() + 2 >= usize::MAX {
            Err(Stop::Range)
        } else {
            let id = (self.boxes.len() + 1) as usize;
            Ok(
                (
                    LayoutModel {
                        boxes: self.boxes.push(layout_box),
                        margins: self.margins.push(margin),
                        finals: if save && final_box(self.finals, layout_box.node_idx) is None {
                            self.finals.push((layout_box.node_idx, id))
                        } else {
                            self.finals
                        },
                        ..self
                    },
                    id,
                ),
            )
        }
    }

    /// A box is moved, with everything below it.
    pub open spec fn moved(self, id: usize, dx: int, dy: int) -> Result<LayoutModel, Stop> {
        match shifted(self.boxes, id as int, dx, dy) {
            None => Err(Stop::Range),
            Some(boxes) => Ok(LayoutModel { boxes, ..self }),
        }
    }

    /// The free space is given to the automatic margins of lines.
    pub open spec fn divided(
        self,
        lines: Seq<Seq<usize>>,
        container_width: i32,
        free_space_y: u32,
    ) -> Result<LayoutModel, Stop> {
        match lines_moved(
            self.boxes,
            self.margins,
            lines,
            unmoved(),
            container_width,
            height_in_front(self.margins, lines, free_space_y),
        ) {
            None => Err(Stop::Range),
            Some(boxes) => Ok(LayoutModel { boxes, ..self }),
        }
    }

    /// A node that waited is moved to its place.
    pub open spec fn settled(
        self,
        id: usize,
        style: WaiterStyle,
        waiter: ResumableNode,
        frame: Size,
    ) -> Result<LayoutModel, Stop> {
        let rect = self.boxes[id - 1].rect;
        let after = moved_by(
            self.boxes,
            id as int,
            waiter_moves(style, waiter, frame, rect.width, rect.height),
        );
        if moves_in_range(style, waiter, frame, rect.width, rect.height) && after is Some {
            Ok(LayoutModel { boxes: after->0, ..self })
        } else {
            Err(Stop::Range)
        }
    }

    /// A node becomes a containing node that nothing waits for.
    pub open spec fn opened(self, node_idx: usize, cursor: Position) -> LayoutModel {
        LayoutModel {
            containing: with_entry(
                self.containing,
                node_idx as int,
                Some(ContainingModel { node_idx, cursor, waiters: Seq::empty() }),
            ),
            ..self
        }
    }

    /// A node waits for a containing node.
    pub open spec fn queued(self, containing: usize, waiter: ResumableNode) -> Result<
        LayoutModel,
        Stop,
    > {
        match entry(self.containing, containing as int) {
            None => Err(Stop::NoContainingNode),
            Some(node) => Ok(
                LayoutModel {
                    containing: with_entry(
                        self.containing,
                        containing as int,
                        Some(ContainingModel { waiters: node.waiters.push(waiter), ..node }),
                    ),
                    ..self
                },
            ),
        }
    }
}

impl LayoutState {
    pub open spec fn wf(self) -> bool {
        &&& self.table.wf()
        &&& self.margins@.len() == self.table.boxes@.len()
    }

    /// What is known before anything is laid out.
    pub fn new(count: usize) -> (r: LayoutState)
        ensures
            r.wf(),
            r@ == LayoutModel::initial(count as nat),
    {
        let mut containing: Vec<Option<ContainingNode>> = Vec::new();
        while containing.len() < count
            invariant
                containing@.len() <= count,
                containing_models(containing@) == Seq::new(
                    containing@.len(),
                    |i: int| None::<ContainingModel>,
                ),
            decreases count - containing@.len(),
        {
            let ghost before = containing@;
            containing.push(None);
            assert forall|i: int| 0 <= i < containing@.len() implies #[trigger] containing_models(
                containing@,
            )[i] is None by {
                assert(i < before.len() ==> containing_models(before)[i] is None);
            }
        }
        let r = LayoutState {
            table: LayoutTable::new(),
            margins: Vec::new(),
            sizes: ResolvedSizes::new(count),
            containing,
            canvases: Vec::new(),
        };
        assert(r@ =~= LayoutModel::initial(count as nat));
        r
    }

    pub fn register(&mut self, layout_box: LayoutBox, margin: MarginStyle, save: bool) -> (r: Result<
        usize,
        Stop,
    >)
        requires
            old(self).wf(),
            all_boxes(layout_box.children@, old(self)@.boxes.len()),
        ensures
            final(self).wf(),
            match (r, old(self)@.registered(layout_box@, margin, save)) {
                (Ok(id), Ok(after)) => id == after.1 && final(self)@ == after.0,
                (Err(stop), Err(reason)) => stop == reason,
                _ => false,
            },
    {
        let count: usize = self.margins.len();
        if count >= usize::MAX - 2 {
            return Err(Stop::Range);
        }
        assert(forall|k: int|
            0 <= k < layout_box.children@.len() ==> is_box(
                self.table.models(),
                #[trigger] layout_box.children@[k] as int,
            ));
        let id: usize = self.table.register_layout_box(layout_box, save);
        self.margins.push(margin);
        assert(self.table.models().len() == self.table.boxes@.len());
        Ok(id)
    }

    pub fn rect_of(&self, id: usize) -> (r: Rect)
        requires
            1 <= id <= self@.boxes.len(),
        ensures
            r == self@.boxes[id - 1].rect,
    {
        self.table.boxes[id - 1].rect
    }

    pub fn z_index_of(&self, id: usize) -> (r: i32)
        requires
            1 <= id <= self@.boxes.len(),
        ensures
            r == self@.boxes[id - 1].z_index,
    {
        self.table.boxes[id - 1].z_index
    }

    pub fn move_box(&mut self, id: usize, dx: i32, dy: i32) -> (r: Result<(), Stop>)
        requires
            old(self).wf(),
        ensures
            final(self).wf(),
            final(self)@.boxes.len() == old(self)@.boxes.len(),
            match (r, old(self)@.moved(id, dx as int, dy as int)) {
                (Ok(_), Ok(after)) => final(self)@ == after,
                (Err(stop), Err(reason)) => stop == reason,
                _ => false,
            },
    {
        if self.table.move_entire_box(id, dx, dy) {
            Ok(())
        } else {
            Err(Stop::Range)
        }
    }

    pub fn divide(&mut self, rows: &MarginRows, container_width: i32, free_space_y: u32) -> (r: Result<
        (),
        Stop,
    >)
        requires
            old(self).wf(),
            rows.wf(),
            rows.no_empty_row(),
            rows.unmoved(),
            lines_all_boxes(rows.lines(), old(self)@.boxes.len()),
        ensures
            final(self).wf(),
            final(self)@.boxes.len() == old(self)@.boxes.len(),
            match (r, old(self)@.divided(rows.lines(), container_width, free_space_y)) {
                (Ok(_), Ok(after)) => final(self)@ == after,
                (Err(stop), Err(reason)) => stop == reason,
                _ => false,
            },
    {
        proof {
            let lines = rows.lines();
            assert forall|i: int, k: int|
                0 <= i < rows.rows@.len() && 0 <= k < rows.rows@[i]@.len() implies is_box(
                self.table.models(),
                #[trigger] rows.rows@[i]@[k] as int,
            ) by {
                assert(all_boxes(lines[i], self@.boxes.len()));
                assert(lines[i][k] == rows.rows@[i]@[k]);
            }
            assert(lines_of_boxes(self.table.models(), rows.rows@));
            assert forall|i: int, k: int|
                0 <= i < lines.len() && 0 <= k
                    < lines[i].len() implies rows.alignment_movements@[#[trigger] lines[i][k]]
                == unmoved()[lines[i][k]] by {
                assert(rows.rows@[i]@[k] == lines[i][k]);
                assert(rows.alignment_movements@.contains_key(lines[i][k]));
            }
            lemma_lines_agree(
                self.table.models(),
                self.margins@,
                lines,
                rows.alignment_movements@,
                unmoved(),
                container_width,
                height_in_front(self.margins@, lines, free_space_y),
            );
        }
        if divide_free_space_for_margin(
            &mut self.table,
            &self.margins,
            rows,
            container_width,
            free_space_y,
        ) {
            Ok(())
        } else {
            Err(Stop::Range)
        }
    }

    pub fn settle(
        &mut self,
        id: usize,
        style: &WaiterStyle,
        waiter: &ResumableNode,
        frame: &Size,
    ) -> (r: Result<(), Stop>)
        requires
            old(self).wf(),
            1 <= id <= old(self)@.boxes.len(),
        ensures
            final(self).wf(),
            final(self)@.boxes.len() == old(self)@.boxes.len(),
            match (r, old(self)@.settled(id, *style, *waiter, *frame)) {
                (Ok(_), Ok(after)) => final(self)@ == after,
                (Err(stop), Err(reason)) => stop == reason,
                _ => false,
            },
    {
        if settle_waiter(&mut self.table, id, style, waiter, frame) {
            Ok(())
        } else {
            Err(Stop::Range)
        }
    }

    pub fn open_containing(&mut self, node_idx: usize, cursor: Position)
        requires
            old(self).wf(),
        ensures
            final(self).wf(),
            final(self)@ == old(self)@.opened(node_idx, cursor),
    {
        if node_idx < self.containing.len() {
            let node = ContainingNode::new(node_idx, cursor);
            assert(node@.waiters =~= Seq::empty());
            self.containing[node_idx] = Some(node);
        }
        assert(self@ =~= old(self)@.opened(node_idx, cursor));
    }

    pub fn queue(&mut self, containing: usize, waiter: ResumableNode) -> (r: Result<(), Stop>)
        requires
            old(self).wf(),
        ensures
            final(self).wf(),
            match (r, old(self)@.queued(containing, waiter)) {
                (Ok(_), Ok(after)) => final(self)@ == after,
                (Err(stop), Err(reason)) => stop == reason,
                _ => false,
            },
    {
        if containing >= self.containing.len() {
            return Err(Stop::NoContainingNode);
        }
        let mut taken: Option<ContainingNode> = None;
        std::mem::swap(&mut taken, &mut self.containing[containing]);
        match taken {
            None => {
                Err(Stop::NoContainingNode)
            },
            Some(mut node) => {
                node.queue(waiter.node_idx, waiter.static_position_offset);
                self.containing[containing] = Some(node);
                assert(self@.containing =~= (old(self)@.queued(containing, waiter)->Ok_0).containing);
                Ok(())
            },
        }
    }

    /// What a node holds as a containing node: where it stands, and what waits for it.
    pub fn containing_of(&self, node_idx: usize) -> (r: Option<(Position, Vec<ResumableNode>)>)
        ensures
            match (r, entry(self@.containing, node_idx as int)) {
                (Some(found), Some(node)) => found.0 == node.cursor && found.1@ == node.waiters,
                (None, None) => true,
                _ => false,
            },
    {
        if node_idx >= self.containing.len() {
            return None;
        }
        match &self.containing[node_idx] {
            None => None,
            Some(node) => {
                let mut waiters: Vec<ResumableNode> = Vec::new();
                let mut at: usize = 0;
                while at < node.waiters.len()
                    invariant
                        at <= node.waiters@.len(),
                        waiters@ =~= node.waiters@.take(at as int),
                    decreases node.waiters@.len() - at,
                {
                    waiters.push(node.waiters[at]);
                    at = at + 1;
                }
                assert(waiters@ =~= node.waiters@);
                Some((node.cursor, waiters))
            },
        }
    }
}

} // verus!
