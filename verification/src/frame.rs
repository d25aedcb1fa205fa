//! How a frame answers what happens to it. A frame is a page of its own: a tab, or a frame inside
//! another page. Its answer is a list of steps, which its thread performs in order.
use std::collections::HashSet;
use vstd::prelude::*;

use crate::boxes::in_i32;
use crate::boxes::is_box;
use crate::boxes::LayoutTable;
use crate::dom::lookup;
use crate::dom::node_at;
use crate::dom::with_node;
use crate::dom::with_value;
use crate::dom::AttributesModel;
use crate::dom::Node;
use crate::dom::NodeModel;
use crate::dom::NodesModel;
use crate::dom::NodesTable;
use crate::forms::FormMethod;
use crate::forms::FormNavigation;
use crate::forms::NavigationModel;
use crate::host::get_input_code;
use crate::host::get_message_code;
use crate::host::input_code;
use crate::host::input_type;
use crate::host::json_text;
use crate::host::message_code;
use crate::paint::RenderedNode;
use crate::text::push_text;
use crate::urls::join_url;
use crate::urls::joined_url;
use crate::urls::optional_view;
use crate::viewport::find_rendered;
use crate::viewport::first_rendered;

verus! {

broadcast use vstd::std_specs::hash::group_hash_axioms;

/// What a frame keeps in mind between two commands.
#[derive(Debug, Clone, Copy, PartialEq, Eq, Structural)]
pub struct FrameFlags {
    /// The document was changed and has not been laid out since.
    pub pending_dom_update: bool,
    /// A canvas was drawn on and has not been painted since.
    pub pending_canvas_update: bool,
    pub layout_dirty: bool,
    pub layout_booted: bool,
    pub animation_frame_requested: bool,
    pub dom_content_loaded_dispatched: bool,
    pub load_dispatched: bool,
    /// How many documents the frame has replaced.
    pub document_id: u64,
    pub width: u32,
    pub height: u32,
}

impl FrameFlags {
    /// A frame that has done nothing yet.
    pub fn new(width: u32, height: u32) -> (r: FrameFlags)
        ensures
            r == (FrameFlags {
                pending_dom_update: false,
                pending_canvas_update: false,
                layout_dirty: true,
                layout_booted: false,
                animation_frame_requested: false,
                dom_content_loaded_dispatched: false,
                load_dispatched: false,
                document_id: 0,
                width,
                height,
            }),
    {
        FrameFlags {
            pending_dom_update: false,
            pending_canvas_update: false,
            layout_dirty: true,
            layout_booted: false,
            animation_frame_requested: false,
            dom_content_loaded_dispatched: false,
            load_dispatched: false,
            document_id: 0,
            width,
            height,
        }
    }

    /// Asks for the document to be laid out again. Gives whether the frame is to be told: it is not
    /// where it was told before, or nobody listens yet.
    pub fn schedule_dom_update(&mut self, listening: bool) -> (r: bool)
        ensures
            r == (listening && !old(self).pending_dom_update),
            *final(self) == (FrameFlags {
                pending_dom_update: old(self).pending_dom_update || listening,
                ..*old(self)
            }),
    {
        if !self.pending_dom_update && listening {
            self.pending_dom_update = true;
            true
        } else {
            false
        }
    }

    /// Asks for a canvas to be painted again.
    pub fn schedule_canvas_update(&mut self, listening: bool) -> (r: bool)
        ensures
            r == (listening && !old(self).pending_canvas_update),
            *final(self) == (FrameFlags {
                pending_canvas_update: old(self).pending_canvas_update || listening,
                ..*old(self)
            }),
    {
        if !self.pending_canvas_update && listening {
            self.pending_canvas_update = true;
            true
        } else {
            false
        }
    }

    /// Starts to process a change of the document. Gives whether there is one; afterwards there is
    /// none, and the layout has to be built again.
    pub fn begin_dom_update(&mut self) -> (r: bool)
        ensures
            r == old(self).pending_dom_update,
            *final(self) == (if r {
                FrameFlags { pending_dom_update: false, layout_dirty: true, ..*old(self) }
            } else {
                *old(self)
            }),
    {
        if self.pending_dom_update {
            self.pending_dom_update = false;
            self.layout_dirty = true;
            true
        } else {
            false
        }
    }

    /// Starts to paint. Gives whether the layout has to be built, and whether it is the first time.
    pub fn begin_render(&mut self) -> (r: (bool, bool))
        ensures
            r == (old(self).layout_dirty, !old(self).layout_booted),
            *final(self) == (FrameFlags { layout_dirty: false, layout_booted: true, ..*old(self) }),
    {
        let rebuild = self.layout_dirty;
        let first = !self.layout_booted;
        self.layout_dirty = false;
        self.layout_booted = true;
        (rebuild, first)
    }

    /// Whether the page is to be told that its content is there. It is told once.
    pub fn dispatch_dom_content_loaded_once(&mut self) -> (r: bool)
        ensures
            r == !old(self).dom_content_loaded_dispatched,
            *final(self) == (FrameFlags { dom_content_loaded_dispatched: true, ..*old(self) }),
    {
        let first = !self.dom_content_loaded_dispatched;
        self.dom_content_loaded_dispatched = true;
        first
    }

    /// Whether the page is to be told that it has loaded. It is told once.
    pub fn dispatch_load_once(&mut self) -> (r: bool)
        ensures
            r == !old(self).load_dispatched,
            *final(self) == (FrameFlags { load_dispatched: true, ..*old(self) }),
    {
        let first = !self.load_dispatched;
        self.load_dispatched = true;
        first
    }

    /// Another document takes the place of the present one.
    pub fn replace_document(&mut self)
        requires
            old(self).document_id < u64::MAX,
        ensures
            *final(self) == (FrameFlags {
                pending_dom_update: false,
                pending_canvas_update: false,
                layout_dirty: true,
                animation_frame_requested: false,
                dom_content_loaded_dispatched: false,
                load_dispatched: false,
                document_id: (old(self).document_id + 1) as u64,
                ..*old(self)
            }),
    {
        self.pending_dom_update = false;
        self.pending_canvas_update = false;
        self.layout_dirty = true;
        self.animation_frame_requested = false;
        self.dom_content_loaded_dispatched = false;
        self.load_dispatched = false;
        self.document_id = self.document_id + 1;
    }
}

/// Where a navigation leads: a text that is read relative to the page, or what a form says.
#[derive(Debug)]
pub enum UserNavigateUrl {
    Raw(String),
    Form(FormNavigation),
}

/// What happens to a frame.
#[derive(Debug)]
pub enum FrameCommand {
    Render,
    Resized { width: u32, height: u32 },
    DomUpdated,
    CanvasUpdated,
    ImagesPrefetched,
    /// A frame inside the page was painted.
    FrameUpdated,
    /// A frame inside the page has loaded.
    FrameLoaded(usize),
    AnimationFrameRequested,
    ChildMessage(String),
    ParentMessage(String),
    Navigate { url: UserNavigateUrl, reload: bool },
    Hover { x: i32, y: i32 },
    Click,
    Keyup,
    ScrollBy,
    IntersectionTracked,
    /// A question or a request about the document.
    Dom,
}

/// What a frame does.
#[derive(Debug)]
pub enum FrameStep {
    /// Images that were fetched are put where painting finds them.
    FinishImagePrefetch,
    /// Changes of the document are processed until there are none.
    ProcessDomUpdates,
    ApplyHovering { x: i32, y: i32 },
    Click,
    /// The page is painted, after its layout was built where that is asked for.
    Paint { rebuild_layout: bool },
    /// The page around the frame is told that it was painted.
    AnnounceFrame,
    /// The page around the frame is handed a message.
    PassToParent(String),
    Run(String),
    AnswerDom,
    /// The tab is painted and shown.
    RenderLoop,
    RequestRedraw,
    FireLoadPhase(usize),
    /// Another document is loaded.
    Load(FormNavigation),
    /// The page stays and its address changes.
    Relocate(String),
    HandleKeyup,
    Scroll,
    RefreshIntersections,
    /// The address cannot be read.
    InvalidUrl,
}

/// What a [`FrameStep`] holds.
pub enum StepModel {
    FinishImagePrefetch,
    ProcessDomUpdates,
    ApplyHovering { x: i32, y: i32 },
    Click,
    Paint { rebuild_layout: bool },
    AnnounceFrame,
    PassToParent(Seq<char>),
    Run(Seq<char>),
    AnswerDom,
    RenderLoop,
    RequestRedraw,
    FireLoadPhase(usize),
    Load(NavigationModel),
    Relocate(Seq<char>),
    HandleKeyup,
    Scroll,
    RefreshIntersections,
    InvalidUrl,
}

impl View for FrameStep {
    type V = StepModel;

    open spec fn view(&self) -> StepModel {
        match *self {
            FrameStep::FinishImagePrefetch => StepModel::FinishImagePrefetch,
            FrameStep::ProcessDomUpdates => StepModel::ProcessDomUpdates,
            FrameStep::ApplyHovering { x, y } => StepModel::ApplyHovering { x, y },
            FrameStep::Click => StepModel::Click,
            FrameStep::Paint { rebuild_layout } => StepModel::Paint { rebuild_layout },
            FrameStep::AnnounceFrame => StepModel::AnnounceFrame,
            FrameStep::PassToParent(message) => StepModel::PassToParent(message@),
            FrameStep::Run(code) => StepModel::Run(code@),
            FrameStep::AnswerDom => StepModel::AnswerDom,
            FrameStep::RenderLoop => StepModel::RenderLoop,
            FrameStep::RequestRedraw => StepModel::RequestRedraw,
            FrameStep::FireLoadPhase(idx) => StepModel::FireLoadPhase(idx),
            FrameStep::Load(navigation) => StepModel::Load(navigation@),
            FrameStep::Relocate(url) => StepModel::Relocate(url@),
            FrameStep::HandleKeyup => StepModel::HandleKeyup,
            FrameStep::Scroll => StepModel::Scroll,
            FrameStep::RefreshIntersections => StepModel::RefreshIntersections,
            FrameStep::InvalidUrl => StepModel::InvalidUrl,
        }
    }
}

pub open spec fn step_models(steps: Seq<FrameStep>) -> Seq<StepModel> {
    Seq::new(steps.len(), |i: int| steps[i]@)
}

/// How a frame inside another page answers a command.
pub open spec fn framed(flags: FrameFlags, command: FrameCommand) -> (FrameFlags, Seq<StepModel>) {
    match command {
        FrameCommand::Render => (
            flags,
            seq![
                StepModel::ProcessDomUpdates,
                StepModel::Paint { rebuild_layout: true },
                StepModel::AnnounceFrame,
            ],
        ),
        // The change may have been processed before the command came.
        FrameCommand::DomUpdated => (
            flags,
            if flags.pending_dom_update {
                seq![
                    StepModel::ProcessDomUpdates,
                    StepModel::Paint { rebuild_layout: true },
                    StepModel::AnnounceFrame,
                ]
            } else {
                Seq::empty()
            },
        ),
        FrameCommand::CanvasUpdated => (
            FrameFlags { pending_canvas_update: false, ..flags },
            seq![
                StepModel::ProcessDomUpdates,
                StepModel::Paint { rebuild_layout: false },
                StepModel::AnnounceFrame,
            ],
        ),
        FrameCommand::ImagesPrefetched => (
            flags,
            seq![
                StepModel::FinishImagePrefetch,
                StepModel::ProcessDomUpdates,
                StepModel::Paint { rebuild_layout: true },
                StepModel::AnnounceFrame,
            ],
        ),
        FrameCommand::Hover { x, y } => (
            flags,
            seq![
                StepModel::ApplyHovering { x, y },
                StepModel::Paint { rebuild_layout: true },
                StepModel::AnnounceFrame,
            ],
        ),
        FrameCommand::Click => (
            flags,
            seq![
                StepModel::Click,
                StepModel::ProcessDomUpdates,
                StepModel::Paint { rebuild_layout: true },
                StepModel::AnnounceFrame,
            ],
        ),
        FrameCommand::ChildMessage(message) => (flags, seq![StepModel::PassToParent(message@)]),
        FrameCommand::ParentMessage(message) => (
            flags,
            seq![StepModel::Run(message_code(json_text(message@)))],
        ),
        FrameCommand::Dom => (flags, seq![StepModel::AnswerDom]),
        FrameCommand::AnimationFrameRequested => (
            FrameFlags { animation_frame_requested: true, ..flags },
            Seq::empty(),
        ),
        _ => (flags, Seq::empty()),
    }
}

/// How a frame inside another page answers a command.
pub fn handle_frame_command(flags: &mut FrameFlags, command: FrameCommand) -> (r: Vec<FrameStep>)
    ensures
        (*final(flags), step_models(r@)) == framed(*old(flags), command),
{
    let ghost start = *flags;
    let mut steps: Vec<FrameStep> = Vec::new();
    match command {
        FrameCommand::Render => {
            steps.push(FrameStep::ProcessDomUpdates);
            steps.push(FrameStep::Paint { rebuild_layout: true });
            steps.push(FrameStep::AnnounceFrame);
        },
        FrameCommand::DomUpdated => {
            if flags.pending_dom_update {
                steps.push(FrameStep::ProcessDomUpdates);
                steps.push(FrameStep::Paint { rebuild_layout: true });
                steps.push(FrameStep::AnnounceFrame);
            }
        },
        FrameCommand::CanvasUpdated => {
            flags.pending_canvas_update = false;
            steps.push(FrameStep::ProcessDomUpdates);
            steps.push(FrameStep::Paint { rebuild_layout: false });
            steps.push(FrameStep::AnnounceFrame);
        },
        FrameCommand::ImagesPrefetched => {
            steps.push(FrameStep::FinishImagePrefetch);
            steps.push(FrameStep::ProcessDomUpdates);
            steps.push(FrameStep::Paint { rebuild_layout: true });
            steps.push(FrameStep::AnnounceFrame);
        },
        FrameCommand::Hover { x, y } => {
            steps.push(FrameStep::ApplyHovering { x, y });
            steps.push(FrameStep::Paint { rebuild_layout: true });
            steps.push(FrameStep::AnnounceFrame);
        },
        FrameCommand::Click => {
            steps.push(FrameStep::Click);
            steps.push(FrameStep::ProcessDomUpdates);
            steps.push(FrameStep::Paint { rebuild_layout: true });
            steps.push(FrameStep::AnnounceFrame);
        },
        FrameCommand::ChildMessage(message) => {
            steps.push(FrameStep::PassToParent(message));
        },
        FrameCommand::ParentMessage(message) => {
            steps.push(FrameStep::Run(get_message_code(message.as_str())));
        },
        FrameCommand::Dom => {
            steps.push(FrameStep::AnswerDom);
        },
        FrameCommand::AnimationFrameRequested => {
            flags.animation_frame_requested = true;
        },
        _ => {},
    }
    assert(step_models(steps@) =~= framed(start, command).1);
    steps
}

/// The navigation that an address asks for; nothing where it cannot be read.
pub open spec fn navigated(current: Seq<char>, url: UserNavigateUrl) -> Option<NavigationModel> {
    match url {
        UserNavigateUrl::Raw(raw) => match joined_url(current, raw@) {
            Some(url) => Some(NavigationModel { url, method: FormMethod::Get, body: None }),
            None => None,
        },
        UserNavigateUrl::Form(navigation) => Some(navigation@),
    }
}

/// How a tab answers a command. Its page is at `url`.
pub open spec fn answered(flags: FrameFlags, url: Seq<char>, command: FrameCommand) -> (
    FrameFlags,
    Seq<StepModel>,
) {
    match command {
        FrameCommand::Render => (flags, seq![StepModel::RenderLoop]),
        FrameCommand::Resized { width, height } => (
            FrameFlags { width, height, layout_dirty: true, ..flags },
            seq![StepModel::RenderLoop],
        ),
        FrameCommand::FrameUpdated => (flags, seq![StepModel::RenderLoop]),
        FrameCommand::CanvasUpdated => (
            FrameFlags { pending_canvas_update: false, ..flags },
            seq![StepModel::RenderLoop],
        ),
        FrameCommand::ImagesPrefetched => (
            FrameFlags { layout_dirty: true, ..flags },
            seq![StepModel::FinishImagePrefetch, StepModel::RenderLoop],
        ),
        FrameCommand::FrameLoaded(idx) => (flags, seq![StepModel::FireLoadPhase(idx)]),
        FrameCommand::AnimationFrameRequested => (
            FrameFlags { animation_frame_requested: true, ..flags },
            Seq::empty(),
        ),
        // The change may have been processed before the command came.
        FrameCommand::DomUpdated => (
            flags,
            if flags.pending_dom_update {
                seq![StepModel::ProcessDomUpdates, StepModel::RequestRedraw]
            } else {
                Seq::empty()
            },
        ),
        FrameCommand::ChildMessage(message) => (
            flags,
            seq![StepModel::Run(message_code(json_text(message@)))],
        ),
        FrameCommand::Navigate { url: to, reload } => (
            flags,
            match navigated(url, to) {
                Some(navigation) => seq![
                    if reload {
                        StepModel::Load(navigation)
                    } else {
                        StepModel::Relocate(navigation.url)
                    },
                ],
                None => seq![StepModel::InvalidUrl],
            },
        ),
        FrameCommand::Hover { x, y } => (flags, seq![StepModel::ApplyHovering { x, y }]),
        FrameCommand::Click => (flags, seq![StepModel::Click]),
        FrameCommand::Keyup => (flags, seq![StepModel::HandleKeyup]),
        FrameCommand::ScrollBy => (flags, seq![StepModel::Scroll]),
        FrameCommand::IntersectionTracked => (flags, seq![StepModel::RefreshIntersections]),
        _ => (flags, Seq::empty()),
    }
}

fn get_navigation(current: &str, url: UserNavigateUrl) -> (r: Option<FormNavigation>)
    ensures
        match (r, navigated(current@, url)) {
            (Some(navigation), Some(model)) => navigation@ == model,
            (None, None) => true,
            _ => false,
        },
{
    match url {
        UserNavigateUrl::Raw(raw) => match join_url(current, raw.as_str()) {
            Some(url) => Some(FormNavigation { url, method: FormMethod::Get, body: None }),
            None => None,
        },
        UserNavigateUrl::Form(navigation) => Some(navigation),
    }
}

/// How a tab answers a command. Its page is at `url`.
pub fn handle_main_event(flags: &mut FrameFlags, url: &str, command: FrameCommand) -> (r: Vec<
    FrameStep,
>)
    ensures
        (*final(flags), step_models(r@)) == answered(*old(flags), url@, command),
{
    let ghost start = *flags;
    let mut steps: Vec<FrameStep> = Vec::new();
    match command {
        FrameCommand::Render => {
            steps.push(FrameStep::RenderLoop);
        },
        FrameCommand::Resized { width, height } => {
            flags.width = width;
            flags.height = height;
            flags.layout_dirty = true;
            steps.push(FrameStep::RenderLoop);
        },
        FrameCommand::FrameUpdated => {
            steps.push(FrameStep::RenderLoop);
        },
        FrameCommand::CanvasUpdated => {
            flags.pending_canvas_update = false;
            steps.push(FrameStep::RenderLoop);
        },
        FrameCommand::ImagesPrefetched => {
            flags.layout_dirty = true;
            steps.push(FrameStep::FinishImagePrefetch);
            steps.push(FrameStep::RenderLoop);
        },
        FrameCommand::FrameLoaded(idx) => {
            steps.push(FrameStep::FireLoadPhase(idx));
        },
        FrameCommand::AnimationFrameRequested => {
            flags.animation_frame_requested = true;
        },
        FrameCommand::DomUpdated => {
            if flags.pending_dom_update {
                steps.push(FrameStep::ProcessDomUpdates);
                steps.push(FrameStep::RequestRedraw);
            }
        },
        FrameCommand::ChildMessage(message) => {
            steps.push(FrameStep::Run(get_message_code(message.as_str())));
        },
        FrameCommand::Navigate { url: to, reload } => {
            match get_navigation(url, to) {
                Some(navigation) => {
                    if reload {
                        steps.push(FrameStep::Load(navigation));
                    } else {
                        steps.push(FrameStep::Relocate(navigation.url));
                    }
                },
                None => {
                    steps.push(FrameStep::InvalidUrl);
                },
            }
        },
        FrameCommand::Hover { x, y } => {
            steps.push(FrameStep::ApplyHovering { x, y });
        },
        FrameCommand::Click => {
            steps.push(FrameStep::Click);
        },
        FrameCommand::Keyup => {
            steps.push(FrameStep::HandleKeyup);
        },
        FrameCommand::ScrollBy => {
            steps.push(FrameStep::Scroll);
        },
        FrameCommand::IntersectionTracked => {
            steps.push(FrameStep::RefreshIntersections);
        },
        _ => {},
    }
    assert(step_models(steps@) =~= answered(start, url@, command).1);
    steps
}

/// The background of what is under the pointer where that is to be marked.
pub const MARK_COLOR: u32 = 0x32a8_52ff;

/// What follows when the pointer has moved.
#[derive(Debug, Clone, Copy, PartialEq, Eq)]
pub struct HoverChange {
    /// Styles depend on the box that the pointer left or on the one that it came to, or what is under
    /// the pointer is to be marked.
    pub restyle: bool,
    /// The node whose background is to have [`MARK_COLOR`].
    pub marked: Option<usize>,
    /// The frame under the pointer, and where in it the pointer is.
    pub frame: Option<(usize, i32, i32)>,
}

pub open spec fn has_impact(table: LayoutTable, impact: Set<usize>, id: Option<usize>) -> bool {
    id matches Some(id) && is_box(table.boxes@, id as int) && impact.contains(
        table.boxes@[id - 1].node_idx,
    )
}

/// The frame under the pointer and where in it the pointer is; nothing where that leaves the `i32`
/// range.
pub open spec fn hovered_frame(
    nodes: NodesModel,
    table: LayoutTable,
    rendered: Seq<RenderedNode>,
    hovering: Option<usize>,
    x: i32,
    y: i32,
) -> Option<(usize, i32, i32)> {
    match hovering {
        Some(id) => if is_box(table.boxes@, id as int) {
            let layout = table.boxes@[id - 1];
            match (node_at(nodes, layout.node_idx), first_rendered(rendered, id)) {
                (Some(node), Some(entry)) => {
                    let local_x = x - layout.rect.x - entry.offset_x;
                    let local_y = y - layout.rect.y - entry.offset_y;
                    if node.has_tag("iframe"@) && in_i32(local_x) && in_i32(local_y) {
                        Some((layout.node_idx, local_x as i32, local_y as i32))
                    } else {
                        None
                    }
                },
                _ => None,
            }
        } else {
            None
        },
        None => None,
    }
}

/// What follows when the pointer has moved from one box to another. With `marking`, what is under the
/// pointer is marked.
pub fn apply_hovering(
    nodes: &NodesTable,
    table: &LayoutTable,
    rendered: &Vec<RenderedNode>,
    impact: &HashSet<usize>,
    before: Option<usize>,
    hovering: Option<usize>,
    x: i32,
    y: i32,
    marking: bool,
) -> (r: HoverChange)
    ensures
        r.restyle == (marking || hovering != before && (has_impact(*table, impact@, hovering)
            || has_impact(*table, impact@, before))),
        r.marked == (match hovering {
            Some(id) => if marking && is_box(table.boxes@, id as int) {
                Some(table.boxes@[id - 1].node_idx)
            } else {
                None
            },
            None => None,
        }),
        r.frame == hovered_frame(nodes@, *table, rendered@, hovering, x, y),
{
    let moved = match (hovering, before) {
        (Some(a), Some(b)) => a != b,
        (None, None) => false,
        _ => true,
    };
    let restyle = marking || moved && (matters(table, impact, hovering) || matters(
        table,
        impact,
        before,
    ));
    let marked: Option<usize> = match hovering {
        Some(id) => if marking && 1 <= id && id <= table.boxes.len() {
            Some(table.boxes[id - 1].node_idx)
        } else {
            None
        },
        None => None,
    };
    let frame = find_hovered_frame(nodes, table, rendered, hovering, x, y);
    HoverChange { restyle, marked, frame }
}

fn matters(table: &LayoutTable, impact: &HashSet<usize>, id: Option<usize>) -> (r: bool)
    ensures
        r == has_impact(*table, impact@, id),
{
    match id {
        Some(id) => 1 <= id && id <= table.boxes.len() && impact.contains(
            &table.boxes[id - 1].node_idx,
        ),
        None => false,
    }
}

fn find_hovered_frame(
    nodes: &NodesTable,
    table: &LayoutTable,
    rendered: &Vec<RenderedNode>,
    hovering: Option<usize>,
    x: i32,
    y: i32,
) -> (r: Option<(usize, i32, i32)>)
    ensures
        r == hovered_frame(nodes@, *table, rendered@, hovering, x, y),
{
    let id: usize = match hovering {
        Some(id) => id,
        None => {
            return None;
        },
    };
    if id < 1 || id > table.boxes.len() {
        return None;
    }
    let layout = &table.boxes[id - 1];
    let frame = match nodes.get(layout.node_idx) {
        Some(node) => node.is_element("iframe"),
        None => false,
    };
    let entry = match find_rendered(rendered, id) {
        Some(entry) => entry,
        None => {
            return None;
        },
    };
    let local_x: i64 = x as i64 - layout.rect.x as i64 - entry.offset_x as i64;
    let local_y: i64 = y as i64 - layout.rect.y as i64 - entry.offset_y as i64;
    if frame && i32::MIN as i64 <= local_x && local_x <= i32::MAX as i64 && i32::MIN as i64
        <= local_y && local_y <= i32::MAX as i64 {
        Some((layout.node_idx, local_x as i32, local_y as i32))
    } else {
        None
    }
}

/// The attributes after a text has been typed at the end of the value.
pub open spec fn with_typed(attributes: AttributesModel, text: Seq<char>) -> AttributesModel {
    with_value(
        attributes,
        "value"@,
        match lookup(attributes, "value"@) {
            Some(value) => value + text,
            None => text,
        },
    )
}

/// A text is typed into the control that has the focus. Gives the code that tells the control, where
/// there is one.
pub fn handle_keyup(nodes: &mut NodesTable, focusable: Option<usize>, text: Option<&str>) -> (r:
    Option<String>)
    ensures
        match (focusable, text) {
            (Some(idx), Some(text)) => match node_at(old(nodes)@, idx) {
                Some(NodeModel::Element { tag, attributes, parent }) => {
                    &&& optional_view(r) == Some(
                        input_code(json_text(text@), json_text(input_type(text@)), idx),
                    )
                    &&& final(nodes)@ == with_node(
                        old(nodes)@,
                        idx,
                        NodeModel::Element {
                            tag,
                            attributes: with_typed(attributes, text@),
                            parent,
                        },
                    )
                    &&& final(nodes).cursor == old(nodes).cursor
                },
                _ => r is None && *final(nodes) == *old(nodes),
            },
            _ => r is None && *final(nodes) == *old(nodes),
        },
{
    let (idx, text): (usize, &str) = match (focusable, text) {
        (Some(idx), Some(text)) => (idx, text),
        _ => {
            return None;
        },
    };
    let mut attributes = match nodes.get(idx) {
        Some(Node::Element(element)) => element.attributes.copy(),
        _ => {
            return None;
        },
    };
    let mut value = match attributes.get_str("value") {
        Some(value) => value.clone(),
        None => String::new(),
    };
    let ghost before = value@;
    push_text(&mut value, text);
    assert(before.len() == 0 ==> value@ =~= text@);
    attributes.insert("value".to_owned(), value);
    nodes.set_attributes(idx, attributes);
    Some(get_input_code(text, idx))
}

} // verus!
