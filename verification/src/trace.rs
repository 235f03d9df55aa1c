//! Drag-to-trace: the gesture state machine that turns a drag between two
//! nodes into a trace request, running the trace, and the one-time
//! onboarding hint that the first trace dismisses.
//!
//! The pointer position is carried through the gesture untouched, so the
//! state machine is generic over its type `P`.

use crate::app::SeamExplorerApp;
use crate::call_path::{trace_path, traces, TracePath};
use crate::graph::{edge_slots, reaches};
use crate::ingest::{has_id, position_of};
use crate::model::Model;
use vstd::prelude::*;

verus! {

/// One trace attempt: its endpoints (node ids) and the path found, `None`
/// when there is no directed call path.
#[derive(Debug, Clone)]
pub struct TraceResult {
    pub from: String,
    pub to: String,
    pub path: Option<TracePath>,
}

/// The gesture: no drag, a drag from node `from` now at `cursor`, or a drag
/// completed from `from` onto the different node `to`.
#[derive(Debug, Clone, PartialEq, Default)]
pub enum TraceGesture<P> {
    #[default]
    Idle,
    Dragging { from: String, cursor: P },
    Completed { from: String, to: String },
}

/// One frame's pointer input, already resolved to the node under it.
#[derive(Debug, Clone)]
pub enum GestureInput<P> {
    /// A drag began over `node`.
    DragStart { node: String, cursor: P },
    /// The pointer moved while dragging.
    DragMove { cursor: P },
    /// The drag ended over `node`, or over empty canvas.
    DragStop { node: Option<String> },
}

/// The next gesture state. With trace mode off every input leaves the
/// gesture idle. A drag start always (re)starts a drag; a move while
/// dragging follows the pointer; a drop onto another node completes the
/// drag; a drop onto the start node or onto empty canvas abandons it; any
/// other input leaves the state as it is.
pub open spec fn gesture_step<P>(state: TraceGesture<P>, input: GestureInput<P>, trace_mode: bool) -> TraceGesture<P> {
    if !trace_mode {
        TraceGesture::Idle
    } else {
        match input {
            GestureInput::DragStart { node, cursor } => TraceGesture::Dragging { from: node, cursor },
            GestureInput::DragMove { cursor } => match state {
                TraceGesture::Dragging { from, .. } => TraceGesture::Dragging { from, cursor },
                _ => state,
            },
            GestureInput::DragStop { node } => match state {
                TraceGesture::Dragging { from, .. } => match node {
                    Some(to) => if to@ == from@ {
                        TraceGesture::Idle
                    } else {
                        TraceGesture::Completed { from, to }
                    },
                    None => TraceGesture::Idle,
                },
                _ => state,
            },
        }
    }
}

/// A completed gesture, if `g` is one, joins two different nodes.
pub open spec fn joins_two_nodes<P>(g: TraceGesture<P>) -> bool {
    g matches TraceGesture::Completed { from, to } ==> from@ != to@
}

/// Advances the gesture by one input. A completed gesture always joins two
/// different nodes, and nothing but a drop while dragging completes one.
pub fn update_gesture<P>(state: TraceGesture<P>, input: GestureInput<P>, trace_mode: bool) -> (r: TraceGesture<P>)
    ensures
        r == gesture_step(state, input, trace_mode),
        !trace_mode ==> r is Idle,
        joins_two_nodes(state) ==> joins_two_nodes(r),
        r is Completed ==> (state is Completed && r == state) || (state is Dragging && input is DragStop),
{
    if !trace_mode {
        return TraceGesture::Idle;
    }
    match input {
        GestureInput::DragStart { node, cursor } => TraceGesture::Dragging { from: node, cursor },
        GestureInput::DragMove { cursor } => match state {
            TraceGesture::Dragging { from, .. } => TraceGesture::Dragging { from, cursor },
            other => other,
        },
        GestureInput::DragStop { node } => match state {
            TraceGesture::Dragging { from, .. } => match node {
                Some(to) => {
                    if to == from {
                        TraceGesture::Idle
                    } else {
                        TraceGesture::Completed { from, to }
                    }
                },
                None => TraceGesture::Idle,
            },
            other => other,
        },
    }
}

/// Traces the call path from node `from` to node `to`, keeping both ends
/// for the panel's messages.
pub fn run(model: &Model, from: &str, to: &str) -> (r: TraceResult)
    requires
        model.wf(),
    ensures
        r.from@ == from@,
        r.to@ == to@,
        r.path is Some <==> has_id(model.nodes(), from@) && has_id(model.nodes(), to@) && reaches(
            edge_slots(model.graph),
            position_of(model.nodes(), from@),
            position_of(model.nodes(), to@),
        ),
        r.path matches Some(t) ==> traces(t, *model, from@, to@),
{
    let path = trace_path(model, from, to);
    TraceResult { from: from.to_owned(), to: to.to_owned(), path }
}

/// Marks the onboarding hint as seen on the first successful trace: `true`
/// when this call set the flag, `false` when it was already set. Nothing
/// else changes.
pub fn dismiss_on_first_trace(app: &mut SeamExplorerApp) -> (r: bool)
    ensures
        r == !old(app).has_seen_trace_onboarding,
        final(app).has_seen_trace_onboarding,
        final(app).model == old(app).model,
        final(app).seams == old(app).seams,
        final(app).focus == old(app).focus,
        final(app).detail == old(app).detail,
        final(app).trace == old(app).trace,
        final(app).trace_mode == old(app).trace_mode,
        final(app).banner == old(app).banner,
        final(app).search_query == old(app).search_query,
{
    if app.has_seen_trace_onboarding {
        return false;
    }
    app.has_seen_trace_onboarding = true;
    true
}

/// What finishing a gesture does to the explorer: a completed gesture,
/// with a graph loaded, shows the trace between its two nodes (and a found
/// path dismisses the onboarding hint) and clears the focused seam and its
/// detail, so a trace and a focused seam never show together; nothing else
/// changes it.
pub open spec fn gesture_finished<P>(before: SeamExplorerApp, after: SeamExplorerApp, g: TraceGesture<P>) -> bool {
    &&& after.model == before.model
    &&& after.seams == before.seams
    &&& after.trace_mode == before.trace_mode
    &&& after.banner == before.banner
    &&& after.search_query == before.search_query
    &&& match g {
        TraceGesture::Completed { from, to } => match before.model {
            Some(m) => {
                &&& after.trace matches Some(t) && t.from@ == from@ && t.to@ == to@ && (t.path is Some
                    <==> has_id(m.nodes(), from@) && has_id(m.nodes(), to@) && reaches(
                    edge_slots(m.graph),
                    position_of(m.nodes(), from@),
                    position_of(m.nodes(), to@),
                )) && (t.path matches Some(p) ==> traces(p, m, from@, to@))
                &&& after.has_seen_trace_onboarding == (before.has_seen_trace_onboarding
                    || after.trace->0.path is Some)
                &&& after.focus is None
                &&& after.detail is None
            },
            None => trace_untouched(before, after),
        },
        _ => trace_untouched(before, after),
    }
}

/// The trace, the focus, the detail and the onboarding flag are as they
/// were.
pub open spec fn trace_untouched(before: SeamExplorerApp, after: SeamExplorerApp) -> bool {
    &&& after.trace == before.trace
    &&& after.focus == before.focus
    &&& after.detail == before.detail
    &&& after.has_seen_trace_onboarding == before.has_seen_trace_onboarding
}

/// Acts on the gesture after this frame's input: a completed gesture runs
/// its trace (when a graph is loaded), clearing the focused seam, and goes
/// back to idle; any other
/// gesture is kept as it is.
pub fn finish_gesture<P>(app: &mut SeamExplorerApp, gesture: TraceGesture<P>) -> (r: TraceGesture<P>)
    requires
        old(app).wf(),
    ensures
        gesture_finished(*old(app), *final(app), gesture),
        gesture is Completed ==> r is Idle,
        !(gesture is Completed) ==> r == gesture,
{
    match gesture {
        TraceGesture::Completed { from, to } => {
            let result = match &app.model {
                Some(model) => run(model, from.as_str(), to.as_str()),
                None => return TraceGesture::Idle,
            };
            if result.path.is_some() {
                dismiss_on_first_trace(app);
            }
            app.trace = Some(result);
            app.focus = None;
            app.detail = None;
            TraceGesture::Idle
        },
        other => other,
    }
}

} // verus!
