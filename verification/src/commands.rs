//! The commands the explorer's shell exposes over a loaded graph.

use crate::call_path::{self, traces, TracePath};
use crate::error::CommandError;
use crate::graph::{edge_slots, reaches};
use crate::ingest::{has_id, position_of};
use crate::model::Model;
use vstd::prelude::*;

verus! {

/// The trace command: `NoGraphLoaded` before any graph is loaded, else the
/// shortest call path from `from` to `to` in the loaded graph.
pub fn trace_path(model: Option<&Model>, from: &str, to: &str) -> (r: Result<Option<TracePath>, CommandError>)
    requires
        model matches Some(m) ==> m.wf(),
    ensures
        model is None <==> r matches Err(CommandError::NoGraphLoaded),
        r is Err ==> model is None,
        model matches Some(m) ==> r matches Ok(p) && (p is Some <==> has_id(m.nodes(), from@) && has_id(
            m.nodes(),
            to@,
        ) && reaches(edge_slots(m.graph), position_of(m.nodes(), from@), position_of(m.nodes(), to@)))
            && (p matches Some(t) ==> traces(t, *m, from@, to@)),
{
    match model {
        Some(m) => Ok(call_path::trace_path(m, from, to)),
        None => Err(CommandError::NoGraphLoaded),
    }
}

} // verus!
