//! The explorer's state: the loaded model and its ranked seams, the focused
//! seam, the open detail and trace, the banner, the search text and the
//! trace-mode switch. The canvas's pan and zoom live with the window code.

use crate::load::LoadOutcome;
use crate::model::{CommunityId, Model};
use crate::seams::Seam;
use crate::trace::TraceResult;
use crate::verdict::SeamDetail;
use vstd::prelude::*;

verus! {

/// The two communities pulled apart by a seam-focus click.
#[derive(Debug, Clone)]
pub struct FocusState {
    pub a: CommunityId,
    pub b: CommunityId,
}

/// Whether a banner reports a non-fatal warning or a failed load.
#[derive(Debug, Clone, Copy, PartialEq, Eq, Structural)]
pub enum BannerKind {
    Warning,
    Error,
}

/// The load banner: its kind, heading and body, ready to render.
#[derive(Debug, Clone)]
pub struct Banner {
    pub kind: BannerKind,
    pub heading: String,
    pub body: String,
}

/// Everything the explorer keeps between frames, but the view transform.
pub struct SeamExplorerApp {
    /// The one field kept across runs.
    pub has_seen_trace_onboarding: bool,
    pub model: Option<Model>,
    pub seams: Vec<Seam>,
    pub focus: Option<FocusState>,
    pub detail: Option<SeamDetail>,
    pub trace: Option<TraceResult>,
    pub trace_mode: bool,
    pub banner: Option<Banner>,
    pub search_query: String,
}

impl SeamExplorerApp {
    /// A loaded model, if any, is well formed.
    pub open spec fn wf(&self) -> bool {
        self.model matches Some(m) ==> m.wf()
    }

    /// The state of a fresh start: nothing loaded, nothing focused, trace
    /// mode off, onboarding not yet seen.
    pub open spec fn is_initial(&self) -> bool {
        &&& !self.has_seen_trace_onboarding
        &&& self.model is None
        &&& self.seams@.len() == 0
        &&& self.focus is None
        &&& self.detail is None
        &&& self.trace is None
        &&& !self.trace_mode
        &&& self.banner is None
        &&& self.search_query@.len() == 0
    }

    /// Installs a successful load: its model, its ranked seams and its
    /// banner (if any), clearing the focus, detail and trace of an earlier
    /// graph.
    pub fn apply_load_outcome(&mut self, outcome: LoadOutcome)
        ensures
            final(self).model == Some(outcome.model),
            final(self).seams == outcome.seams,
            final(self).banner == outcome.banner,
            final(self).focus is None,
            final(self).detail is None,
            final(self).trace is None,
            final(self).has_seen_trace_onboarding == old(self).has_seen_trace_onboarding,
            final(self).trace_mode == old(self).trace_mode,
            final(self).search_query == old(self).search_query,
    {
        self.model = Some(outcome.model);
        self.seams = outcome.seams;
        self.banner = outcome.banner;
        self.focus = None;
        self.detail = None;
        self.trace = None;
    }

    /// The state half of "Reset view": the search text emptied and the
    /// trace cleared, everything else kept (the window code restores the
    /// default pan and zoom alongside).
    pub fn reset_view(&mut self)
        ensures
            final(self).search_query@.len() == 0,
            final(self).trace is None,
            final(self).has_seen_trace_onboarding == old(self).has_seen_trace_onboarding,
            final(self).model == old(self).model,
            final(self).seams == old(self).seams,
            final(self).focus == old(self).focus,
            final(self).detail == old(self).detail,
            final(self).trace_mode == old(self).trace_mode,
            final(self).banner == old(self).banner,
    {
        self.search_query = String::new();
        self.trace = None;
    }
}

impl Default for SeamExplorerApp {
    fn default() -> (r: Self)
        ensures
            r.is_initial(),
    {
        SeamExplorerApp {
            has_seen_trace_onboarding: false,
            model: None,
            seams: Vec::new(),
            focus: None,
            detail: None,
            trace: None,
            trace_mode: false,
            banner: None,
            search_query: String::new(),
        }
    }
}

} // verus!
