//! Start-up: the graph path given on the command line, and loading a graph
//! before the first frame from the text read at that path.

use crate::app::{BannerKind, SeamExplorerApp};
use crate::load::{error_banner, error_body, load_matches, read_and_ingest, LoadError, LoadOutcome};
use vstd::prelude::*;
use vstd::string::StrSliceExecFns;

verus! {

/// The first non-empty argument at or after position `i`.
pub open spec fn first_nonempty_from(args: Seq<String>, i: int) -> Option<Seq<char>>
    decreases args.len() - i,
{
    if i < 0 || i >= args.len() {
        None
    } else if args[i]@.len() > 0 {
        Some(args[i]@)
    } else {
        first_nonempty_from(args, i + 1)
    }
}

/// The graph path in an argument vector whose first entry is the program
/// name: the first non-empty argument after it; later ones are ignored.
pub fn graph_path_from_args(args: Vec<String>) -> (r: Option<String>)
    ensures
        match r {
            Some(p) => first_nonempty_from(args@, 1) == Some(p@),
            None => first_nonempty_from(args@, 1) is None,
        },
{
    let mut i: usize = 1;
    while i < args.len()
        invariant
            1 <= i,
            first_nonempty_from(args@, 1) == first_nonempty_from(args@, i as int),
        decreases args.len() - i,
    {
        if args[i].as_str().unicode_len() > 0 {
            return Some(args[i].clone());
        }
        i = i + 1;
    }
    None
}

/// `after` is `before` with the load result `r` applied: a successful load
/// installed (its focus, detail and trace cleared), or the error banner for
/// a failure, the rest untouched.
pub open spec fn load_applied(before: SeamExplorerApp, after: SeamExplorerApp, r: Result<LoadOutcome, LoadError>) -> bool {
    &&& after.has_seen_trace_onboarding == before.has_seen_trace_onboarding
    &&& after.trace_mode == before.trace_mode
    &&& after.search_query == before.search_query
    &&& match r {
        Ok(o) => {
            &&& after.model == Some(o.model)
            &&& after.seams == o.seams
            &&& after.banner == o.banner
            &&& after.focus is None
            &&& after.detail is None
            &&& after.trace is None
        },
        Err(e) => {
            &&& after.banner matches Some(b) && b.kind == BannerKind::Error && b.heading@
                == "Couldn't load this file"@ && b.body@ == error_body(e)
            &&& after.model == before.model
            &&& after.seams == before.seams
            &&& after.focus == before.focus
            &&& after.detail == before.detail
            &&& after.trace == before.trace
        },
    }
}

/// Loads a graph from `contents`, the text read from its file or the
/// reader's error message, exactly as the load dialog does after a file is
/// picked.
pub fn preload_graph(app: &mut SeamExplorerApp, contents: Result<String, String>)
    ensures
        match contents {
            Ok(json) => exists|r| #[trigger] load_matches(r, json@) && load_applied(*old(app), *final(app), r),
            Err(m) => load_applied(*old(app), *final(app), Err(LoadError::Io(m))),
        },
{
    match contents {
        Ok(json) => {
            let r = read_and_ingest(json.as_str());
            let ghost rr = r;
            match r {
                Ok(outcome) => app.apply_load_outcome(outcome),
                Err(e) => {
                    app.banner = Some(error_banner(&e));
                },
            }
            assert(load_matches(rr, json@) && load_applied(*old(app), *app, rr));
        },
        Err(m) => {
            let e = LoadError::Io(m);
            app.banner = Some(error_banner(&e));
        },
    }
}

} // verus!
