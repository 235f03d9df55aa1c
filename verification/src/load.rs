//! Loading a graph: reading a `graph.json` text into a finalized model and
//! its ranked seams, with the banner that reports dropped links or a failed
//! load, and the remembered directory of the last graph loaded.

use crate::app::{Banner, BannerKind};
use crate::ingest::{
    core_error_text, doc_arrays, doc_dropped, from_json, holds_document, SeamCoreError,
};
use crate::json::{json_document, JsonValue};
use crate::model::{opt_view, Model};
use crate::paths::{parent_path, path_parent};
use crate::seams::{detect, ranked, seam_entries, seam_tally, Seam};
use crate::text::{decimal, decimal_text};
use vstd::prelude::*;
use vstd::string::StringExecFns;

verus! {

/// Why a load failed: the file dialog was dismissed, the file could not be
/// read (with the reader's message), or its text is not a graph.
#[derive(Debug)]
pub enum LoadError {
    Cancelled,
    Io(String),
    Core(SeamCoreError),
}

/// The message of a load error.
pub open spec fn load_error_text(e: LoadError) -> Seq<char> {
    match e {
        LoadError::Cancelled => "no file selected"@,
        LoadError::Io(m) => "failed to read file: "@ + m@,
        LoadError::Core(c) => core_error_text(c),
    }
}

impl LoadError {
    /// The message shown for this error.
    pub fn message(&self) -> (r: String)
        ensures
            r@ == load_error_text(*self),
    {
        match self {
            LoadError::Cancelled => String::from_str("no file selected"),
            LoadError::Io(m) => {
                let mut r = String::from_str("failed to read file: ");
                r.append(m.as_str());
                r
            },
            LoadError::Core(c) => c.message(),
        }
    }
}

/// A successful load: the finalized model, its ranked seams, and the
/// warning banner when links were dropped.
pub struct LoadOutcome {
    pub model: Model,
    pub seams: Vec<Seam>,
    pub banner: Option<Banner>,
}

/// The body of the dropped-links warning for `n` dropped links.
pub open spec fn warning_body(n: nat) -> Seq<char> {
    decimal(n) + " edge"@ + (if n == 1 {
        Seq::<char>::empty()
    } else {
        "s"@
    }) + " referenced a component id that isn't in this graph, so they were skipped. Everything else loaded normally — seam counts below reflect only the valid edges."@
}

/// `b` is the warning banner for `n` dropped links.
pub open spec fn is_warning_banner(b: Banner, n: nat) -> bool {
    &&& b.kind == BannerKind::Warning
    &&& b.heading@ == "Some edges were dropped"@
    &&& b.body@ == warning_body(n)
}

/// `o` is the load of the document `doc`: its model finalized, its seams
/// ranked, and a warning banner exactly when links were dropped.
pub open spec fn loaded_from(o: LoadOutcome, doc: JsonValue) -> bool {
    &&& holds_document(o.model, doc)
    &&& o.model.scc is Some
    &&& seam_entries(o.seams@) == ranked(seam_tally(o.model, o.model.edges().len()))
    &&& if doc_dropped(doc).len() == 0 {
        o.banner is None
    } else {
        o.banner matches Some(b) && is_warning_banner(b, doc_dropped(doc).len())
    }
}

/// What loading the text `json` gives: a `Parse` error when it is not JSON,
/// a `MissingArray` error naming the missing array, and otherwise the load
/// of the document.
pub open spec fn load_matches(r: Result<LoadOutcome, LoadError>, json: Seq<char>) -> bool {
    match json_document(json) {
        None => r matches Err(LoadError::Core(SeamCoreError::Parse(_))),
        Some(doc) => match doc_arrays(doc) {
            Err(name) => r matches Err(LoadError::Core(SeamCoreError::MissingArray(n))) && n@ == name,
            Ok(_) => r matches Ok(o) && loaded_from(o, doc),
        },
    }
}

/// The dropped-links warning body, written out.
fn warning_text(n: usize) -> (r: String)
    ensures
        r@ == warning_body(n as nat),
{
    let mut r = decimal_text(n as u128);
    r.append(" edge");
    if n != 1 {
        r.append("s");
    }
    r.append(
        " referenced a component id that isn't in this graph, so they were skipped. Everything else loaded normally — seam counts below reflect only the valid edges.",
    );
    r
}

/// Reads `json` into a model, computes its component index once, and ranks
/// its seams by crossings; dropped links become a warning banner.
pub fn read_and_ingest(json: &str) -> (r: Result<LoadOutcome, LoadError>)
    ensures
        load_matches(r, json@),
{
    let ingest = match from_json(json) {
        Ok(i) => i,
        Err(e) => return Err(LoadError::Core(e)),
    };
    let n = ingest.warnings.len();
    let banner = if n == 0 {
        None
    } else {
        Some(
            Banner {
                kind: BannerKind::Warning,
                heading: String::from_str("Some edges were dropped"),
                body: warning_text(n),
            },
        )
    };
    let mut model = ingest.model;
    model.finalize_scc();
    let seams = detect(&model);
    Ok(LoadOutcome { model, seams, banner })
}

/// The error body shown for a failed load.
pub open spec fn error_body(e: LoadError) -> Seq<char> {
    "This doesn't look like a Graphify graph.json export — "@ + load_error_text(e)
        + ". Choose a different file and try again."@
}

/// The error banner for a failed load.
pub fn error_banner(e: &LoadError) -> (r: Banner)
    ensures
        r.kind == BannerKind::Error,
        r.heading@ == "Couldn't load this file"@,
        r.body@ == error_body(*e),
{
    let mut body = String::from_str("This doesn't look like a Graphify graph.json export — ");
    let m = e.message();
    body.append(m.as_str());
    body.append(". Choose a different file and try again.");
    Banner { kind: BannerKind::Error, heading: String::from_str("Couldn't load this file"), body }
}

/// The directory of the most recently loaded graph, against which a
/// node's repository-relative source file is resolved.
pub struct GraphDirMemory {
    pub dir: Option<String>,
}

impl GraphDirMemory {
    /// Nothing loaded yet.
    pub fn new() -> (r: Self)
        ensures
            r.dir is None,
    {
        GraphDirMemory { dir: None }
    }

    /// Records the directory holding `path` (none when `path` has no
    /// parent) as the last graph's location.
    pub fn remember_graph_path(&mut self, path: &str)
        ensures
            opt_view(final(self).dir) == parent_path(path@),
    {
        self.dir = path_parent(path);
    }

    /// The last graph's directory, if one was recorded.
    pub fn graph_dir(&self) -> (r: Option<String>)
        ensures
            r == self.dir,
    {
        self.dir.clone()
    }
}

} // verus!
