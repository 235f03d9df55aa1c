//! The side panels' decisions: the verdict titles, which seams the search
//! text keeps, selecting a seam, finding the seam for a crossed community
//! pair, and the label shown for a node id.

use crate::app::{FocusState, SeamExplorerApp};
use crate::graph::graph_node;
use crate::ingest::{has_id, position_of};
use crate::model::{Model, NodeView};
use crate::seams::{lemma_pair_index, pair_index, same_pair, seam_entries, Seam};
use crate::text::{contains_text, occurs_at, text_contains};
use crate::verdict::{detail_matches, seam_detail, Verdict};
use crate::verdict::node_total;
use vstd::prelude::*;
use vstd::string::StrSliceExecFns;

verus! {

/// The detail panel's heading for a verdict.
pub open spec fn title_of(v: Verdict) -> Seq<char> {
    match v {
        Verdict::Clean => "Clean seam"@,
        Verdict::Watch => "Watch — coupling"@,
        Verdict::Leaky => "Leaky seam"@,
        Verdict::Utility => "Utility"@,
    }
}

/// The detail panel's heading for a verdict.
pub fn verdict_title(v: &Verdict) -> (r: &'static str)
    ensures
        r@ == title_of(*v),
{
    match v {
        Verdict::Clean => "Clean seam",
        Verdict::Watch => "Watch — coupling",
        Verdict::Leaky => "Leaky seam",
        Verdict::Utility => "Utility",
    }
}

/// The text `str::to_lowercase` gives for `s` (Unicode lower case, which
/// may change the length of the text).
pub uninterp spec fn lowercase(s: Seq<char>) -> Seq<char>;

/// `c` is an ASCII character.
pub open spec fn is_ascii_char(c: char) -> bool {
    (c as u32) < 128
}

/// Every character of `s` is ASCII.
pub open spec fn is_ascii_text(s: Seq<char>) -> bool {
    forall|i: int| 0 <= i < s.len() ==> is_ascii_char(#[trigger] s[i])
}

/// `c` in ASCII lower case: `A` to `Z` become `a` to `z`, every other
/// character stays.
pub open spec fn ascii_lower_char(c: char) -> char {
    if 'A' <= c && c <= 'Z' {
        ((c as u32) + 32) as char
    } else {
        c
    }
}

/// `s` in ASCII lower case, character by character.
pub open spec fn ascii_lowered(s: Seq<char>) -> Seq<char> {
    s.map_values(|c: char| ascii_lower_char(c))
}

/// `str::to_lowercase`. Unicode lower case maps the ASCII letters `A` to
/// `Z` to `a` to `z` and leaves every other ASCII character as it is, so an
/// ASCII text comes back lowered character by character; for other text
/// only the name is stated.
#[verifier::external_body]
fn to_lower(s: &str) -> (r: String)
    ensures
        r@ == lowercase(s@),
        is_ascii_text(s@) ==> r@ == ascii_lowered(s@),
{
    s.to_lowercase()
}

/// Node `n` belongs to community `a` or `b`, and its label or its
/// community's name contains `q` (`q` already in lower case).
pub open spec fn node_names_match(n: NodeView, a: Seq<char>, b: Seq<char>, q: Seq<char>) -> bool {
    &&& (n.community == a || n.community == b)
    &&& (contains_text(lowercase(n.label), q) || (n.community_name matches Some(cn) && contains_text(
        lowercase(cn),
        q,
    )))
}

/// The search text `query` keeps the seam between `a` and `b`: an empty
/// query keeps every seam; otherwise, ignoring case, a community id of the
/// pair, or the label or community name of a node on either side, contains
/// the query.
pub open spec fn seam_matches(m: Model, a: Seq<char>, b: Seq<char>, query: Seq<char>) -> bool {
    keeps_seam(m, a, b, query.len() == 0, lowercase(query))
}

/// The seam between `a` and `b` is kept for a query that is empty (`empty`)
/// or whose lower-case text is `q`.
pub open spec fn keeps_seam(m: Model, a: Seq<char>, b: Seq<char>, empty: bool, q: Seq<char>) -> bool {
    ||| empty
    ||| contains_text(lowercase(a), q)
    ||| contains_text(lowercase(b), q)
    ||| exists|i: int| 0 <= i < m.nodes().len() && #[trigger] node_names_match(m.nodes()[i], a, b, q)
}

/// A node on one of the sides `a`/`b` whose label or community name, in
/// lower case, contains `q`.
pub open spec fn side_node_named(m: Model, a: Seq<char>, b: Seq<char>, q: Seq<char>, i: int) -> bool {
    let n = m.nodes()[i];
    &&& 0 <= i < m.nodes().len()
    &&& n.community == a || n.community == b
    &&& contains_text(lowercase(n.label), q) || (n.community_name is Some && contains_text(
        lowercase(n.community_name->0),
        q,
    ))
}

/// Only the seam's two sides count: a non-empty query keeps the seam
/// between `a` and `b` exactly when, in lower case, one of the two ids
/// contains it, or a node of community `a` or `b` has a label or a
/// community name containing it.
pub proof fn lemma_search_sides_only(m: Model, a: Seq<char>, b: Seq<char>, q: Seq<char>)
    ensures
        keeps_seam(m, a, b, false, q) <==> (contains_text(lowercase(a), q) || contains_text(lowercase(b), q)
            || exists|i: int| #[trigger] side_node_named(m, a, b, q, i)),
{
    if exists|i: int| 0 <= i < m.nodes().len() && #[trigger] node_names_match(m.nodes()[i], a, b, q) {
        let i = choose|i: int| 0 <= i < m.nodes().len() && #[trigger] node_names_match(m.nodes()[i], a, b, q);
        assert(side_node_named(m, a, b, q, i));
    }
    if exists|i: int| #[trigger] side_node_named(m, a, b, q, i) {
        let i = choose|i: int| #[trigger] side_node_named(m, a, b, q, i);
        assert(node_names_match(m.nodes()[i], a, b, q));
    }
}

/// Nodes of other communities never affect whether a seam is kept: two
/// models with the same nodes in communities `a` and `b` keep the seam
/// between them for the same queries.
pub proof fn lemma_search_ignores_other_communities(m1: Model, m2: Model, a: Seq<char>, b: Seq<char>, empty: bool, q: Seq<char>)
    requires
        forall|n: NodeView|
            (n.community == a || n.community == b) ==> (m1.nodes().contains(n) <==> m2.nodes().contains(n)),
    ensures
        keeps_seam(m1, a, b, empty, q) == keeps_seam(m2, a, b, empty, q),
{
    lemma_side_match_transfers(m1, m2, a, b, q);
    lemma_side_match_transfers(m2, m1, a, b, q);
}

/// A side node matching in `x` is a side node of `y` too, when the two
/// models share their side nodes.
proof fn lemma_side_match_transfers(x: Model, y: Model, a: Seq<char>, b: Seq<char>, q: Seq<char>)
    requires
        forall|n: NodeView|
            (n.community == a || n.community == b) ==> (x.nodes().contains(n) <==> y.nodes().contains(n)),
    ensures
        (exists|i: int| 0 <= i < x.nodes().len() && #[trigger] node_names_match(x.nodes()[i], a, b, q)) ==> (exists|
            j: int,
        | 0 <= j < y.nodes().len() && #[trigger] node_names_match(y.nodes()[j], a, b, q)),
{
    if exists|i: int| 0 <= i < x.nodes().len() && #[trigger] node_names_match(x.nodes()[i], a, b, q) {
        let i = choose|i: int| 0 <= i < x.nodes().len() && #[trigger] node_names_match(x.nodes()[i], a, b, q);
        let n = x.nodes()[i];
        assert(x.nodes().contains(n));
        assert(y.nodes().contains(n));
        let j = choose|j: int| 0 <= j < y.nodes().len() && y.nodes()[j] == n;
        assert(node_names_match(y.nodes()[j], a, b, q));
    }
}

/// A text that contains `x` contains every part of `x`.
proof fn lemma_contains_part(h: Seq<char>, x: Seq<char>, i: int, j: int)
    requires
        0 <= i <= j <= x.len(),
        contains_text(h, x),
    ensures
        contains_text(h, x.subrange(i, j)),
{
    let k = choose|k: int| #[trigger] occurs_at(h, x, k);
    assert(h.subrange(k + i, k + i + (j - i)) =~= x.subrange(i, j));
    assert(occurs_at(h, x.subrange(i, j), k + i));
}

/// For ASCII queries search ignores case: two ASCII queries that lower to
/// the same text (such as a query and its upper- or lower-case form) keep
/// the same seams.
pub proof fn lemma_search_ignores_ascii_case(m: Model, a: Seq<char>, b: Seq<char>, q1: Seq<char>, q2: Seq<char>)
    requires
        is_ascii_text(q1),
        is_ascii_text(q2),
        ascii_lowered(q1) == ascii_lowered(q2),
    ensures
        keeps_seam(m, a, b, q1.len() == 0, ascii_lowered(q1)) == keeps_seam(m, a, b, q2.len() == 0, ascii_lowered(q2)),
{
    assert(ascii_lowered(q1).len() == q1.len());
    assert(ascii_lowered(q2).len() == q2.len());
}

/// A seam kept for an ASCII query is kept for every part of the query,
/// down to the empty one.
pub proof fn lemma_search_keeps_parts(m: Model, a: Seq<char>, b: Seq<char>, q: Seq<char>, i: int, j: int)
    requires
        is_ascii_text(q),
        0 <= i <= j <= q.len(),
        keeps_seam(m, a, b, q.len() == 0, ascii_lowered(q)),
    ensures
        is_ascii_text(q.subrange(i, j)),
        keeps_seam(m, a, b, j - i == 0, ascii_lowered(q.subrange(i, j))),
{
    let lq = ascii_lowered(q);
    let part = ascii_lowered(q.subrange(i, j));
    assert(part =~= lq.subrange(i, j));
    if j > i {
        if contains_text(lowercase(a), lq) {
            lemma_contains_part(lowercase(a), lq, i, j);
        } else if contains_text(lowercase(b), lq) {
            lemma_contains_part(lowercase(b), lq, i, j);
        } else {
            let k = choose|k: int| 0 <= k < m.nodes().len() && #[trigger] node_names_match(m.nodes()[k], a, b, lq);
            let n = m.nodes()[k];
            if contains_text(lowercase(n.label), lq) {
                lemma_contains_part(lowercase(n.label), lq, i, j);
            } else {
                lemma_contains_part(lowercase(n.community_name->0), lq, i, j);
            }
            assert(node_names_match(m.nodes()[k], a, b, part));
        }
    }
}

/// Whether the search text keeps `seam`.
#[verifier::loop_isolation(false)]
pub fn matches(model: &Model, seam: &Seam, query: &str) -> (r: bool)
    requires
        model.wf(),
    ensures
        r == seam_matches(*model, seam.a@, seam.b@, query@),
        is_ascii_text(query@) ==> r == keeps_seam(*model, seam.a@, seam.b@, query@.len() == 0, ascii_lowered(query@)),
        query@.len() > 0 ==> (r <==> contains_text(lowercase(seam.a@), lowercase(query@)) || contains_text(
            lowercase(seam.b@),
            lowercase(query@),
        ) || exists|i: int| #[trigger] side_node_named(*model, seam.a@, seam.b@, lowercase(query@), i)),
{
    proof {
        lemma_search_sides_only(*model, seam.a@, seam.b@, lowercase(query@));
    }
    if query.unicode_len() == 0 {
        return true;
    }
    let q = to_lower(query);
    let la = to_lower(seam.a.as_str());
    if text_contains(la.as_str(), q.as_str()) {
        return true;
    }
    let lb = to_lower(seam.b.as_str());
    if text_contains(lb.as_str(), q.as_str()) {
        return true;
    }
    let g = &model.graph;
    let ghost nodes = model.nodes();
    let n = node_total(g);
    let mut i: usize = 0;
    while i < n
        invariant
            i <= n,
            n == nodes.len(),
            nodes == model.nodes(),
            q@ == lowercase(query@),
            model.wf(),
            forall|k: int| 0 <= k < i ==> !#[trigger] node_names_match(nodes[k], seam.a@, seam.b@, q@),
        decreases n - i,
    {
        let node = graph_node(g, i).unwrap();
        assert(node@ == nodes[i as int]);
        if node.community == seam.a || node.community == seam.b {
            let label = to_lower(node.label.as_str());
            if text_contains(label.as_str(), q.as_str()) {
                assert(node_names_match(nodes[i as int], seam.a@, seam.b@, q@));
                return true;
            }
            match &node.community_name {
                Some(cn) => {
                    let name = to_lower(cn.as_str());
                    if text_contains(name.as_str(), q.as_str()) {
                        assert(node_names_match(nodes[i as int], seam.a@, seam.b@, q@));
                        return true;
                    }
                },
                None => {},
            }
        }
        i = i + 1;
    }
    false
}

/// The positions, in order, of the first `k` seams that the search text
/// keeps.
pub open spec fn kept_seams(m: Model, seams: Seq<Seam>, query: Seq<char>, k: nat) -> Seq<nat>
    decreases k,
{
    if k == 0 {
        seq![]
    } else {
        let prev = kept_seams(m, seams, query, (k - 1) as nat);
        if seam_matches(m, seams[k - 1].a@, seams[k - 1].b@, query) {
            prev.push((k - 1) as nat)
        } else {
            prev
        }
    }
}

/// The seam list's rows: the positions of the seams the search text keeps,
/// in ranking order.
pub fn visible_seams(model: &Model, seams: &Vec<Seam>, query: &str) -> (r: Vec<usize>)
    requires
        model.wf(),
    ensures
        r@.map_values(|i: usize| i as nat) == kept_seams(*model, seams@, query@, seams@.len()),
{
    let mut out: Vec<usize> = Vec::new();
    let mut k: usize = 0;
    while k < seams.len()
        invariant
            k <= seams.len(),
            model.wf(),
            out@.map_values(|i: usize| i as nat) == kept_seams(*model, seams@, query@, k as nat),
        decreases seams.len() - k,
    {
        let ghost before = out@;
        if matches(model, &seams[k], query) {
            out.push(k);
            assert(out@.map_values(|i: usize| i as nat) =~= before.map_values(|i: usize| i as nat).push(k as nat));
        }
        k = k + 1;
    }
    out
}

/// The first seam of `seams` between `ca` and `cb`, in either order.
pub fn find_seam_for_pair(seams: &Vec<Seam>, ca: &String, cb: &String) -> (r: Option<Seam>)
    ensures
        pair_index(seam_entries(seams@), ca@, cb@) == -1 ==> r is None,
        pair_index(seam_entries(seams@), ca@, cb@) >= 0 ==> r == Some(
            seams@[pair_index(seam_entries(seams@), ca@, cb@)],
        ),
{
    let ghost list = seam_entries(seams@);
    let mut i: usize = 0;
    while i < seams.len()
        invariant
            i <= seams.len(),
            list == seam_entries(seams@),
            forall|k: int| 0 <= k < i ==> !same_pair(#[trigger] list[k], ca@, cb@),
        decreases seams.len() - i,
    {
        let s = &seams[i];
        if (s.a == *ca && s.b == *cb) || (s.a == *cb && s.b == *ca) {
            proof {
                assert(same_pair(list[i as int], ca@, cb@));
                lemma_pair_index(list, ca@, cb@, i as int);
            }
            return Some(Seam { a: s.a.clone(), b: s.b.clone(), crossings: s.crossings });
        }
        assert(!same_pair(list[i as int], ca@, cb@));
        i = i + 1;
    }
    proof {
        lemma_pair_index(list, ca@, cb@, i as int);
    }
    None
}

/// The verdict of `seam` in `model`: that of its detail once the component
/// index is computed, `Clean` before.
pub fn seam_verdict(model: &Model, seam: &Seam) -> (r: Verdict)
    requires
        model.wf(),
    ensures
        model.scc is None ==> r == Verdict::Clean,
        model.scc is Some ==> exists|d| #[trigger] detail_matches(d, *model, seam.a@, seam.b@) && d.verdict == r,
{
    match &model.scc {
        Some(scc) => {
            let d = seam_detail(model, scc, &seam.a, &seam.b);
            d.verdict
        },
        None => Verdict::Clean,
    }
}

/// `after` is `before` with `seam` selected: with a model and its
/// component index, the seam focused, its detail open and any trace
/// cleared; otherwise nothing changes.
pub open spec fn seam_selected(before: SeamExplorerApp, after: SeamExplorerApp, seam: Seam) -> bool {
    if before.model matches Some(m) && m.scc is Some {
        &&& after.detail matches Some(d) && detail_matches(d, before.model->0, seam.a@, seam.b@)
        &&& after.focus matches Some(f) && f.a@ == seam.a@ && f.b@ == seam.b@
        &&& after.trace is None
        &&& after.model == before.model
        &&& after.seams == before.seams
        &&& after.has_seen_trace_onboarding == before.has_seen_trace_onboarding
        &&& after.trace_mode == before.trace_mode
        &&& after.banner == before.banner
        &&& after.search_query == before.search_query
    } else {
        after == before
    }
}

/// Focuses `seam` and opens its detail, clearing any trace.
pub fn select_seam(app: &mut SeamExplorerApp, seam: &Seam)
    requires
        old(app).wf(),
    ensures
        seam_selected(*old(app), *final(app), *seam),
{
    let detail = match &app.model {
        Some(model) => match &model.scc {
            Some(scc) => seam_detail(model, scc, &seam.a, &seam.b),
            None => return,
        },
        None => return,
    };
    app.focus = Some(FocusState { a: seam.a.clone(), b: seam.b.clone() });
    app.detail = Some(detail);
    app.trace = None;
}

/// The label shown for node `id`: its node's label when a model holds such
/// a node, else the id itself.
pub open spec fn label_of(app: SeamExplorerApp, id: Seq<char>) -> Seq<char> {
    match app.model {
        Some(m) => if has_id(m.nodes(), id) {
            m.nodes()[position_of(m.nodes(), id) as int].label
        } else {
            id
        },
        None => id,
    }
}

/// The label to show for node `id`.
pub fn node_label(app: &SeamExplorerApp, id: &str) -> (r: String)
    requires
        app.wf(),
    ensures
        r@ == label_of(*app, id@),
{
    let model = match &app.model {
        Some(m) => m,
        None => return id.to_owned(),
    };
    let ghost nodes = model.nodes();
    let i = match model.index.get(id) {
        Some(i) => *i,
        None => {
            proof {
                if has_id(nodes, id@) {
                    let k = choose|k: int| 0 <= k < nodes.len() && nodes[k].id == id@;
                    assert(model.index@.contains_key(nodes[k].id));
                }
            }
            return id.to_owned();
        },
    };
    assert(nodes[i as int].id == id@);
    assert(has_id(nodes, id@));
    assert(position_of(nodes, id@) == i) by {
        let p = position_of(nodes, id@);
        assert(model.index@[nodes[p as int].id] == p);
    }
    let node = graph_node(&model.graph, i).unwrap();
    node.label.clone()
}

} // verus!
