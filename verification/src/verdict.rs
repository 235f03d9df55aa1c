//! Cached strongly connected components, cross-seam cycle detection, the
//! Clean/Watch/Leaky verdict, and the seam-detail payload.

use crate::graph::{reaches, 
    edge_slots, graph_edge_ends, graph_edge_bound, graph_node, graph_node_bound, graph_sccs, mutually_reachable, node_slots, SeamGraph,
};
use crate::model::{CommunityId, Model};
use crate::text::{decimal, decimal_text};
use std::collections::HashSet;
use vstd::string::StringExecFns;
use vstd::prelude::*;

verus! {

/// A seam's verdict. `Utility` is kept for extensibility and is never
/// produced.
#[derive(Debug, Clone, Copy, PartialEq, Eq, Structural)]
pub enum Verdict {
    Clean,
    Watch,
    Leaky,
    Utility,
}

/// The strongly-connected-component number of every node, by node index.
#[derive(Debug)]
pub struct SccIndex {
    comp: Vec<usize>,
}

impl SccIndex {
    /// One number per node of `g`, and two nodes share a number exactly when
    /// each reaches the other.
    pub closed spec fn valid_for(&self, g: SeamGraph) -> bool {
        &&& self.comp.len() == node_slots(g).len()
        &&& forall|i: int, j: int|
            0 <= i < self.comp.len() && 0 <= j < self.comp.len() ==> (#[trigger] self.comp[i]
                == #[trigger] self.comp[j] <==> mutually_reachable(edge_slots(g), i as nat, j as nat))
    }

    /// How many nodes the index numbers.
    pub closed spec fn node_count(&self) -> nat {
        self.comp@.len()
    }

    /// The component number of node `i`.
    pub closed spec fn component(&self, i: int) -> nat {
        self.comp@[i] as nat
    }
}

/// An index valid for `g` numbers every node slot of `g`, and gives two
/// nodes the same number exactly when each reaches the other.
pub proof fn lemma_valid_for(scc: &SccIndex, g: SeamGraph)
    requires
        scc.valid_for(g),
    ensures
        scc.node_count() == node_slots(g).len(),
        forall|i: int, j: int|
            0 <= i < scc.node_count() && 0 <= j < scc.node_count() ==> (#[trigger] scc.component(i)
                == #[trigger] scc.component(j) <==> mutually_reachable(edge_slots(g), i as nat, j as nat)),
{
    assert forall|i: int, j: int|
        0 <= i < scc.node_count() && 0 <= j < scc.node_count() implies (#[trigger] scc.component(i)
            == #[trigger] scc.component(j) <==> mutually_reachable(edge_slots(g), i as nat, j as nat)) by {
        assert(scc.comp[i] == scc.comp[j] <==> mutually_reachable(edge_slots(g), i as nat, j as nat));
    }
}


/// Every slot is in use, so the node bound is the slot count.
pub(crate) fn node_total(g: &SeamGraph) -> (n: usize)
    requires
        forall|i: int| 0 <= i < node_slots(*g).len() ==> (#[trigger] node_slots(*g)[i]) is Some,
    ensures
        n == node_slots(*g).len(),
{
    let n = graph_node_bound(g);
    proof {
        if n < node_slots(*g).len() {
            assert(node_slots(*g)[node_slots(*g).len() - 1] is Some);
        }
    }
    n
}

/// Every edge slot is in use, so the edge bound is the slot count.
pub(crate) fn edge_total(g: &SeamGraph) -> (n: usize)
    requires
        forall|i: int| 0 <= i < edge_slots(*g).len() ==> (#[trigger] edge_slots(*g)[i]) is Some,
    ensures
        n == edge_slots(*g).len(),
{
    let n = graph_edge_bound(g);
    proof {
        if n < edge_slots(*g).len() {
            assert(edge_slots(*g)[edge_slots(*g).len() - 1] is Some);
        }
    }
    n
}

/// Runs the strongly-connected-component pass over the whole graph once and
/// records each node's component number.
#[verifier::loop_isolation(false)]
pub fn compute_scc(model: &Model) -> (r: SccIndex)
    requires
        model.wf(),
    ensures
        r.valid_for(model.graph),
{
    let g = &model.graph;
    let comps = graph_sccs(g);
    let n = node_total(g);
    let mut comp: Vec<usize> = Vec::new();
    while comp.len() < n
        invariant
            comp.len() <= n,
        decreases n - comp.len(),
    {
        comp.push(0);
    }
    let mut c: usize = 0;
    while c < comps.len()
        invariant
            n == node_slots(*g).len(),
            comp.len() == n,
            c <= comps.len(),
            forall|c2: int, k2: int|
                0 <= c2 < c && 0 <= k2 < comps[c2].len() ==> comp[#[trigger] comps[c2][k2] as int]
                    == c2,
        decreases comps.len() - c,
    {
        let mut k: usize = 0;
        while k < comps[c].len()
            invariant
                n == node_slots(*g).len(),
                comp.len() == n,
                c < comps.len(),
                k <= comps[c as int].len(),
                forall|c2: int, k2: int|
                    0 <= c2 < c && 0 <= k2 < comps[c2].len() ==> comp[#[trigger] comps[c2][k2] as int]
                        == c2,
                forall|k2: int| 0 <= k2 < k ==> comp[#[trigger] comps[c as int][k2] as int] == c,
            decreases comps[c as int].len() - k,
        {
            let x = comps[c][k];
            assert(comps[c as int][k as int] < node_slots(*g).len());
            comp.set(x, c);
            assert forall|c2: int, k2: int|
                0 <= c2 < c && 0 <= k2 < comps[c2].len() implies comp[#[trigger] comps[c2][k2] as int]
                == c2 by {
                if comps[c2][k2] == x {
                    assert(comps[c2][k2] == comps[c as int][k as int]);
                }
            }
            assert forall|k2: int| 0 <= k2 < k + 1 implies comp[#[trigger] comps[c as int][k2] as int]
                == c by {
                if k2 < k && comps[c as int][k2] == x {
                    assert(comps[c as int][k2] == comps[c as int][k as int]);
                }
            }
            k = k + 1;
        }
        c = c + 1;
    }
    let r = SccIndex { comp };
    assert forall|i: int, j: int|
        0 <= i < r.comp.len() && 0 <= j < r.comp.len() implies (#[trigger] r.comp[i]
        == #[trigger] r.comp[j] <==> mutually_reachable(edge_slots(*g), i as nat, j as nat)) by {
        assert(node_slots(*g)[i] is Some);
        assert(node_slots(*g)[j] is Some);
        let (ci, ki) = choose|c2: int, k2: int|
            0 <= c2 < comps.len() && 0 <= k2 < comps[c2].len() && comps[c2][k2] == i;
        let (cj, kj) = choose|c2: int, k2: int|
            0 <= c2 < comps.len() && 0 <= k2 < comps[c2].len() && comps[c2][k2] == j;
        assert(r.comp[comps[ci][ki] as int] == ci);
        assert(r.comp[comps[cj][kj] as int] == cj);
        assert(ci == cj <==> mutually_reachable(
            edge_slots(*g),
            comps[ci][ki] as nat,
            comps[cj][kj] as nat,
        ));
    }
    r
}

impl Model {
    /// Computes this graph's component index once and caches it.
    pub fn finalize_scc(&mut self)
        requires
            old(self).wf(),
        ensures
            final(self).wf(),
            final(self).graph == old(self).graph,
            final(self).index@ == old(self).index@,
            final(self).scc is Some,
    {
        let s = compute_scc(self);
        self.scc = Some(s);
    }
}


/// Some node of community `a` and some node of community `b` each reach the
/// other: a call cycle runs across the seam between them.
pub open spec fn cross_cycle(m: Model, a: Seq<char>, b: Seq<char>) -> bool {
    exists|u: int, v: int|
        #![trigger m.nodes()[u], m.nodes()[v]]
        0 <= u < m.nodes().len() && 0 <= v < m.nodes().len() && m.nodes()[u].community == a
            && m.nodes()[v].community == b && mutually_reachable(edge_slots(m.graph), u as nat, v as nat)
}

/// Does one strongly connected component hold a node of community `a` and a
/// node of community `b`? Reads the already-computed `scc`.
#[verifier::loop_isolation(false)]
pub fn has_cross_cycle(scc: &SccIndex, model: &Model, a: &CommunityId, b: &CommunityId) -> (r: bool)
    requires
        model.wf(),
        scc.valid_for(model.graph),
    ensures
        r == cross_cycle(*model, a@, b@),
{
    broadcast use vstd::std_specs::hash::group_hash_axioms;

    let g = &model.graph;
    let n = node_total(g);
    let mut seen_scc_with_a: HashSet<usize> = HashSet::new();
    let mut i: usize = 0;
    while i < n
        invariant
            i <= n,
            forall|c: usize|
                seen_scc_with_a@.contains(c) <==> exists|u: int|
                    0 <= u < i && #[trigger] model.nodes()[u].community == a@ && scc.comp[u] == c,
        decreases n - i,
    {
        let node = graph_node(g, i).unwrap();
        assert(node@ == model.nodes()[i as int]);
        if node.community == *a {
            seen_scc_with_a.insert(scc.comp[i]);
        }
        proof {
            assert forall|c: usize|
                seen_scc_with_a@.contains(c) <==> exists|u: int|
                    0 <= u < i + 1 && #[trigger] model.nodes()[u].community == a@ && scc.comp[u]
                        == c by {
                if seen_scc_with_a@.contains(c) {
                    if node.community@ == a@ && scc.comp[i as int] == c {
                        assert(model.nodes()[i as int].community == a@);
                    } else {
                        let u = choose|u: int|
                            0 <= u < i && #[trigger] model.nodes()[u].community == a@ && scc.comp[u]
                                == c;
                        assert(0 <= u < i + 1);
                    }
                }
                if exists|u: int|
                    0 <= u < i + 1 && #[trigger] model.nodes()[u].community == a@ && scc.comp[u] == c {
                    let u = choose|u: int|
                        0 <= u < i + 1 && #[trigger] model.nodes()[u].community == a@ && scc.comp[u]
                            == c;
                    if u < i {
                        assert(exists|u2: int|
                            0 <= u2 < i && #[trigger] model.nodes()[u2].community == a@
                                && scc.comp[u2] == c);
                    }
                }
            }
        }
        i = i + 1;
    }
    let mut j: usize = 0;
    while j < n
        invariant
            j <= n,
            forall|v: int|
                0 <= v < j && #[trigger] model.nodes()[v].community == b@ ==> !seen_scc_with_a@.contains(
                    scc.comp[v],
                ),
        decreases n - j,
    {
        let node = graph_node(g, j).unwrap();
        assert(node@ == model.nodes()[j as int]);
        if node.community == *b && seen_scc_with_a.contains(&scc.comp[j]) {
            proof {
                let u = choose|u: int|
                    0 <= u < n && #[trigger] model.nodes()[u].community == a@ && scc.comp[u]
                        == scc.comp[j as int];
                assert(mutually_reachable(edge_slots(*g), u as nat, j as nat));
                assert(model.nodes()[u] == model.nodes()[u]);
                assert(model.nodes()[j as int] == model.nodes()[j as int]);
            }
            return true;
        }
        j = j + 1;
    }
    proof {
        if cross_cycle(*model, a@, b@) {
            let (u, v) = choose|u: int, v: int|
                #![trigger model.nodes()[u], model.nodes()[v]]
                0 <= u < model.nodes().len() && 0 <= v < model.nodes().len()
                    && model.nodes()[u].community == a@ && model.nodes()[v].community == b@
                    && mutually_reachable(edge_slots(*g), u as nat, v as nat);
            assert(scc.comp[u] == scc.comp[v]);
            assert(seen_scc_with_a@.contains(scc.comp[u]));
        }
    }
    false
}


/// A cycle across the seam makes it leaky; calls in both directions make it
/// worth watching; otherwise it is clean.
pub open spec fn verdict_of(bidirectional: bool, has_cross_cycle: bool) -> Verdict {
    if has_cross_cycle {
        Verdict::Leaky
    } else if bidirectional {
        Verdict::Watch
    } else {
        Verdict::Clean
    }
}

/// The verdict for a seam. Never `Utility`.
pub fn verdict(bidirectional: bool, has_cross_cycle: bool) -> (r: Verdict)
    ensures
        r == verdict_of(bidirectional, has_cross_cycle),
        r != Verdict::Utility,
{
    if has_cross_cycle {
        Verdict::Leaky
    } else if bidirectional {
        Verdict::Watch
    } else {
        Verdict::Clean
    }
}

/// The texts of a list of strings.
pub open spec fn texts(v: Seq<String>) -> Seq<Seq<char>> {
    v.map_values(|s: String| s@)
}

/// `v` with `x` appended unless it is already there.
pub open spec fn with_unique(v: Seq<Seq<char>>, x: Seq<char>) -> Seq<Seq<char>> {
    if v.contains(x) {
        v
    } else {
        v.push(x)
    }
}

/// Appends `item` unless an equal string is already in `v`.
fn push_unique(v: &mut Vec<String>, item: String)
    ensures
        texts(final(v)@) == with_unique(texts(old(v)@), item@),
{
    let mut i: usize = 0;
    while i < v.len()
        invariant
            i <= v.len(),
            forall|k: int| 0 <= k < i ==> v@[k]@ != item@,
        decreases v.len() - i,
    {
        if v[i] == item {
            assert(texts(v@)[i as int] == item@);
            assert(texts(v@).contains(item@));
            return;
        }
        i = i + 1;
    }
    proof {
        if texts(v@).contains(item@) {
            let k = choose|k: int| 0 <= k < texts(v@).len() && texts(v@)[k] == item@;
            assert(v@[k]@ == item@);
        }
    }
    let ghost before = v@;
    v.push(item);
    assert(texts(v@) =~= texts(before).push(item@));
}

/// The crossing tally over a model's first `k` edges, in edge order: the
/// bridge node ids on each side (first appearance first, no repeats) and
/// the number of edges each way.
pub struct Tally {
    pub bridges_a: Seq<Seq<char>>,
    pub bridges_b: Seq<Seq<char>>,
    pub a_to_b: nat,
    pub b_to_a: nat,
}

pub open spec fn tally(m: Model, a: Seq<char>, b: Seq<char>, k: nat) -> Tally
    decreases k,
{
    if k == 0 {
        Tally { bridges_a: seq![], bridges_b: seq![], a_to_b: 0, b_to_a: 0 }
    } else {
        let t = tally(m, a, b, (k - 1) as nat);
        let (s, d) = m.edges()[k - 1];
        let src = m.nodes()[s as int];
        let dst = m.nodes()[d as int];
        if src.community == a && dst.community == b {
            Tally {
                bridges_a: with_unique(t.bridges_a, src.id),
                bridges_b: with_unique(t.bridges_b, dst.id),
                a_to_b: t.a_to_b + 1,
                b_to_a: t.b_to_a,
            }
        } else if src.community == b && dst.community == a {
            Tally {
                bridges_a: with_unique(t.bridges_a, dst.id),
                bridges_b: with_unique(t.bridges_b, src.id),
                a_to_b: t.a_to_b,
                b_to_a: t.b_to_a + 1,
            }
        } else {
            t
        }
    }
}

/// The reason that explains the direction of calls across the seam.
pub open spec fn flow_reason(bidirectional: bool, cycle: bool) -> Seq<char> {
    if cycle {
        "A call cycle crosses the seam \u{2014} the boundary isn't real; changes on one side ripple back through the other."@
    } else if bidirectional {
        "Calls cross both directions. Clean seams usually flow one way (a caller/callee layering)."@
    } else {
        "Calls flow one direction only \u{2014} a clean caller\u{2192}callee layering."@
    }
}

/// The reason that describes how wide the interface is, for `width` bridge
/// nodes in all.
pub open spec fn width_reason(width: nat) -> Seq<char> {
    if width <= 2 {
        "Narrow interface: only "@ + decimal(width) + " bridge node"@ + (if width == 1 {
            Seq::<char>::empty()
        } else {
            "s"@
        }) + " touch the boundary."@
    } else if width <= 4 {
        "Interface is moderate \u{2014} "@ + decimal(width) + " bridge nodes across the seam."@
    } else {
        "Wide interface: "@ + decimal(width)
            + " nodes reach across. Consider funnelling through a single port/facade."@
    }
}

/// Everything the detail panel shows about the seam between `a` and `b`.
#[derive(Debug, Clone, PartialEq, Eq)]
pub struct SeamDetail {
    pub a: CommunityId,
    pub b: CommunityId,
    pub verdict: Verdict,
    pub a_to_b: usize,
    pub b_to_a: usize,
    pub bridges_a: Vec<String>,
    pub bridges_b: Vec<String>,
    pub reasons: Vec<String>,
}

/// What `seam_detail` gives for the seam between `a` and `b` in `m`.
pub open spec fn detail_matches(d: SeamDetail, m: Model, a: Seq<char>, b: Seq<char>) -> bool {
    let t = tally(m, a, b, m.edges().len());
    let bidirectional = t.a_to_b > 0 && t.b_to_a > 0;
    let cycle = cross_cycle(m, a, b);
    &&& d.a@ == a
    &&& d.b@ == b
    &&& d.verdict == verdict_of(bidirectional, cycle)
    &&& d.a_to_b == t.a_to_b
    &&& d.b_to_a == t.b_to_a
    &&& texts(d.bridges_a@) == t.bridges_a
    &&& texts(d.bridges_b@) == t.bridges_b
    &&& texts(d.reasons@) == seq![
        flow_reason(bidirectional, cycle),
        width_reason(t.bridges_a.len() + t.bridges_b.len()),
    ]
}

/// A list without repeats is no longer than the edges it was drawn from:
/// each tally list grows by at most one per edge.
proof fn lemma_tally_bounds(m: Model, a: Seq<char>, b: Seq<char>, k: nat)
    ensures
        tally(m, a, b, k).bridges_a.len() <= k,
        tally(m, a, b, k).bridges_b.len() <= k,
        tally(m, a, b, k).a_to_b + tally(m, a, b, k).b_to_a <= k,
    decreases k,
{
    if k > 0 {
        lemma_tally_bounds(m, a, b, (k - 1) as nat);
    }
}

/// Assembles the seam-detail payload: bridge node ids on each side, directed
/// crossing counts, the verdict, and the two reasons.
#[verifier::loop_isolation(false)]
pub fn seam_detail(model: &Model, scc: &SccIndex, a: &CommunityId, b: &CommunityId) -> (r: SeamDetail)
    requires
        model.wf(),
        scc.valid_for(model.graph),
    ensures
        detail_matches(r, *model, a@, b@),
        r.verdict == Verdict::Leaky <==> cycle_joins(*model, a@, b@),
        !cycle_joins(*model, a@, b@) ==> (r.verdict == Verdict::Watch <==> r.a_to_b > 0 && r.b_to_a > 0),
        !cycle_joins(*model, a@, b@) ==> (r.verdict == Verdict::Clean <==> !(r.a_to_b > 0 && r.b_to_a > 0)),
        r.reasons@.len() == 2,
        cycle_joins(*model, a@, b@) ==> r.reasons@[0]@
            == "A call cycle crosses the seam \u{2014} the boundary isn't real; changes on one side ripple back through the other."@,
{
    let g = &model.graph;
    let ne = edge_total(g);
    let mut bridges_a: Vec<String> = Vec::new();
    let mut bridges_b: Vec<String> = Vec::new();
    let mut a_to_b: usize = 0;
    let mut b_to_a: usize = 0;
    let mut e: usize = 0;
    while e < ne
        invariant
            e <= ne,
            ne == model.edges().len(),
            texts(bridges_a@) == tally(*model, a@, b@, e as nat).bridges_a,
            texts(bridges_b@) == tally(*model, a@, b@, e as nat).bridges_b,
            a_to_b == tally(*model, a@, b@, e as nat).a_to_b,
            b_to_a == tally(*model, a@, b@, e as nat).b_to_a,
        decreases ne - e,
    {
        proof {
            lemma_tally_bounds(*model, a@, b@, e as nat);
        }
        let (s, t) = graph_edge_ends(g, e).unwrap();
        assert(model.edges()[e as int] == (s as nat, t as nat));
        let src = graph_node(g, s).unwrap();
        let dst = graph_node(g, t).unwrap();
        assert(src@ == model.nodes()[s as int]);
        assert(dst@ == model.nodes()[t as int]);
        if src.community == *a && dst.community == *b {
            push_unique(&mut bridges_a, src.id.clone());
            push_unique(&mut bridges_b, dst.id.clone());
            a_to_b = a_to_b + 1;
        } else if src.community == *b && dst.community == *a {
            push_unique(&mut bridges_b, src.id.clone());
            push_unique(&mut bridges_a, dst.id.clone());
            b_to_a = b_to_a + 1;
        }
        e = e + 1;
    }
    proof {
        lemma_tally_bounds(*model, a@, b@, ne as nat);
    }
    let bidirectional = a_to_b > 0 && b_to_a > 0;
    let cycle = has_cross_cycle(scc, model, a, b);
    let v = verdict(bidirectional, cycle);
    let mut reasons: Vec<String> = Vec::new();
    if cycle {
        reasons.push(
            String::from_str(
                "A call cycle crosses the seam \u{2014} the boundary isn't real; changes on one side ripple back through the other.",
            ),
        );
    } else if bidirectional {
        reasons.push(
            String::from_str(
                "Calls cross both directions. Clean seams usually flow one way (a caller/callee layering).",
            ),
        );
    } else {
        reasons.push(
            String::from_str("Calls flow one direction only \u{2014} a clean caller\u{2192}callee layering."),
        );
    }
    let width: u128 = bridges_a.len() as u128 + bridges_b.len() as u128;
    let mut w = String::new();
    if width <= 2 {
        w.append("Narrow interface: only ");
        w.append(decimal_text(width).as_str());
        w.append(" bridge node");
        if width != 1 {
            w.append("s");
        }
        w.append(" touch the boundary.");
    } else if width <= 4 {
        w.append("Interface is moderate \u{2014} ");
        w.append(decimal_text(width).as_str());
        w.append(" bridge nodes across the seam.");
    } else {
        w.append("Wide interface: ");
        w.append(decimal_text(width).as_str());
        w.append(" nodes reach across. Consider funnelling through a single port/facade.");
    }
    reasons.push(w);
    let r = SeamDetail {
        a: a.clone(),
        b: b.clone(),
        verdict: v,
        a_to_b,
        b_to_a,
        bridges_a,
        bridges_b,
        reasons,
    };
    assert(texts(r.reasons@) =~= seq![
        flow_reason(bidirectional, cycle),
        width_reason(width as nat),
    ]);
    proof {
        lemma_verdict_law(*model, a@, b@, r);
    }
    r
}

/// The tally for `b`/`a` is that for `a`/`b` with the sides swapped, for
/// two different communities.
proof fn lemma_tally_swap(m: Model, a: Seq<char>, b: Seq<char>, k: nat)
    requires
        a != b,
    ensures
        tally(m, b, a, k) == (Tally {
            bridges_a: tally(m, a, b, k).bridges_b,
            bridges_b: tally(m, a, b, k).bridges_a,
            a_to_b: tally(m, a, b, k).b_to_a,
            b_to_a: tally(m, a, b, k).a_to_b,
        }),
    decreases k,
{
    if k > 0 {
        lemma_tally_swap(m, a, b, (k - 1) as nat);
    }
}

/// A call cycle across a seam does not depend on the order the seam's
/// communities are named in.
pub proof fn lemma_cross_cycle_symmetric(m: Model, a: Seq<char>, b: Seq<char>)
    ensures
        cross_cycle(m, a, b) == cross_cycle(m, b, a),
{
    if cross_cycle(m, a, b) {
        let (u, v) = choose|u: int, v: int|
            #![trigger m.nodes()[u], m.nodes()[v]]
            0 <= u < m.nodes().len() && 0 <= v < m.nodes().len() && m.nodes()[u].community == a
                && m.nodes()[v].community == b && mutually_reachable(edge_slots(m.graph), u as nat, v as nat);
        assert(mutually_reachable(edge_slots(m.graph), v as nat, u as nat));
    }
    if cross_cycle(m, b, a) {
        let (u, v) = choose|u: int, v: int|
            #![trigger m.nodes()[u], m.nodes()[v]]
            0 <= u < m.nodes().len() && 0 <= v < m.nodes().len() && m.nodes()[u].community == b
                && m.nodes()[v].community == a && mutually_reachable(edge_slots(m.graph), u as nat, v as nat);
        assert(mutually_reachable(edge_slots(m.graph), v as nat, u as nat));
    }
}

/// The detail of a seam named the other way round is the same detail seen
/// from the other side: the same verdict and reasons, the crossing counts
/// and the bridge lists swapped. (Named twice, a community has no other
/// side to swap with.)
pub proof fn lemma_detail_swap(m: Model, a: Seq<char>, b: Seq<char>, d1: SeamDetail, d2: SeamDetail)
    requires
        a != b,
        detail_matches(d1, m, a, b),
        detail_matches(d2, m, b, a),
    ensures
        d2.verdict == d1.verdict,
        d2.a_to_b == d1.b_to_a,
        d2.b_to_a == d1.a_to_b,
        texts(d2.bridges_a@) == texts(d1.bridges_b@),
        texts(d2.bridges_b@) == texts(d1.bridges_a@),
        texts(d2.reasons@) == texts(d1.reasons@),
{
    lemma_tally_swap(m, a, b, m.edges().len());
    lemma_cross_cycle_symmetric(m, a, b);
}

/// No verdict comes out as `Utility`.
pub proof fn lemma_verdict_never_utility(bidirectional: bool, has_cross_cycle: bool)
    ensures
        verdict_of(bidirectional, has_cross_cycle) != Verdict::Utility,
{
}

/// Some node of `m` has id `id` and lies in community `c`.
pub open spec fn node_in(m: Model, id: Seq<char>, c: Seq<char>) -> bool {
    exists|i: int| 0 <= i < m.nodes().len() && m.nodes()[i].id == id && m.nodes()[i].community == c
}

/// Appending `x` unless present keeps a list free of repeats, and leaves
/// it holding `x`.
proof fn lemma_with_unique(v: Seq<Seq<char>>, x: Seq<char>)
    requires
        v.no_duplicates(),
    ensures
        with_unique(v, x).no_duplicates(),
        with_unique(v, x).contains(x),
        forall|y: Seq<char>| #[trigger] with_unique(v, x).contains(y) ==> y == x || v.contains(y),
{
    if !v.contains(x) {
        let w = v.push(x);
        assert(w[v.len() as int] == x);
        assert forall|i: int, j: int| 0 <= i < w.len() && 0 <= j < w.len() && i != j implies w[i] != w[j] by {
            if i < v.len() && j < v.len() {
                assert(w[i] == v[i] && w[j] == v[j]);
            } else if i < v.len() {
                assert(w[i] == v[i]);
            } else {
                assert(w[j] == v[j]);
            }
        }
        assert forall|y: Seq<char>| #[trigger] w.contains(y) implies y == x || v.contains(y) by {
            let k = choose|k: int| 0 <= k < w.len() && w[k] == y;
            if k < v.len() {
                assert(v[k] == y);
            }
        }
    } else {
        assert(v.contains(x));
    }
}

/// The bridge lists of a seam: no node twice, each node on its own side
/// of the seam, and both lists non-empty once an edge crosses it.
pub proof fn lemma_bridges(m: Model, a: Seq<char>, b: Seq<char>, k: nat)
    requires
        k <= m.edges().len(),
        m.wf(),
    ensures
        tally(m, a, b, k).bridges_a.no_duplicates(),
        tally(m, a, b, k).bridges_b.no_duplicates(),
        forall|x: Seq<char>| #[trigger] tally(m, a, b, k).bridges_a.contains(x) ==> node_in(m, x, a),
        forall|x: Seq<char>| #[trigger] tally(m, a, b, k).bridges_b.contains(x) ==> node_in(m, x, b),
        tally(m, a, b, k).a_to_b + tally(m, a, b, k).b_to_a > 0 ==> tally(m, a, b, k).bridges_a.len() > 0
            && tally(m, a, b, k).bridges_b.len() > 0,
    decreases k,
{
    if k > 0 {
        lemma_bridges(m, a, b, (k - 1) as nat);
        let t = tally(m, a, b, (k - 1) as nat);
        let (s, d) = m.edges()[k - 1];
        let src = m.nodes()[s as int];
        let dst = m.nodes()[d as int];
        assert(s < m.nodes().len() && d < m.nodes().len());
        if src.community == a && dst.community == b {
            lemma_with_unique(t.bridges_a, src.id);
            lemma_with_unique(t.bridges_b, dst.id);
            assert(node_in(m, src.id, a));
            assert(node_in(m, dst.id, b));
        } else if src.community == b && dst.community == a {
            lemma_with_unique(t.bridges_a, dst.id);
            lemma_with_unique(t.bridges_b, src.id);
            assert(node_in(m, dst.id, a));
            assert(node_in(m, src.id, b));
        }
    }
}

/// Edge `e` crosses from community `a` to `b` and node `x` is its `a` end,
/// or crosses from `b` to `a` and `x` is its `a` end.
pub open spec fn bridges_on(m: Model, a: Seq<char>, b: Seq<char>, e: int, x: Seq<char>) -> bool {
    let (s, d) = m.edges()[e];
    let src = m.nodes()[s as int];
    let dst = m.nodes()[d as int];
    ||| src.community == a && dst.community == b && src.id == x
    ||| src.community == b && dst.community == a && dst.id == x
}

/// The bridge nodes on each side are exactly the nodes on that side with an
/// edge crossing to the other side, for two different communities.
pub proof fn lemma_bridges_exact(m: Model, a: Seq<char>, b: Seq<char>, k: nat)
    requires
        a != b,
        k <= m.edges().len(),
    ensures
        forall|x: Seq<char>|
            #[trigger] tally(m, a, b, k).bridges_a.contains(x) <==> exists|e: int| 0 <= e < k && bridges_on(m, a, b, e, x),
        forall|x: Seq<char>|
            #[trigger] tally(m, a, b, k).bridges_b.contains(x) <==> exists|e: int| 0 <= e < k && bridges_on(m, b, a, e, x),
    decreases k,
{
    if k > 0 {
        lemma_bridges_exact(m, a, b, (k - 1) as nat);
        let t = tally(m, a, b, (k - 1) as nat);
        let u = tally(m, a, b, k);
        let (s, d) = m.edges()[k - 1];
        let src = m.nodes()[s as int];
        let dst = m.nodes()[d as int];
        assert forall|x: Seq<char>| #[trigger] u.bridges_a.contains(x) <==> exists|e: int| 0 <= e < k && bridges_on(m, a, b, e, x) by {
            if u.bridges_a.contains(x) {
                if t.bridges_a.contains(x) {
                    let e = choose|e: int| 0 <= e < k - 1 && bridges_on(m, a, b, e, x);
                } else {
                    assert(u.bridges_a != t.bridges_a);
                    assert(u.bridges_a == t.bridges_a.push(if src.community == a && dst.community == b { src.id } else { dst.id }));
                    assert(u.bridges_a.last() == x);
                    assert(bridges_on(m, a, b, k - 1, x));
                }
            }
            if exists|e: int| 0 <= e < k && bridges_on(m, a, b, e, x) {
                let e = choose|e: int| 0 <= e < k && bridges_on(m, a, b, e, x);
                if e < k - 1 {
                    assert(t.bridges_a.contains(x));
                    let i = choose|i: int| 0 <= i < t.bridges_a.len() && t.bridges_a[i] == x;
                    if u.bridges_a != t.bridges_a {
                        assert(u.bridges_a[i] == x);
                    }
                } else {
                    if t.bridges_a.contains(x) {
                        let i = choose|i: int| 0 <= i < t.bridges_a.len() && t.bridges_a[i] == x;
                        if u.bridges_a != t.bridges_a {
                            assert(u.bridges_a[i] == x);
                        }
                    } else {
                        assert(u.bridges_a.last() == x);
                    }
                }
            }
        }
        assert forall|x: Seq<char>| #[trigger] u.bridges_b.contains(x) <==> exists|e: int| 0 <= e < k && bridges_on(m, b, a, e, x) by {
            if u.bridges_b.contains(x) {
                if t.bridges_b.contains(x) {
                    let e = choose|e: int| 0 <= e < k - 1 && bridges_on(m, b, a, e, x);
                } else {
                    assert(u.bridges_b != t.bridges_b);
                    assert(u.bridges_b == t.bridges_b.push(if src.community == a && dst.community == b { dst.id } else { src.id }));
                    assert(u.bridges_b.last() == x);
                    assert(bridges_on(m, b, a, k - 1, x));
                }
            }
            if exists|e: int| 0 <= e < k && bridges_on(m, b, a, e, x) {
                let e = choose|e: int| 0 <= e < k && bridges_on(m, b, a, e, x);
                if e < k - 1 {
                    assert(t.bridges_b.contains(x));
                    let i = choose|i: int| 0 <= i < t.bridges_b.len() && t.bridges_b[i] == x;
                    if u.bridges_b != t.bridges_b {
                        assert(u.bridges_b[i] == x);
                    }
                } else {
                    if t.bridges_b.contains(x) {
                        let i = choose|i: int| 0 <= i < t.bridges_b.len() && t.bridges_b[i] == x;
                        if u.bridges_b != t.bridges_b {
                            assert(u.bridges_b[i] == x);
                        }
                    } else {
                        assert(u.bridges_b.last() == x);
                    }
                }
            }
        }
    }
}

/// What `seam_detail` reports of its bridge lists, as a law over the
/// detail: no repeats, each node on its own side, both sides non-empty for
/// a seam that some edge crosses, and (for two different communities) the
/// bridges of a side exactly the nodes there with an edge crossing the
/// seam.
pub proof fn lemma_detail_bridges(m: Model, a: Seq<char>, b: Seq<char>, d: SeamDetail)
    requires
        m.wf(),
        detail_matches(d, m, a, b),
    ensures
        texts(d.bridges_a@).no_duplicates(),
        texts(d.bridges_b@).no_duplicates(),
        forall|x: Seq<char>| #[trigger] texts(d.bridges_a@).contains(x) ==> node_in(m, x, a),
        forall|x: Seq<char>| #[trigger] texts(d.bridges_b@).contains(x) ==> node_in(m, x, b),
        d.a_to_b + d.b_to_a > 0 ==> d.bridges_a@.len() > 0 && d.bridges_b@.len() > 0,
        a != b ==> forall|x: Seq<char>|
            #[trigger] texts(d.bridges_a@).contains(x) <==> exists|e: int|
                0 <= e < m.edges().len() && bridges_on(m, a, b, e, x),
        a != b ==> forall|x: Seq<char>|
            #[trigger] texts(d.bridges_b@).contains(x) <==> exists|e: int|
                0 <= e < m.edges().len() && bridges_on(m, b, a, e, x),
{
    lemma_bridges(m, a, b, m.edges().len());
    if a != b {
        lemma_bridges_exact(m, a, b, m.edges().len());
    }
}

/// Some node of community `a` and some node of community `b` each reach
/// the other along edges of `m`.
pub open spec fn cycle_joins(m: Model, a: Seq<char>, b: Seq<char>) -> bool {
    exists|u: int, v: int|
        #![trigger m.nodes()[u], m.nodes()[v]]
        0 <= u < m.nodes().len() && 0 <= v < m.nodes().len() && m.nodes()[u].community == a
            && m.nodes()[v].community == b && reaches(edge_slots(m.graph), u as nat, v as nat) && reaches(
            edge_slots(m.graph),
            v as nat,
            u as nat,
        )
}

/// The verdict and the first reason of a seam's detail: `Leaky`, with the
/// call-cycle reason, exactly when a node on one side and a node on the
/// other reach each other (whatever the direct crossings are); otherwise
/// `Watch`, with the both-directions reason, when direct calls cross both
/// ways, and `Clean`, with the one-direction reason, when they do not.
pub proof fn lemma_verdict_law(m: Model, a: Seq<char>, b: Seq<char>, d: SeamDetail)
    requires
        detail_matches(d, m, a, b),
    ensures
        d.verdict == Verdict::Leaky <==> cycle_joins(m, a, b),
        !cycle_joins(m, a, b) ==> (d.verdict == Verdict::Watch <==> d.a_to_b > 0 && d.b_to_a > 0),
        !cycle_joins(m, a, b) ==> (d.verdict == Verdict::Clean <==> !(d.a_to_b > 0 && d.b_to_a > 0)),
        d.reasons@.len() == 2,
        cycle_joins(m, a, b) ==> d.reasons@[0]@
            == "A call cycle crosses the seam \u{2014} the boundary isn't real; changes on one side ripple back through the other."@,
        !cycle_joins(m, a, b) && d.a_to_b > 0 && d.b_to_a > 0 ==> d.reasons@[0]@
            == "Calls cross both directions. Clean seams usually flow one way (a caller/callee layering)."@,
        !cycle_joins(m, a, b) && !(d.a_to_b > 0 && d.b_to_a > 0) ==> d.reasons@[0]@
            == "Calls flow one direction only \u{2014} a clean caller\u{2192}callee layering."@,
{
    assert(cycle_joins(m, a, b) == cross_cycle(m, a, b)) by {
        if cycle_joins(m, a, b) {
            let (u, v) = choose|u: int, v: int|
                #![trigger m.nodes()[u], m.nodes()[v]]
                0 <= u < m.nodes().len() && 0 <= v < m.nodes().len() && m.nodes()[u].community == a
                    && m.nodes()[v].community == b && reaches(edge_slots(m.graph), u as nat, v as nat) && reaches(
                    edge_slots(m.graph),
                    v as nat,
                    u as nat,
                );
            assert(mutually_reachable(edge_slots(m.graph), u as nat, v as nat));
        }
    }
    assert(texts(d.reasons@).len() == 2);
    assert(texts(d.reasons@)[0] == d.reasons@[0]@);
}

} // verus!
