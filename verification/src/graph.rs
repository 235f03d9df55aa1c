//! The petgraph `StableGraph` that holds the model, seen through two names
//! for its contents (its node slots and its edge slots), and the graph
//! algorithms the analysis calls on it.

use crate::model::Node;
use petgraph::stable_graph::{NodeIndex, StableGraph};
use petgraph::visit::{EdgeIndexable, NodeIndexable};
use petgraph::Directed;
use vstd::prelude::*;

verus! {

#[verifier::external_type_specification]
#[verifier::external_body]
#[verifier::reject_recursive_types(N)]
#[verifier::reject_recursive_types(E)]
#[verifier::reject_recursive_types(Ty)]
#[verifier::reject_recursive_types(Ix)]
pub struct ExStableGraph<N, E, Ty, Ix>(StableGraph<N, E, Ty, Ix>);

#[verifier::external_type_specification]
#[verifier::external_body]
pub struct ExDirected(Directed);

/// The concrete graph type of a `Model`: directed, `Node` weights, unit edge
/// weights, `usize` indices.
pub type SeamGraph = StableGraph<Node, (), Directed, usize>;

/// The node slots of a `StableGraph`, by index: `Some(weight)` for a node in
/// use, `None` for a vacant slot left by a removal.
pub uninterp spec fn node_slots(g: StableGraph<Node, (), Directed, usize>) -> Seq<Option<Node>>;

/// The edge slots of a `StableGraph`, by index: `Some((source, target))` for
/// an edge in use, `None` for a vacant slot.
pub uninterp spec fn edge_slots(g: StableGraph<Node, (), Directed, usize>) -> Seq<Option<(nat, nat)>>;

/// `StableGraph::default`: an empty graph, no slots at all.
#[verifier::external_body]
pub(crate) fn graph_new() -> (g: SeamGraph)
    ensures
        node_slots(g) == Seq::<Option<Node>>::empty(),
        edge_slots(g) == Seq::<Option<(nat, nat)>>::empty(),
{
    StableGraph::default()
}


/// Every slot holds a value.
pub open spec fn all_some<T>(slots: Seq<Option<T>>) -> bool {
    forall|i: int| 0 <= i < slots.len() ==> (#[trigger] slots[i]) is Some
}

/// `StableGraph::add_node`. With no vacant slot the node goes into a new
/// slot at the end; otherwise it fills a vacant slot. Edges are untouched.
/// With `usize` indices the index limit check never fails, so it never
/// panics.
#[verifier::external_body]
pub(crate) fn graph_add_node(g: &mut SeamGraph, w: Node) -> (r: usize)
    ensures
        r < node_slots(*final(g)).len(),
        all_some(node_slots(*old(g))) ==> r == node_slots(*old(g)).len() && node_slots(*final(g))
            == node_slots(*old(g)).push(Some(w)),
        !all_some(node_slots(*old(g))) ==> r < node_slots(*old(g)).len() && node_slots(
            *old(g),
        )[r as int] is None && node_slots(*final(g)) == node_slots(*old(g)).update(
            r as int,
            Some(w),
        ),
        edge_slots(*final(g)) == edge_slots(*old(g)),
{
    g.add_node(w).index()
}

/// `StableGraph::add_edge` from `a` to `b`; both must be nodes in use (it
/// panics otherwise). With no vacant edge slot the edge goes into a new slot
/// at the end; otherwise it fills a vacant slot. Nodes are untouched.
#[verifier::external_body]
pub(crate) fn graph_add_edge(g: &mut SeamGraph, a: usize, b: usize) -> (r: usize)
    requires
        a < node_slots(*old(g)).len(),
        node_slots(*old(g))[a as int] is Some,
        b < node_slots(*old(g)).len(),
        node_slots(*old(g))[b as int] is Some,
    ensures
        r < edge_slots(*final(g)).len(),
        all_some(edge_slots(*old(g))) ==> r == edge_slots(*old(g)).len() && edge_slots(*final(g))
            == edge_slots(*old(g)).push(Some((a as nat, b as nat))),
        !all_some(edge_slots(*old(g))) ==> r < edge_slots(*old(g)).len() && edge_slots(
            *old(g),
        )[r as int] is None && edge_slots(*final(g)) == edge_slots(*old(g)).update(
            r as int,
            Some((a as nat, b as nat)),
        ),
        node_slots(*final(g)) == node_slots(*old(g)),
{
    g.add_edge(NodeIndex::new(a), NodeIndex::new(b), ()).index()
}

/// `StableGraph::node_weight`: the weight in slot `i`, `None` when the slot
/// is vacant or past the end.
#[verifier::external_body]
pub(crate) fn graph_node(g: &SeamGraph, i: usize) -> (r: Option<&Node>)
    ensures
        match r {
            Some(n) => i < node_slots(*g).len() && node_slots(*g)[i as int] == Some(*n),
            None => i >= node_slots(*g).len() || node_slots(*g)[i as int] is None,
        },
{
    g.node_weight(NodeIndex::new(i))
}

/// `StableGraph::edge_endpoints`: the (source, target) of the edge in slot
/// `e`, `None` when the slot is vacant or past the end.
#[verifier::external_body]
pub(crate) fn graph_edge_ends(g: &SeamGraph, e: usize) -> (r: Option<(usize, usize)>)
    ensures
        match r {
            Some((s, t)) => e < edge_slots(*g).len() && edge_slots(*g)[e as int] == Some(
                (s as nat, t as nat),
            ),
            None => e >= edge_slots(*g).len() || edge_slots(*g)[e as int] is None,
        },
{
    g.edge_endpoints(petgraph::stable_graph::EdgeIndex::new(e)).map(|(s, t)| (s.index(), t.index()))
}

/// `NodeIndexable::node_bound`: one past the largest node index in use (0
/// when no node is in use).
#[verifier::external_body]
pub(crate) fn graph_node_bound(g: &SeamGraph) -> (r: usize)
    ensures
        r <= node_slots(*g).len(),
        forall|j: int| r <= j < node_slots(*g).len() ==> (#[trigger] node_slots(*g)[j]) is None,
        r > 0 ==> node_slots(*g)[r - 1] is Some,
{
    g.node_bound()
}

/// `EdgeIndexable::edge_bound`: one past the largest edge index in use (0
/// when no edge is in use).
#[verifier::external_body]
pub(crate) fn graph_edge_bound(g: &SeamGraph) -> (r: usize)
    ensures
        r <= edge_slots(*g).len(),
        forall|j: int| r <= j < edge_slots(*g).len() ==> (#[trigger] edge_slots(*g)[j]) is None,
        r > 0 ==> edge_slots(*g)[r - 1] is Some,
{
    g.edge_bound()
}


/// Some edge slot holds an edge from `s` to `t`.
pub open spec fn has_edge(edges: Seq<Option<(nat, nat)>>, s: nat, t: nat) -> bool {
    exists|e: int| 0 <= e < edges.len() && edges[e] == Some((s, t))
}

/// `p` is a non-empty sequence of nodes, each joined to the next by an edge.
pub open spec fn is_walk(edges: Seq<Option<(nat, nat)>>, p: Seq<nat>) -> bool {
    &&& p.len() > 0
    &&& forall|i: int| 0 <= i < p.len() - 1 ==> #[trigger] has_edge(edges, p[i], p[i + 1])
}

/// `p` is a walk that starts at `u` and ends at `v`.
pub open spec fn walk_between(edges: Seq<Option<(nat, nat)>>, p: Seq<nat>, u: nat, v: nat) -> bool {
    &&& is_walk(edges, p)
    &&& p[0] == u
    &&& p[p.len() - 1] == v
}

/// Some walk leads from `u` to `v` (every node reaches itself).
pub open spec fn reaches(edges: Seq<Option<(nat, nat)>>, u: nat, v: nat) -> bool {
    exists|p: Seq<nat>| #[trigger] walk_between(edges, p, u, v)
}

/// `u` and `v` lie on a common cycle, or are the same node: each reaches
/// the other. This is the relation whose classes are the strongly connected
/// components.
pub open spec fn mutually_reachable(edges: Seq<Option<(nat, nat)>>, u: nat, v: nat) -> bool {
    reaches(edges, u, v) && reaches(edges, v, u)
}

/// A sequence of indices, read as naturals.
pub open spec fn as_nats(s: Seq<usize>) -> Seq<nat> {
    s.map_values(|x: usize| x as nat)
}

/// `petgraph::algo::tarjan_scc`: the strongly connected components of the
/// graph. Each component is non-empty, every node in use lies in exactly one
/// component (at exactly one position) and in no other, and two nodes share
/// a component exactly when each reaches the other. The order of the
/// components, and of the nodes within one, is left unsaid.
#[verifier::external_body]
pub(crate) fn graph_sccs(g: &SeamGraph) -> (r: Vec<Vec<usize>>)
    ensures
        forall|c: int| 0 <= c < r.len() ==> #[trigger] r[c].len() > 0,
        forall|c: int, k: int|
            0 <= c < r.len() && 0 <= k < r[c].len() ==> #[trigger] r[c][k] < node_slots(*g).len()
                && node_slots(*g)[r[c][k] as int] is Some,
        forall|c1: int, k1: int, c2: int, k2: int|
            0 <= c1 < r.len() && 0 <= k1 < r[c1].len() && 0 <= c2 < r.len() && 0 <= k2 < r[c2].len()
                && #[trigger] r[c1][k1] == #[trigger] r[c2][k2] ==> c1 == c2 && k1 == k2,
        forall|n: int|
            0 <= n < node_slots(*g).len() && (#[trigger] node_slots(*g)[n]) is Some ==> exists|
                c: int,
                k: int,
            | 0 <= c < r.len() && 0 <= k < r[c].len() && r[c][k] == n,
        forall|c1: int, k1: int, c2: int, k2: int|
            0 <= c1 < r.len() && 0 <= k1 < r[c1].len() && 0 <= c2 < r.len() && 0 <= k2 < r[c2].len()
                ==> (c1 == c2 <==> mutually_reachable(
                edge_slots(*g),
                #[trigger] r[c1][k1] as nat,
                #[trigger] r[c2][k2] as nat,
            )),
{
    petgraph::algo::tarjan_scc(g).into_iter().map(|c| c.into_iter().map(|n| n.index()).collect()).collect()
}

/// The search's goal test: node `n` is the target `to`.
fn is_goal(n: usize, to: usize) -> (r: bool)
    ensures
        r == (n == to),
{
    n == to
}

/// The cost of every edge in the search.
fn unit_cost() -> (r: usize)
    ensures
        r == 1,
{
    1
}

/// The search's estimate of the distance left: none.
fn zero_estimate() -> (r: usize)
    ensures
        r == 0,
{
    0
}

/// `petgraph::algo::astar` from `from` to `to` with every edge costing 1 and
/// a zero estimate (an admissible one, under which A* finds a shortest
/// path): a path exists exactly when `to` is reachable, and the path given
/// is a walk from `from` to `to` with no walk between them shorter. Which of
/// several equally short paths it gives is left unsaid.
#[verifier::external_body]
pub(crate) fn graph_shortest_path(g: &SeamGraph, from: usize, to: usize) -> (r: Option<Vec<usize>>)
    requires
        from < node_slots(*g).len(),
        node_slots(*g)[from as int] is Some,
        to < node_slots(*g).len(),
        node_slots(*g)[to as int] is Some,
    ensures
        r is Some <==> reaches(edge_slots(*g), from as nat, to as nat),
        r matches Some(p) ==> walk_between(edge_slots(*g), as_nats(p@), from as nat, to as nat)
            && forall|q: Seq<nat>|
            #[trigger] walk_between(edge_slots(*g), q, from as nat, to as nat) ==> p.len() <= q.len(),
{
    petgraph::algo::astar(g, NodeIndex::new(from), |n| is_goal(n.index(), to), |_| unit_cost(), |_| zero_estimate()).map(
        |(_, path)| path.into_iter().map(|n| n.index()).collect(),
    )
}

} // verus!
