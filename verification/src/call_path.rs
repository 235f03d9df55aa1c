//! Call-path tracing: the shortest directed path between two components, and
//! the seams it crosses on the way.

use crate::graph::{
    as_nats, edge_slots, graph_node, graph_shortest_path, has_edge, is_walk, node_slots, reaches, walk_between,
};
use crate::ingest::{has_id, position_of};
use crate::model::{CommunityId, Model};
use vstd::prelude::*;

verus! {

/// A traced path: the node ids hop by hop, and each community boundary it
/// crosses as (from community, to community), in traversal order.
#[derive(Debug, Clone, PartialEq, Eq)]
pub struct TracePath {
    pub hops: Vec<String>,
    pub seams_crossed: Vec<(CommunityId, CommunityId)>,
}

/// The ids of the nodes at positions `p`.
pub open spec fn hop_ids(m: Model, p: Seq<nat>) -> Seq<Seq<char>> {
    p.map_values(|i: nat| m.nodes()[i as int].id)
}

/// The community boundaries a walk over positions `p` crosses, in order.
pub open spec fn crossings_along(m: Model, p: Seq<nat>) -> Seq<(Seq<char>, Seq<char>)>
    decreases p.len(),
{
    if p.len() < 2 {
        seq![]
    } else {
        let prev = crossings_along(m, p.drop_last());
        let a = m.nodes()[p[p.len() - 2] as int].community;
        let b = m.nodes()[p[p.len() - 1] as int].community;
        if a != b {
            prev.push((a, b))
        } else {
            prev
        }
    }
}

/// The texts of a list of community pairs.
pub open spec fn pair_texts(v: Seq<(String, String)>) -> Seq<(Seq<char>, Seq<char>)> {
    v.map_values(|x: (String, String)| (x.0@, x.1@))
}

/// `p` is a shortest walk from `u` to `v`.
pub open spec fn shortest_walk(m: Model, p: Seq<nat>, u: nat, v: nat) -> bool {
    &&& walk_between(edge_slots(m.graph), p, u, v)
    &&& forall|q: Seq<nat>| #[trigger] walk_between(edge_slots(m.graph), q, u, v) ==> p.len() <= q.len()
}

/// `t` is a trace of a shortest path from node `from` to node `to`.
pub open spec fn traces(t: TracePath, m: Model, from: Seq<char>, to: Seq<char>) -> bool {
    exists|p: Seq<nat>|
        #[trigger] shortest_walk(m, p, position_of(m.nodes(), from), position_of(m.nodes(), to))
            && texts_of(t.hops@) == hop_ids(m, p) && pair_texts(t.seams_crossed@) == crossings_along(
            m,
            p,
        )
}

/// The texts of a list of strings.
pub open spec fn texts_of(v: Seq<String>) -> Seq<Seq<char>> {
    v.map_values(|s: String| s@)
}

/// A shortest directed call path from the node `from` to the node `to`:
/// `None` when either id is unknown or `to` cannot be reached from `from`.
#[verifier::loop_isolation(false)]
pub fn trace_path(model: &Model, from: &str, to: &str) -> (r: Option<TracePath>)
    requires
        model.wf(),
    ensures
        r is Some <==> has_id(model.nodes(), from@) && has_id(model.nodes(), to@) && reaches(
            edge_slots(model.graph),
            position_of(model.nodes(), from@),
            position_of(model.nodes(), to@),
        ),
        r matches Some(t) ==> traces(t, *model, from@, to@),
        r matches Some(t) ==> exists|at: Seq<int>|
            #[trigger] crossings_are_steps(*model, texts_of(t.hops@), pair_texts(t.seams_crossed@), at),
{
    let g = &model.graph;
    let ghost nodes = model.nodes();
    let fi = match model.index.get(from) {
        Some(i) => *i,
        None => {
            proof {
                if has_id(nodes, from@) {
                    let i = choose|i: int| 0 <= i < nodes.len() && nodes[i].id == from@;
                    assert(model.index@.contains_key(nodes[i].id));
                }
            }
            return None;
        },
    };
    let ti = match model.index.get(to) {
        Some(i) => *i,
        None => {
            proof {
                if has_id(nodes, to@) {
                    let i = choose|i: int| 0 <= i < nodes.len() && nodes[i].id == to@;
                    assert(model.index@.contains_key(nodes[i].id));
                }
            }
            return None;
        },
    };
    assert(nodes[fi as int].id == from@);
    assert(nodes[ti as int].id == to@);
    assert(has_id(nodes, from@));
    assert(has_id(nodes, to@));
    assert(position_of(nodes, from@) == fi) by {
        let p = position_of(nodes, from@);
        assert(model.index@[nodes[p as int].id] == p);
    }
    assert(position_of(nodes, to@) == ti) by {
        let p = position_of(nodes, to@);
        assert(model.index@[nodes[p as int].id] == p);
    }
    assert(node_slots(*g)[fi as int] is Some);
    assert(node_slots(*g)[ti as int] is Some);
    let path = match graph_shortest_path(g, fi, ti) {
        Some(p) => p,
        None => {
            return None;
        },
    };
    let ghost p = as_nats(path@);
    assert forall|i: int| 0 <= i < p.len() implies #[trigger] p[i] < nodes.len() by {
        if i > 0 {
            let j = i - 1;
            assert(has_edge(edge_slots(*g), p[j], p[j + 1]));
            assert(j + 1 == i);
            let e = choose|e: int|
                0 <= e < edge_slots(*g).len() && edge_slots(*g)[e] == Some((p[i - 1], p[i]));
            assert(model.edges()[e] == (p[i - 1], p[i]));
        }
    }
    let mut hops: Vec<String> = Vec::new();
    let mut seams_crossed: Vec<(CommunityId, CommunityId)> = Vec::new();
    let mut k: usize = 0;
    while k < path.len()
        invariant
            k <= path.len(),
            p == as_nats(path@),
            texts_of(hops@) == hop_ids(*model, p.take(k as int)),
            pair_texts(seams_crossed@) == crossings_along(*model, p.take(k as int)),
        decreases path.len() - k,
    {
        let idx = path[k];
        assert(p[k as int] == idx);
        let node = graph_node(g, idx).unwrap();
        assert(node@ == nodes[idx as int]);
        if k > 0 {
            let prev_idx = path[k - 1];
            assert(p[k - 1] == prev_idx);
            let prev = graph_node(g, prev_idx).unwrap();
            assert(prev@ == nodes[prev_idx as int]);
            assert(p.take(k + 1).drop_last() =~= p.take(k as int));
            if prev.community != node.community {
                let ghost before = seams_crossed@;
                seams_crossed.push((prev.community.clone(), node.community.clone()));
                assert(pair_texts(seams_crossed@) =~= pair_texts(before).push(
                    (prev.community@, node.community@),
                ));
            }
        } else {
            assert(crossings_along(*model, p.take(1)) =~= seq![]);
        }
        let ghost hb = hops@;
        hops.push(node.id.clone());
        assert(texts_of(hops@) =~= texts_of(hb).push(node.id@));
        assert(hop_ids(*model, p.take(k + 1)) =~= hop_ids(*model, p.take(k as int)).push(
            nodes[idx as int].id,
        ));
        k = k + 1;
    }
    assert(p.take(path.len() as int) =~= p);
    let t = TracePath { hops, seams_crossed };
    assert(shortest_walk(*model, p, fi as nat, ti as nat));
    proof {
        lemma_trace_crossings(t, *model, from@, to@);
    }
    Some(t)
}

/// A walk crosses at most one boundary per step.
proof fn lemma_crossings_bound(m: Model, p: Seq<nat>)
    ensures
        p.len() >= 1 ==> crossings_along(m, p).len() < p.len(),
    decreases p.len(),
{
    if p.len() >= 2 {
        lemma_crossings_bound(m, p.drop_last());
    }
}

/// A traced path starts at `from` and ends at `to`, crosses fewer seams
/// than it has hops, and from a node to itself is that node alone,
/// crossing nothing.
pub proof fn lemma_trace_shape(t: TracePath, m: Model, from: Seq<char>, to: Seq<char>)
    requires
        m.wf(),
        has_id(m.nodes(), from),
        has_id(m.nodes(), to),
        traces(t, m, from, to),
    ensures
        t.hops@.len() >= 1,
        t.hops@[0]@ == from,
        t.hops@[t.hops@.len() - 1]@ == to,
        t.seams_crossed@.len() < t.hops@.len(),
        from == to ==> t.hops@.len() == 1 && t.seams_crossed@.len() == 0,
{
    let nodes = m.nodes();
    let u = position_of(nodes, from);
    let v = position_of(nodes, to);
    let p = choose|p: Seq<nat>|
        #[trigger] shortest_walk(m, p, u, v) && texts_of(t.hops@) == hop_ids(m, p) && pair_texts(
            t.seams_crossed@,
        ) == crossings_along(m, p);
    assert(texts_of(t.hops@).len() == t.hops@.len());
    assert(texts_of(t.hops@)[0] == t.hops@[0]@);
    assert(texts_of(t.hops@)[t.hops@.len() - 1] == t.hops@[t.hops@.len() - 1]@);
    assert(pair_texts(t.seams_crossed@).len() == t.seams_crossed@.len());
    lemma_crossings_bound(m, p);
    if from == to {
        let q = seq![u];
        assert(walk_between(edge_slots(m.graph), q, u, v));
        assert(p.len() <= q.len());
    }
}

/// The community of the node with id `id`.
pub open spec fn hop_community(m: Model, id: Seq<char>) -> Seq<char> {
    m.nodes()[position_of(m.nodes(), id) as int].community
}

/// `at` gives, for each listed crossing, the step of the path (from hop
/// `at[i]` to hop `at[i] + 1`) it is: the communities of those two hops,
/// which differ; the steps come in path order, and every step between two
/// different communities is listed.
pub open spec fn crossings_are_steps(
    m: Model,
    hops: Seq<Seq<char>>,
    crossed: Seq<(Seq<char>, Seq<char>)>,
    at: Seq<int>,
) -> bool {
    &&& at.len() == crossed.len()
    &&& forall|i: int|
        0 <= i < at.len() ==> 0 <= #[trigger] at[i] && at[i] + 1 < hops.len() && crossed[i] == (
            hop_community(m, hops[at[i]]),
            hop_community(m, hops[at[i] + 1]),
        ) && hop_community(m, hops[at[i]]) != hop_community(m, hops[at[i] + 1])
    &&& forall|i: int, j: int| 0 <= i < j < at.len() ==> #[trigger] at[i] < #[trigger] at[j]
    &&& forall|k: int|
        0 <= k && k + 1 < hops.len() && #[trigger] hop_community(m, hops[k]) != hop_community(m, hops[k + 1]) ==> exists|i: int|
            0 <= i < at.len() && at[i] == k
}

/// The crossings along a walk over positions `p` are its steps between
/// different communities, in order.
proof fn lemma_crossings_steps(m: Model, p: Seq<nat>) -> (at: Seq<int>)
    ensures
        at.len() == crossings_along(m, p).len(),
        forall|i: int|
            0 <= i < at.len() ==> 0 <= #[trigger] at[i] && at[i] + 1 < p.len() && crossings_along(m, p)[i] == (
                m.nodes()[p[at[i]] as int].community,
                m.nodes()[p[at[i] + 1] as int].community,
            ) && m.nodes()[p[at[i]] as int].community != m.nodes()[p[at[i] + 1] as int].community,
        forall|i: int, j: int| 0 <= i < j < at.len() ==> #[trigger] at[i] < #[trigger] at[j],
        forall|k: int|
            0 <= k && k + 1 < p.len() && #[trigger] m.nodes()[p[k] as int].community != m.nodes()[p[k + 1] as int].community
                ==> exists|i: int| 0 <= i < at.len() && at[i] == k,
    decreases p.len(),
{
    if p.len() < 2 {
        seq![]
    } else {
        let q = p.drop_last();
        let prev = lemma_crossings_steps(m, q);
        assert forall|k: int| 0 <= k < q.len() implies q[k] == p[k] by {}
        let last = p.len() - 2;
        let ca = m.nodes()[p[last] as int].community;
        let cb = m.nodes()[p[last + 1] as int].community;
        let at = if ca != cb {
            prev.push(last)
        } else {
            prev
        };
        assert forall|k: int|
            0 <= k && k + 1 < p.len() && #[trigger] m.nodes()[p[k] as int].community != m.nodes()[p[k
                + 1] as int].community implies exists|i: int| 0 <= i < at.len() && at[i] == k by {
            if k < last {
                assert(q[k] == p[k] && q[k + 1] == p[k + 1]);
                assert(m.nodes()[q[k] as int].community != m.nodes()[q[k + 1] as int].community);
                let i = choose|i: int| 0 <= i < prev.len() && prev[i] == k;
                assert(at[i] == k);
            } else {
                assert(at[at.len() - 1] == k);
            }
        }
        assert forall|i: int|
            0 <= i < at.len() implies 0 <= #[trigger] at[i] && at[i] + 1 < p.len() && crossings_along(m, p)[i] == (
                m.nodes()[p[at[i]] as int].community,
                m.nodes()[p[at[i] + 1] as int].community,
            ) && m.nodes()[p[at[i]] as int].community != m.nodes()[p[at[i] + 1] as int].community by {
            if i < prev.len() {
                assert(at[i] == prev[i]);
                assert(q[prev[i]] == p[prev[i]] && q[prev[i] + 1] == p[prev[i] + 1]);
            }
        }
        at
    }
}

/// Under a well-formed model, the node at position `k` is the one its id
/// names.
proof fn lemma_position_of_node(m: Model, k: int)
    requires
        m.wf(),
        0 <= k < m.nodes().len(),
    ensures
        position_of(m.nodes(), m.nodes()[k].id) == k,
{
    let nodes = m.nodes();
    assert(has_id(nodes, nodes[k].id));
    let p = position_of(nodes, nodes[k].id);
    assert(m.index@.contains_key(nodes[p as int].id));
    assert(m.index@.contains_key(nodes[k].id));
    assert(m.index@[nodes[p as int].id] == p);
    assert(m.index@[nodes[k].id] == k);
}

/// The seams a trace crosses are exactly its steps between two different
/// communities, in path order: each listed crossing joins the communities
/// of two consecutive hops, which differ, and every such step is listed,
/// once. A path whose hops never change community crosses nothing.
pub proof fn lemma_trace_crossings(t: TracePath, m: Model, from: Seq<char>, to: Seq<char>)
    requires
        m.wf(),
        has_id(m.nodes(), from),
        has_id(m.nodes(), to),
        traces(t, m, from, to),
    ensures
        exists|at: Seq<int>|
            #[trigger] crossings_are_steps(m, texts_of(t.hops@), pair_texts(t.seams_crossed@), at),
        (forall|k: int|
            0 <= k && k + 1 < t.hops@.len() ==> #[trigger] hop_community(m, t.hops@[k]@) == hop_community(
                m,
                t.hops@[k + 1]@,
            )) ==> t.seams_crossed@.len() == 0,
{
    let nodes = m.nodes();
    let u = position_of(nodes, from);
    let v = position_of(nodes, to);
    let p = choose|p: Seq<nat>|
        #[trigger] shortest_walk(m, p, u, v) && texts_of(t.hops@) == hop_ids(m, p) && pair_texts(
            t.seams_crossed@,
        ) == crossings_along(m, p);
    lemma_walk_in_range(m, p);
    let hops = texts_of(t.hops@);
    assert forall|k: int| 0 <= k < p.len() implies #[trigger] hop_community(m, hops[k]) == nodes[p[k] as int].community by {
        assert(hops[k] == nodes[p[k] as int].id);
        lemma_position_of_node(m, p[k] as int);
    }
    let at = lemma_crossings_steps(m, p);
    let crossed = pair_texts(t.seams_crossed@);
    assert forall|k: int|
        0 <= k && k + 1 < hops.len() && #[trigger] hop_community(m, hops[k]) != hop_community(m, hops[k + 1]) implies exists|i: int|
            0 <= i < at.len() && at[i] == k by {
        assert(hop_community(m, hops[k]) == nodes[p[k] as int].community);
        assert(hop_community(m, hops[k + 1]) == nodes[p[k + 1] as int].community);
        assert(nodes[p[k] as int].community != nodes[p[k + 1] as int].community);
    }
    assert forall|i: int|
        0 <= i < at.len() implies 0 <= #[trigger] at[i] && at[i] + 1 < hops.len() && crossed[i] == (
            hop_community(m, hops[at[i]]),
            hop_community(m, hops[at[i] + 1]),
        ) && hop_community(m, hops[at[i]]) != hop_community(m, hops[at[i] + 1]) by {
        assert(hop_community(m, hops[at[i]]) == nodes[p[at[i]] as int].community);
        assert(hop_community(m, hops[at[i] + 1]) == nodes[p[at[i] + 1] as int].community);
    }
    assert(crossings_are_steps(m, hops, crossed, at));
    if forall|k: int|
        0 <= k && k + 1 < t.hops@.len() ==> #[trigger] hop_community(m, t.hops@[k]@) == hop_community(
            m,
            t.hops@[k + 1]@,
        ) {
        if at.len() > 0 {
            let k = at[0];
            assert(t.hops@[k]@ == hops[k] && t.hops@[k + 1]@ == hops[k + 1]);
                                }
        assert(crossed.len() == t.seams_crossed@.len());
    }
}

/// Every position of a walk that starts at a node is a node of the model.
proof fn lemma_walk_in_range(m: Model, p: Seq<nat>)
    requires
        m.wf(),
        is_walk(edge_slots(m.graph), p),
        p[0] < m.nodes().len(),
    ensures
        forall|i: int| 0 <= i < p.len() ==> #[trigger] p[i] < m.nodes().len(),
{
    assert forall|i: int| 0 <= i < p.len() implies #[trigger] p[i] < m.nodes().len() by {
        if i > 0 {
            let j = i - 1;
            assert(has_edge(edge_slots(m.graph), p[j], p[j + 1]));
            assert(j + 1 == i);
            let e = choose|e: int|
                0 <= e < edge_slots(m.graph).len() && edge_slots(m.graph)[e] == Some((p[i - 1], p[i]));
            assert(m.edges()[e] == (p[i - 1], p[i]));
        }
    }
}

} // verus!
