//! What the graph canvas shows: which nodes a seam focus keeps, the node
//! and edge payloads handed to the canvas widget, label truncation, and the
//! rule for when hiding is in force. Drawing, layout and the view transform
//! are done by the window code.

use crate::app::{FocusState, SeamExplorerApp};
use crate::graph::{graph_edge_ends, graph_node};
use crate::model::{CommunityId, Model, NodeView};
use crate::text::{decimal, decimal_text};
use crate::verdict::{edge_total, node_total, texts, SeamDetail};
use vstd::prelude::*;
use vstd::string::{StrSliceExecFns, StringExecFns};

verus! {

/// Labels longer than this many characters are shortened on the canvas.
pub const LABEL_MAX_CHARS: usize = 24;

/// A node as the canvas carries it: id, label and community only.
#[derive(Clone, Debug, PartialEq, Eq)]
pub struct PayloadNode {
    pub id: String,
    pub label: String,
    pub community: CommunityId,
}

/// An edge as the canvas carries it: the communities of its two ends.
#[derive(Clone, Debug, PartialEq, Eq)]
pub struct PayloadEdge {
    pub source_community: CommunityId,
    pub target_community: CommunityId,
}

/// How fast a scroll or pinch zooms: as usual, or at half speed while Shift
/// is held.
#[derive(Debug, Clone, Copy, PartialEq, Eq, Structural)]
pub enum ZoomSpeed {
    Normal,
    Slow,
}

/// A node of `community` is shown: always without a focus, and with one
/// only when `community` is either side of the focused seam.
pub open spec fn keeps(community: Seq<char>, focus: Option<&FocusState>) -> bool {
    match focus {
        None => true,
        Some(f) => community == f.a@ || community == f.b@,
    }
}

/// Whether a node of `community` is shown under `focus`.
pub fn node_visible(community: &CommunityId, focus: Option<&FocusState>) -> (r: bool)
    ensures
        r == keeps(community@, focus),
{
    match focus {
        None => true,
        Some(f) => *community == f.a || *community == f.b,
    }
}

/// Hiding is in force only while a seam is focused, trace mode is off and
/// no trace is shown: a trace needs the whole graph on screen.
pub fn hiding_active(app: &SeamExplorerApp) -> (r: bool)
    ensures
        r == (app.focus is Some && !app.trace_mode && app.trace is None),
{
    app.focus.is_some() && !app.trace_mode && app.trace.is_none()
}

/// How a node is drawn under a seam focus: on its first side, on its
/// second side, or dimmed (every node is dimmed without a focus).
#[derive(Debug, Clone, Copy, PartialEq, Eq, Structural)]
pub enum NodeSide {
    SideA,
    SideB,
    Dimmed,
}

/// The side a node of `community` is drawn on.
pub open spec fn side_of(community: Seq<char>, focus: Option<&FocusState>) -> NodeSide {
    match focus {
        Some(f) => if community == f.a@ {
            NodeSide::SideA
        } else if community == f.b@ {
            NodeSide::SideB
        } else {
            NodeSide::Dimmed
        },
        None => NodeSide::Dimmed,
    }
}

/// The side a node of `community` is drawn on under `focus`.
pub fn node_side(community: &CommunityId, focus: Option<&FocusState>) -> (r: NodeSide)
    ensures
        r == side_of(community@, focus),
{
    match focus {
        Some(f) => if *community == f.a {
            NodeSide::SideA
        } else if *community == f.b {
            NodeSide::SideB
        } else {
            NodeSide::Dimmed
        },
        None => NodeSide::Dimmed,
    }
}

/// Whether `id` is in `list`.
fn listed(list: &Vec<String>, id: &String) -> (r: bool)
    ensures
        r == texts(list@).contains(id@),
{
    let mut i: usize = 0;
    while i < list.len()
        invariant
            i <= list.len(),
            forall|k: int| 0 <= k < i ==> list@[k]@ != id@,
        decreases list.len() - i,
    {
        if list[i] == *id {
            assert(texts(list@)[i as int] == id@);
            return true;
        }
        i = i + 1;
    }
    assert(!texts(list@).contains(id@)) by {
        if texts(list@).contains(id@) {
            let k = choose|k: int| 0 <= k < texts(list@).len() && texts(list@)[k] == id@;
            assert(list@[k]@ == id@);
        }
    }
    false
}

/// Node `id` is drawn as a bridge: the open seam detail lists it on either
/// side.
pub fn is_bridge(id: &String, detail: Option<&SeamDetail>) -> (r: bool)
    ensures
        r == (detail matches Some(d) && (texts(d.bridges_a@).contains(id@) || texts(d.bridges_b@).contains(id@))),
{
    match detail {
        Some(d) => listed(&d.bridges_a, id) || listed(&d.bridges_b, id),
        None => false,
    }
}

/// The label of an edge between the communities `sc` and `tc`: with a seam
/// focused and its detail open, the crossing count in the edge's
/// direction across the seam; otherwise no label.
pub open spec fn crossing_label_of(sc: Seq<char>, tc: Seq<char>, focus: Option<&FocusState>, detail: Option<&SeamDetail>) -> Seq<char> {
    match (focus, detail) {
        (Some(f), Some(d)) => if sc == f.a@ && tc == f.b@ {
            decimal(d.a_to_b as nat)
        } else if sc == f.b@ && tc == f.a@ {
            decimal(d.b_to_a as nat)
        } else {
            Seq::<char>::empty()
        },
        _ => Seq::<char>::empty(),
    }
}

/// The label drawn on an edge from community `sc` to community `tc`.
pub fn crossing_label(sc: &CommunityId, tc: &CommunityId, focus: Option<&FocusState>, detail: Option<&SeamDetail>) -> (r: String)
    ensures
        r@ == crossing_label_of(sc@, tc@, focus, detail),
{
    match (focus, detail) {
        (Some(f), Some(d)) => if *sc == f.a && *tc == f.b {
            decimal_text(d.a_to_b as u128)
        } else if *sc == f.b && *tc == f.a {
            decimal_text(d.b_to_a as u128)
        } else {
            String::new()
        },
        _ => String::new(),
    }
}

/// `label` cut to at most `max_chars` characters: unchanged when it fits,
/// else its first `max_chars - 1` characters and an ellipsis.
pub open spec fn truncated(label: Seq<char>, max_chars: nat) -> Seq<char> {
    if label.len() <= max_chars {
        label
    } else {
        label.take(if max_chars == 0 { 0 } else { max_chars - 1 }) + seq!['\u{2026}']
    }
}

/// Shortens a label for the canvas, marking the cut with an ellipsis.
pub fn truncate_label(label: &str, max_chars: usize) -> (r: String)
    ensures
        r@ == truncated(label@, max_chars as nat),
{
    let n = label.unicode_len();
    if n <= max_chars {
        return String::from_str(label);
    }
    let keep = if max_chars == 0 { 0 } else { max_chars - 1 };
    let mut r = String::from_str(label.substring_char(0, keep));
    r.append("\u{2026}");
    proof {
        reveal_strlit("\u{2026}");
        assert(label@.subrange(0, keep as int) =~= label@.take(keep as int));
    }
    r
}

/// A node payload as text: (id, label, community).
pub open spec fn node_payload_view(p: PayloadNode) -> (Seq<char>, Seq<char>, Seq<char>) {
    (p.id@, p.label@, p.community@)
}

/// An edge payload with its ends: (source, target, source community,
/// target community).
pub open spec fn edge_payload_view(e: (usize, usize, PayloadEdge)) -> (nat, nat, Seq<char>, Seq<char>) {
    (e.0 as nat, e.1 as nat, e.2.source_community@, e.2.target_community@)
}

/// How many of the first `k` nodes are shown: the new position of node `k`
/// when it is shown.
pub open spec fn shown_before(nodes: Seq<NodeView>, focus: Option<&FocusState>, k: nat) -> nat
    decreases k,
{
    if k == 0 {
        0
    } else if keeps(nodes[k - 1].community, focus) {
        shown_before(nodes, focus, (k - 1) as nat) + 1
    } else {
        shown_before(nodes, focus, (k - 1) as nat)
    }
}

/// The payloads of the shown nodes among the first `k`, in node order.
pub open spec fn shown_nodes(nodes: Seq<NodeView>, focus: Option<&FocusState>, k: nat) -> Seq<(Seq<char>, Seq<char>, Seq<char>)>
    decreases k,
{
    if k == 0 {
        seq![]
    } else {
        let prev = shown_nodes(nodes, focus, (k - 1) as nat);
        let n = nodes[k - 1];
        if keeps(n.community, focus) {
            prev.push((n.id, n.label, n.community))
        } else {
            prev
        }
    }
}

/// The payloads of the first `k` edges whose ends are both shown, in edge
/// order, each end renumbered to its position among the shown nodes.
pub open spec fn shown_edges(m: Model, focus: Option<&FocusState>, k: nat) -> Seq<(nat, nat, Seq<char>, Seq<char>)>
    decreases k,
{
    if k == 0 {
        seq![]
    } else {
        let prev = shown_edges(m, focus, (k - 1) as nat);
        let (s, t) = m.edges()[k - 1];
        let cs = m.nodes()[s as int].community;
        let ct = m.nodes()[t as int].community;
        if keeps(cs, focus) && keeps(ct, focus) {
            prev.push((shown_before(m.nodes(), focus, s), shown_before(m.nodes(), focus, t), cs, ct))
        } else {
            prev
        }
    }
}

/// The canvas payloads for `model` under `focus`: the shown nodes in node
/// order, and the edges whose ends are both shown, their ends renumbered to
/// positions in the node list. Without a focus, every node and edge.
#[verifier::loop_isolation(false)]
pub fn build_payloads(model: &Model, focus: Option<&FocusState>) -> (r: (Vec<PayloadNode>, Vec<(usize, usize, PayloadEdge)>))
    requires
        model.wf(),
    ensures
        r.0@.map_values(|p: PayloadNode| node_payload_view(p)) == shown_nodes(model.nodes(), focus, model.nodes().len()),
        r.1@.map_values(|e: (usize, usize, PayloadEdge)| edge_payload_view(e)) == shown_edges(*model, focus, model.edges().len()),
        focus matches Some(f) ==> r.1@.len() == pair_edge_count(*model, f.a@, f.b@, model.edges().len()),
{
    let g = &model.graph;
    let ghost nodes = model.nodes();
    let nn = node_total(g);
    let mut payloads: Vec<PayloadNode> = Vec::new();
    let mut position: Vec<usize> = Vec::new();
    let mut i: usize = 0;
    while i < nn
        invariant
            i <= nn,
            nn == nodes.len(),
            position.len() == i,
            payloads.len() == shown_before(nodes, focus, i as nat),
            payloads@.map_values(|p: PayloadNode| node_payload_view(p)) == shown_nodes(nodes, focus, i as nat),
            forall|k: int| 0 <= k < i ==> #[trigger] position[k] == shown_before(nodes, focus, k as nat),
        decreases nn - i,
    {
        let node = graph_node(g, i).unwrap();
        assert(node@ == nodes[i as int]);
        let ghost before = payloads@;
        position.push(payloads.len());
        if node_visible(&node.community, focus) {
            payloads.push(
                PayloadNode { id: node.id.clone(), label: node.label.clone(), community: node.community.clone() },
            );
            assert(payloads@.map_values(|p: PayloadNode| node_payload_view(p)) =~= before.map_values(
                |p: PayloadNode| node_payload_view(p),
            ).push((nodes[i as int].id, nodes[i as int].label, nodes[i as int].community)));
        } else {
            assert(payloads@ == before);
        }
        i = i + 1;
    }
    let ne = edge_total(g);
    let mut edges: Vec<(usize, usize, PayloadEdge)> = Vec::new();
    let mut e: usize = 0;
    while e < ne
        invariant
            e <= ne,
            ne == model.edges().len(),
            nn == nodes.len(),
            position.len() == nn,
            forall|k: int| 0 <= k < nn ==> #[trigger] position[k] == shown_before(nodes, focus, k as nat),
            edges@.map_values(|x: (usize, usize, PayloadEdge)| edge_payload_view(x)) == shown_edges(*model, focus, e as nat),
        decreases ne - e,
    {
        let (s, t) = graph_edge_ends(g, e).unwrap();
        assert(model.edges()[e as int] == (s as nat, t as nat));
        let src = graph_node(g, s).unwrap();
        let dst = graph_node(g, t).unwrap();
        assert(src@ == nodes[s as int]);
        assert(dst@ == nodes[t as int]);
        let ghost before = edges@;
        if node_visible(&src.community, focus) && node_visible(&dst.community, focus) {
            edges.push(
                (
                    position[s],
                    position[t],
                    PayloadEdge { source_community: src.community.clone(), target_community: dst.community.clone() },
                ),
            );
            assert(edges@.map_values(|x: (usize, usize, PayloadEdge)| edge_payload_view(x)) =~= before.map_values(
                |x: (usize, usize, PayloadEdge)| edge_payload_view(x),
            ).push(
                (
                    shown_before(nodes, focus, s as nat),
                    shown_before(nodes, focus, t as nat),
                    nodes[s as int].community,
                    nodes[t as int].community,
                ),
            ));
        } else {
            assert(edges@ == before);
        }
        e = e + 1;
    }
    proof {
        if let Some(f) = focus {
            lemma_focused_edges_complete(*model, f);
            assert(edges@.map_values(|x: (usize, usize, PayloadEdge)| edge_payload_view(x)).len() == edges@.len());
        }
    }
    (payloads, edges)
}

/// A truncated label fits in `max_chars` characters (for a limit of at
/// least one), and a label that did not fit ends in an ellipsis after its
/// own first characters.
pub proof fn lemma_truncated_fits(label: Seq<char>, max_chars: nat)
    requires
        max_chars >= 1,
    ensures
        truncated(label, max_chars).len() <= max_chars,
        label.len() > max_chars ==> truncated(label, max_chars).last() == '\u{2026}' && truncated(
            label,
            max_chars,
        ).drop_last() == label.take(max_chars - 1),
{
    if label.len() > max_chars {
        let r = truncated(label, max_chars);
        assert(r.drop_last() =~= label.take(max_chars - 1));
    }
}

/// Without a focus every node is shown, as itself.
proof fn lemma_unfocused_nodes(nodes: Seq<NodeView>, k: nat)
    requires
        k <= nodes.len(),
    ensures
        shown_nodes(nodes, None, k).len() == k,
        forall|i: int| 0 <= i < k ==> #[trigger] shown_nodes(nodes, None, k)[i] == (nodes[i].id, nodes[i].label, nodes[i].community),
    decreases k,
{
    if k > 0 {
        lemma_unfocused_nodes(nodes, (k - 1) as nat);
    }
}

/// Without a focus every edge is shown.
proof fn lemma_unfocused_edges(m: Model, k: nat)
    requires
        k <= m.edges().len(),
    ensures
        shown_edges(m, None, k).len() == k,
    decreases k,
{
    if k > 0 {
        lemma_unfocused_edges(m, (k - 1) as nat);
    }
}

/// With a focus, every shown edge runs between the two focused
/// communities' nodes, and the shown nodes are exactly those of the two
/// communities.
proof fn lemma_focused_edges(m: Model, f: &FocusState, k: nat)
    ensures
        forall|i: int| 0 <= i < shown_edges(m, Some(f), k).len() ==> {
            let e = #[trigger] shown_edges(m, Some(f), k)[i];
            (e.2 == f.a@ || e.2 == f.b@) && (e.3 == f.a@ || e.3 == f.b@)
        },
    decreases k,
{
    if k > 0 {
        lemma_focused_edges(m, f, (k - 1) as nat);
        let prev = shown_edges(m, Some(f), (k - 1) as nat);
        let cur = shown_edges(m, Some(f), k);
        assert forall|i: int| 0 <= i < cur.len() implies (cur[i].2 == f.a@ || cur[i].2 == f.b@) && (cur[i].3
            == f.a@ || cur[i].3 == f.b@) by {
            if i < prev.len() {
                assert(cur[i] == prev[i]);
            }
        }
    }
}

/// The shown nodes under a focus are the nodes of the two focused
/// communities.
proof fn lemma_focused_nodes(nodes: Seq<NodeView>, f: &FocusState, k: nat)
    ensures
        forall|i: int| 0 <= i < shown_nodes(nodes, Some(f), k).len() ==> {
            let n = #[trigger] shown_nodes(nodes, Some(f), k)[i];
            n.2 == f.a@ || n.2 == f.b@
        },
    decreases k,
{
    if k > 0 {
        lemma_focused_nodes(nodes, f, (k - 1) as nat);
        let prev = shown_nodes(nodes, Some(f), (k - 1) as nat);
        let cur = shown_nodes(nodes, Some(f), k);
        assert forall|i: int| 0 <= i < cur.len() implies cur[i].2 == f.a@ || cur[i].2 == f.b@ by {
            if i < prev.len() {
                assert(cur[i] == prev[i]);
            }
        }
    }
}

/// Without a focus the canvas gets every node of the model, as it is, and
/// every edge; with a focus, only nodes and edges of the two focused
/// communities.
pub proof fn lemma_payload_scope(m: Model, focus: Option<&FocusState>)
    requires
        m.wf(),
    ensures
        focus is None ==> shown_nodes(m.nodes(), focus, m.nodes().len()).len() == m.nodes().len()
            && shown_edges(m, focus, m.edges().len()).len() == m.edges().len() && forall|i: int|
            0 <= i < m.nodes().len() ==> #[trigger] shown_nodes(m.nodes(), focus, m.nodes().len())[i] == (
                m.nodes()[i].id,
                m.nodes()[i].label,
                m.nodes()[i].community,
            ),
        focus matches Some(f) ==> (forall|i: int|
            0 <= i < shown_nodes(m.nodes(), focus, m.nodes().len()).len() ==> {
                let n = #[trigger] shown_nodes(m.nodes(), focus, m.nodes().len())[i];
                n.2 == f.a@ || n.2 == f.b@
            }) && (forall|i: int|
            0 <= i < shown_edges(m, focus, m.edges().len()).len() ==> {
                let e = #[trigger] shown_edges(m, focus, m.edges().len())[i];
                (e.2 == f.a@ || e.2 == f.b@) && (e.3 == f.a@ || e.3 == f.b@)
            }),
{
    match focus {
        None => {
            lemma_unfocused_nodes(m.nodes(), m.nodes().len());
            lemma_unfocused_edges(m, m.edges().len());
        },
        Some(f) => {
            lemma_focused_nodes(m.nodes(), f, m.nodes().len());
            lemma_focused_edges(m, f, m.edges().len());
        },
    }
}

/// Both ends of edge `e` lie in community `fa` or `fb`.
pub open spec fn edge_in_pair(m: Model, fa: Seq<char>, fb: Seq<char>, e: int) -> bool {
    let s = m.edges()[e].0 as int;
    let t = m.edges()[e].1 as int;
    &&& m.nodes()[s].community == fa || m.nodes()[s].community == fb
    &&& m.nodes()[t].community == fa || m.nodes()[t].community == fb
}

/// How many of the first `k` edges have both ends in `fa` or `fb`.
pub open spec fn pair_edge_count(m: Model, fa: Seq<char>, fb: Seq<char>, k: nat) -> nat
    decreases k,
{
    if k == 0 {
        0
    } else {
        pair_edge_count(m, fa, fb, (k - 1) as nat) + if edge_in_pair(m, fa, fb, k - 1) {
            1nat
        } else {
            0nat
        }
    }
}

/// The shown nodes among the first `k` number `shown_before(k)`.
proof fn lemma_shown_nodes_len(nodes: Seq<NodeView>, focus: Option<&FocusState>, k: nat)
    ensures
        shown_nodes(nodes, focus, k).len() == shown_before(nodes, focus, k),
    decreases k,
{
    if k > 0 {
        lemma_shown_nodes_len(nodes, focus, (k - 1) as nat);
    }
}

/// A shown node `s` sits at position `shown_before(s)` of the shown nodes.
proof fn lemma_shown_node_at(nodes: Seq<NodeView>, focus: Option<&FocusState>, s: int, k: nat)
    requires
        0 <= s < k <= nodes.len(),
        keeps(nodes[s].community, focus),
    ensures
        shown_before(nodes, focus, s as nat) < shown_nodes(nodes, focus, k).len(),
        shown_nodes(nodes, focus, k)[shown_before(nodes, focus, s as nat) as int] == (
            nodes[s].id,
            nodes[s].label,
            nodes[s].community,
        ),
    decreases k,
{
    lemma_shown_nodes_len(nodes, focus, s as nat);
    if k == s + 1 {
    } else {
        lemma_shown_node_at(nodes, focus, s, (k - 1) as nat);
    }
}

/// Under a focus, the shown edges among the first `k` are those with both
/// ends in the two focused communities.
proof fn lemma_pair_count(m: Model, f: &FocusState, k: nat)
    ensures
        shown_edges(m, Some(f), k).len() == pair_edge_count(m, f.a@, f.b@, k),
    decreases k,
{
    if k > 0 {
        lemma_pair_count(m, f, (k - 1) as nat);
    }
}

/// An edge with both ends in the focused pair is shown as itself.
proof fn lemma_last_edge_shown(m: Model, f: &FocusState, k: nat)
    requires
        m.wf(),
        0 < k <= m.edges().len(),
        edge_in_pair(m, f.a@, f.b@, k - 1),
    ensures
        shown_edges(m, Some(f), k).len() > 0,
        edge_shown_as(m, f, k - 1, shown_edges(m, Some(f), k).last()),
{
    let e0 = k - 1;
    let s = m.edges()[e0].0 as int;
    let t = m.edges()[e0].1 as int;
    assert(s < m.nodes().len() && t < m.nodes().len());
    lemma_shown_node_at(m.nodes(), Some(f), s, m.nodes().len());
    lemma_shown_node_at(m.nodes(), Some(f), t, m.nodes().len());
}

/// Every edge with both ends in the focused pair is among the shown edges.
proof fn lemma_pair_edges_shown(m: Model, f: &FocusState, k: nat)
    requires
        m.wf(),
        k <= m.edges().len(),
    ensures
        forall|e: int|
            0 <= e < k && #[trigger] edge_in_pair(m, f.a@, f.b@, e) ==> exists|i: int|
                0 <= i < shown_edges(m, Some(f), k).len() && edge_shown_as(
                    m,
                    f,
                    e,
                    #[trigger] shown_edges(m, Some(f), k)[i],
                ),
    decreases k,
{
    if k > 0 {
        lemma_pair_edges_shown(m, f, (k - 1) as nat);
        let prev = shown_edges(m, Some(f), (k - 1) as nat);
        let cur = shown_edges(m, Some(f), k);
        if edge_in_pair(m, f.a@, f.b@, k - 1) {
            lemma_last_edge_shown(m, f, k);
        }
        assert forall|e: int|
            0 <= e < k && #[trigger] edge_in_pair(m, f.a@, f.b@, e) implies exists|i: int|
                0 <= i < cur.len() && edge_shown_as(m, f, e, #[trigger] cur[i]) by {
            if e < k - 1 {
                let i = choose|i: int| 0 <= i < prev.len() && edge_shown_as(m, f, e, #[trigger] prev[i]);
                assert(cur[i] == prev[i]);
            } else {
                assert(edge_shown_as(m, f, e, cur[cur.len() - 1]));
            }
        }
    }
}

/// Every shown edge is an edge with both ends in the focused pair.
proof fn lemma_shown_edges_in_pair(m: Model, f: &FocusState, k: nat)
    requires
        m.wf(),
        k <= m.edges().len(),
    ensures
        forall|i: int|
            0 <= i < shown_edges(m, Some(f), k).len() ==> shown_edge_sourced(
                m,
                f,
                k,
                #[trigger] shown_edges(m, Some(f), k)[i],
            ),
    decreases k,
{
    if k > 0 {
        lemma_shown_edges_in_pair(m, f, (k - 1) as nat);
        let prev = shown_edges(m, Some(f), (k - 1) as nat);
        let cur = shown_edges(m, Some(f), k);
        if edge_in_pair(m, f.a@, f.b@, k - 1) {
            lemma_last_edge_shown(m, f, k);
        }
        assert forall|i: int| 0 <= i < cur.len() implies shown_edge_sourced(m, f, k, #[trigger] cur[i]) by {
            if i < prev.len() {
                assert(cur[i] == prev[i]);
                assert(shown_edge_sourced(m, f, (k - 1) as nat, prev[i]));
                let e = choose|e: int|
                    0 <= e < k - 1 && edge_in_pair(m, f.a@, f.b@, e) && #[trigger] edge_shown_as(m, f, e, prev[i]);
                assert(edge_shown_as(m, f, e, cur[i]));
            } else {
                assert(edge_in_pair(m, f.a@, f.b@, k - 1));
                assert(i == cur.len() - 1);
                assert(edge_shown_as(m, f, k - 1, cur[i]));
            }
        }
    }
}

/// The canvas under a focus on `f` shows every edge between the two
/// focused communities and no other: as many payload edges as edges with
/// both ends in `f.a` or `f.b`, each such edge among them with its ends
/// pointing at the payloads of its own end nodes, and each payload edge
/// coming from such an edge.
pub proof fn lemma_focused_edges_complete(m: Model, f: &FocusState)
    requires
        m.wf(),
    ensures
        shown_edges(m, Some(f), m.edges().len()).len() == pair_edge_count(m, f.a@, f.b@, m.edges().len()),
        forall|e: int|
            0 <= e < m.edges().len() && #[trigger] edge_in_pair(m, f.a@, f.b@, e) ==> exists|i: int|
                0 <= i < shown_edges(m, Some(f), m.edges().len()).len() && edge_shown_as(
                    m,
                    f,
                    e,
                    #[trigger] shown_edges(m, Some(f), m.edges().len())[i],
                ),
        forall|i: int|
            0 <= i < shown_edges(m, Some(f), m.edges().len()).len() ==> shown_edge_sourced(
                m,
                f,
                m.edges().len() as nat,
                #[trigger] shown_edges(m, Some(f), m.edges().len())[i],
            ),
{
    let ne = m.edges().len();
    lemma_pair_count(m, f, ne);
    lemma_pair_edges_shown(m, f, ne);
    lemma_shown_edges_in_pair(m, f, ne);

}

/// Payload edge `x` is one of the first `k` edges of `m` with both ends in
/// the focused pair, as shown.
pub open spec fn shown_edge_sourced(m: Model, f: &FocusState, k: nat, x: (nat, nat, Seq<char>, Seq<char>)) -> bool {
    exists|e: int| 0 <= e < k && edge_in_pair(m, f.a@, f.b@, e) && #[trigger] edge_shown_as(m, f, e, x)
}

/// Payload edge `x` is edge `e` of `m` as shown under the focus on `f`:
/// its communities are those of `e`'s ends, and its ends point at the shown
/// payloads of `e`'s own end nodes.
pub open spec fn edge_shown_as(m: Model, f: &FocusState, e: int, x: (nat, nat, Seq<char>, Seq<char>)) -> bool {
    let s = m.edges()[e].0 as int;
    let t = m.edges()[e].1 as int;
    let ns = shown_nodes(m.nodes(), Some(f), m.nodes().len());
    &&& x.2 == m.nodes()[s].community
    &&& x.3 == m.nodes()[t].community
    &&& x.0 < ns.len()
    &&& x.1 < ns.len()
    &&& ns[x.0 as int].0 == m.nodes()[s].id
    &&& ns[x.1 as int].0 == m.nodes()[t].id
}

} // verus!
