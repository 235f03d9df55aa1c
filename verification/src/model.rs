//! The graph model: `Node` weights held in a petgraph `StableGraph`, plus the
//! id -> node-index map and the cached strongly-connected-component index.

use crate::graph::{edge_slots, node_slots, SeamGraph};
use crate::verdict::SccIndex;
use vstd::hash_map::StringHashMap;
use vstd::prelude::*;

verus! {

/// Community identifier: Graphify's `community` field, always as text (a
/// numeric community is kept as the digits it was written with).
pub type CommunityId = String;

/// One component of the analysed codebase.
#[derive(Debug, Clone)]
pub struct Node {
    pub id: String,
    pub label: String,
    pub community: CommunityId,
    pub community_name: Option<String>,
    pub file_type: Option<String>,
    /// The file the component is defined in, relative to the repository.
    pub source_file: Option<String>,
    /// Where in that file, as Graphify writes it (such as `L42`).
    pub source_location: Option<String>,
}

/// What a `Node` says, as text.
pub struct NodeView {
    pub id: Seq<char>,
    pub label: Seq<char>,
    pub community: Seq<char>,
    pub community_name: Option<Seq<char>>,
    pub file_type: Option<Seq<char>>,
    pub source_file: Option<Seq<char>>,
    pub source_location: Option<Seq<char>>,
}

/// The text of an optional string.
pub open spec fn opt_view(s: Option<String>) -> Option<Seq<char>> {
    match s {
        Some(t) => Some(t@),
        None => None,
    }
}

impl View for Node {
    type V = NodeView;

    open spec fn view(&self) -> NodeView {
        NodeView {
            id: self.id@,
            label: self.label@,
            community: self.community@,
            community_name: opt_view(self.community_name),
            file_type: opt_view(self.file_type),
            source_file: opt_view(self.source_file),
            source_location: opt_view(self.source_location),
        }
    }
}

/// The in-memory graph: every edge in `graph` already passed the ingest
/// filter (structural relation, extracted confidence, both ends known).
pub struct Model {
    pub graph: SeamGraph,
    pub index: StringHashMap<usize>,
    /// Filled once per load by `finalize_scc`.
    pub scc: Option<SccIndex>,
}

/// Every slot of `slots` holds a node, and their views are `nodes`.
pub open spec fn slots_hold_nodes(slots: Seq<Option<Node>>, nodes: Seq<NodeView>) -> bool {
    &&& slots.len() == nodes.len()
    &&& forall|i: int| 0 <= i < slots.len() ==> (#[trigger] slots[i]) is Some && slots[i]->0@ == nodes[i]
}

/// Every slot of `slots` holds an edge, and they are `edges`.
pub open spec fn slots_hold_edges(slots: Seq<Option<(nat, nat)>>, edges: Seq<(nat, nat)>) -> bool {
    &&& slots.len() == edges.len()
    &&& forall|e: int| 0 <= e < slots.len() ==> #[trigger] slots[e] == Some(edges[e])
}

/// `index` maps exactly the ids of `nodes` to their positions (so no two
/// nodes share an id).
pub open spec fn index_matches(index: Map<Seq<char>, usize>, nodes: Seq<NodeView>) -> bool {
    &&& forall|k: Seq<char>| #[trigger]
        index.contains_key(k) ==> index[k] < nodes.len() && nodes[index[k] as int].id == k
    &&& forall|i: int| 0 <= i < nodes.len() ==> #[trigger] index.contains_key(nodes[i].id) && index[nodes[i].id] == i
}

impl Model {
    /// The nodes, by index.
    pub open spec fn nodes(&self) -> Seq<NodeView> {
        node_slots(self.graph).map_values(|o: Option<Node>| o->0@)
    }

    /// The edges as (source, target) node indices, by edge index.
    pub open spec fn edges(&self) -> Seq<(nat, nat)> {
        edge_slots(self.graph).map_values(|o: Option<(nat, nat)>| o->0)
    }

    /// The model is well formed: no vacant slot, every edge between nodes of
    /// the graph, the index matching the node ids, and a cached component
    /// index (if any) computed for this very graph.
    pub open spec fn wf(&self) -> bool {
        &&& slots_hold_nodes(node_slots(self.graph), self.nodes())
        &&& slots_hold_edges(edge_slots(self.graph), self.edges())
        &&& forall|e: int| 0 <= e < self.edges().len() ==> (#[trigger] self.edges()[e]).0 < self.nodes().len()
            && self.edges()[e].1 < self.nodes().len()
        &&& index_matches(self.index@, self.nodes())
        &&& self.index@.dom().finite()
        &&& (self.scc matches Some(s) ==> s.valid_for(self.graph))
    }
}

} // verus!
