//! Reading a Graphify `graph.json` (NetworkX node-link data) into a `Model`.
//!
//! Kept: every node with an id (the first of several nodes sharing an id),
//! and every link whose relation is structural and whose confidence is
//! `EXTRACTED`. A kept link whose source or target is not a node id is
//! dropped and reported as a warning instead.

use crate::graph::{edge_slots, graph_add_edge, graph_add_node, graph_new, node_slots};
use crate::json::{json_document, parse_json, JsonValue};
use crate::model::{index_matches, slots_hold_edges, slots_hold_nodes, Model, Node, NodeView};
use crate::text::same_text;
use vstd::hash_map::StringHashMap;
use vstd::prelude::*;
use vstd::string::StringExecFns;

verus! {

/// The relations whose links count as architectural coupling.
pub const STRUCTURAL_RELATIONS: [&'static str; 5] = ["calls", "references", "method", "implements", "imports_from"];

/// The only confidence whose links are kept.
pub const EXTRACTED: &'static str = "EXTRACTED";

/// Why a document could not be read at all.
#[derive(Debug, Clone, PartialEq, Eq)]
pub enum SeamCoreError {
    /// The text is not JSON; carries the parser's message.
    Parse(String),
    /// The JSON has no array under this key (`nodes` or `links`).
    MissingArray(String),
}

/// A kept link that was dropped because an endpoint is not a node id.
#[derive(Debug, Clone, PartialEq, Eq)]
pub struct DroppedEdge {
    pub source: String,
    pub target: String,
}

/// A read document: the model, and the links dropped on the way.
pub struct IngestResult {
    pub model: Model,
    pub warnings: Vec<DroppedEdge>,
}

/// The member of an object under `key` (its first, should the key repeat).
pub open spec fn member_of(fields: Seq<(String, JsonValue)>, key: Seq<char>) -> Option<JsonValue>
    decreases fields.len(),
{
    if fields.len() == 0 {
        None
    } else if fields[0].0@ == key {
        Some(fields[0].1)
    } else {
        member_of(fields.drop_first(), key)
    }
}

/// The text of a string or a number.
pub open spec fn scalar_text(v: Option<JsonValue>) -> Option<Seq<char>> {
    match v {
        Some(JsonValue::Str(s)) => Some(s@),
        Some(JsonValue::Number(n)) => Some(n@),
        _ => None,
    }
}

/// The text of a string.
pub open spec fn string_text(v: Option<JsonValue>) -> Option<Seq<char>> {
    match v {
        Some(JsonValue::Str(s)) => Some(s@),
        _ => None,
    }
}

/// The node a `nodes[]` entry describes: an object with a string or numeric
/// `id`. The label defaults to the id, the community to empty text.
pub open spec fn node_of(v: JsonValue) -> Option<NodeView> {
    match v {
        JsonValue::Object(f) => match scalar_text(member_of(f@, "id"@)) {
            Some(id) => Some(
                NodeView {
                    id,
                    label: match string_text(member_of(f@, "label"@)) {
                        Some(l) => l,
                        None => id,
                    },
                    community: match scalar_text(member_of(f@, "community"@)) {
                        Some(c) => c,
                        None => seq![],
                    },
                    community_name: string_text(member_of(f@, "community_name"@)),
                    file_type: string_text(member_of(f@, "file_type"@)),
                    source_file: string_text(member_of(f@, "source_file"@)),
                    source_location: string_text(member_of(f@, "source_location"@)),
                },
            ),
            None => None,
        },
        _ => None,
    }
}

/// A relation that counts as architectural coupling.
pub open spec fn is_structural(r: Seq<char>) -> bool {
    ||| r == "calls"@
    ||| r == "references"@
    ||| r == "method"@
    ||| r == "implements"@
    ||| r == "imports_from"@
}

/// The (source id, target id) of a `links[]` entry that passes the filter:
/// a structural relation, `EXTRACTED` confidence, and string or numeric
/// endpoints.
pub open spec fn link_of(v: JsonValue) -> Option<(Seq<char>, Seq<char>)> {
    match v {
        JsonValue::Object(f) => match (
            string_text(member_of(f@, "relation"@)),
            string_text(member_of(f@, "confidence"@)),
            scalar_text(member_of(f@, "source"@)),
            scalar_text(member_of(f@, "target"@)),
        ) {
            (Some(rel), Some(conf), Some(s), Some(t)) => if is_structural(rel) && conf == "EXTRACTED"@ {
                Some((s, t))
            } else {
                None
            },
            _ => None,
        },
        _ => None,
    }
}

/// Some node has this id.
pub open spec fn has_id(nodes: Seq<NodeView>, id: Seq<char>) -> bool {
    exists|i: int| 0 <= i < nodes.len() && nodes[i].id == id
}

/// The position of the node with this id.
pub open spec fn position_of(nodes: Seq<NodeView>, id: Seq<char>) -> nat {
    (choose|i: int| 0 <= i < nodes.len() && nodes[i].id == id) as nat
}

/// The nodes kept from `entries`, in order.
pub open spec fn kept_nodes(entries: Seq<JsonValue>) -> Seq<NodeView>
    decreases entries.len(),
{
    if entries.len() == 0 {
        seq![]
    } else {
        let prev = kept_nodes(entries.drop_last());
        match node_of(entries.last()) {
            Some(n) => if has_id(prev, n.id) {
                prev
            } else {
                prev.push(n)
            },
            None => prev,
        }
    }
}

/// The edges (as node positions) and the dropped (source, target) pairs
/// from `links`, in order.
pub struct LinkTally {
    pub edges: Seq<(nat, nat)>,
    pub dropped: Seq<(Seq<char>, Seq<char>)>,
}

pub open spec fn link_tally(nodes: Seq<NodeView>, links: Seq<JsonValue>) -> LinkTally
    decreases links.len(),
{
    if links.len() == 0 {
        LinkTally { edges: seq![], dropped: seq![] }
    } else {
        let t = link_tally(nodes, links.drop_last());
        match link_of(links.last()) {
            Some((s, d)) => if has_id(nodes, s) && has_id(nodes, d) {
                LinkTally {
                    edges: t.edges.push((position_of(nodes, s), position_of(nodes, d))),
                    dropped: t.dropped,
                }
            } else {
                LinkTally { edges: t.edges, dropped: t.dropped.push((s, d)) }
            },
            None => t,
        }
    }
}

/// The `nodes` and `links` arrays of a document, or the name of the first
/// of them that is missing (or is not an array).
pub open spec fn doc_arrays(doc: JsonValue) -> Result<(Seq<JsonValue>, Seq<JsonValue>), Seq<char>> {
    match doc {
        JsonValue::Object(f) => match member_of(f@, "nodes"@) {
            Some(JsonValue::Array(ns)) => match member_of(f@, "links"@) {
                Some(JsonValue::Array(ls)) => Ok((ns@, ls@)),
                _ => Err("links"@),
            },
            _ => Err("nodes"@),
        },
        _ => Err("nodes"@),
    }
}

/// The (source, target) texts of dropped edges.
pub open spec fn dropped_texts(w: Seq<DroppedEdge>) -> Seq<(Seq<char>, Seq<char>)> {
    w.map_values(|d: DroppedEdge| (d.source@, d.target@))
}

/// The links of `doc` dropped for naming an unknown node (none when an
/// array is missing).
pub open spec fn doc_dropped(doc: JsonValue) -> Seq<(Seq<char>, Seq<char>)> {
    match doc_arrays(doc) {
        Ok((ns, ls)) => link_tally(kept_nodes(ns), ls).dropped,
        Err(_) => seq![],
    }
}

/// `m` holds what `doc` describes: its kept nodes and kept edges.
pub open spec fn holds_document(m: Model, doc: JsonValue) -> bool {
    match doc_arrays(doc) {
        Ok((ns, ls)) => {
            &&& m.wf()
            &&& m.nodes() == kept_nodes(ns)
            &&& m.edges() == link_tally(kept_nodes(ns), ls).edges
        },
        Err(_) => false,
    }
}

/// The message of an ingest error.
pub open spec fn core_error_text(e: SeamCoreError) -> Seq<char> {
    match e {
        SeamCoreError::Parse(m) => "invalid JSON: "@ + m@,
        SeamCoreError::MissingArray(name) => "graph.json has no `"@ + name@ + "` array"@,
    }
}

impl SeamCoreError {
    /// The message shown for this error.
    pub fn message(&self) -> (r: String)
        ensures
            r@ == core_error_text(*self),
    {
        match self {
            SeamCoreError::Parse(m) => {
                let mut r = String::from_str("invalid JSON: ");
                r.append(m.as_str());
                r
            },
            SeamCoreError::MissingArray(name) => {
                let mut r = String::from_str("graph.json has no `");
                r.append(name.as_str());
                r.append("` array");
                r
            },
        }
    }
}

/// `r` is what reading `doc` gives: the missing array named, or a fresh
/// model (no component index yet) of the kept nodes and edges, with the
/// dropped links as warnings.
pub open spec fn ingest_matches(r: Result<IngestResult, SeamCoreError>, doc: JsonValue) -> bool {
    match doc_arrays(doc) {
        Err(name) => r matches Err(SeamCoreError::MissingArray(n)) && n@ == name,
        Ok((ns, ls)) => r matches Ok(res) && {
            &&& holds_document(res.model, doc)
            &&& res.model.scc is None
            &&& dropped_texts(res.warnings@) == doc_dropped(doc)
        },
    }
}


/// The member of an object under `key`.
fn member<'a>(fields: &'a Vec<(String, JsonValue)>, key: &str) -> (r: Option<&'a JsonValue>)
    ensures
        match r {
            Some(v) => member_of(fields@, key@) == Some(*v),
            None => member_of(fields@, key@) is None,
        },
{
    let mut i: usize = 0;
    assert(fields@.skip(0) =~= fields@);
    while i < fields.len()
        invariant
            i <= fields.len(),
            member_of(fields@, key@) == member_of(fields@.skip(i as int), key@),
        decreases fields.len() - i,
    {
        assert(fields@.skip(i as int)[0] == fields@[i as int]);
        if same_text(fields[i].0.as_str(), key) {
            return Some(&fields[i].1);
        }
        assert(fields@.skip(i as int).drop_first() =~= fields@.skip(i + 1));
        i = i + 1;
    }
    None
}

/// The string or number text of a member.
fn scalar<'a>(v: Option<&'a JsonValue>) -> (r: Option<&'a String>)
    ensures
        match v {
            Some(x) => match r {
                Some(t) => scalar_text(Some(*x)) == Some(t@),
                None => scalar_text(Some(*x)) is None,
            },
            None => r is None,
        },
{
    match v {
        Some(JsonValue::Str(s)) => Some(s),
        Some(JsonValue::Number(n)) => Some(n),
        _ => None,
    }
}

/// The string text of a member.
fn string_member<'a>(v: Option<&'a JsonValue>) -> (r: Option<&'a String>)
    ensures
        match v {
            Some(x) => match r {
                Some(t) => string_text(Some(*x)) == Some(t@),
                None => string_text(Some(*x)) is None,
            },
            None => r is None,
        },
{
    match v {
        Some(JsonValue::Str(s)) => Some(s),
        _ => None,
    }
}

/// A copy of an optional string member.
fn optional_string(v: Option<&JsonValue>) -> (r: Option<String>)
    ensures
        match v {
            Some(x) => crate::model::opt_view(r) == string_text(Some(*x)),
            None => r is None,
        },
{
    match string_member(v) {
        Some(s) => Some(s.clone()),
        None => None,
    }
}

/// The node a `nodes[]` entry describes.
fn node_from(v: &JsonValue) -> (r: Option<Node>)
    ensures
        match r {
            Some(n) => node_of(*v) == Some(n@),
            None => node_of(*v) is None,
        },
{
    match v {
        JsonValue::Object(f) => {
            let id_member = member(f, "id");
            match scalar(id_member) {
                Some(id) => {
                    let label_member = member(f, "label");
                    let label = match string_member(label_member) {
                        Some(l) => l.clone(),
                        None => id.clone(),
                    };
                    let community_member = member(f, "community");
                    let community = match scalar(community_member) {
                        Some(c) => c.clone(),
                        None => String::new(),
                    };
                    let community_name = optional_string(member(f, "community_name"));
                    let file_type = optional_string(member(f, "file_type"));
                    let source_file = optional_string(member(f, "source_file"));
                    let source_location = optional_string(member(f, "source_location"));
                    let n = Node {
                        id: id.clone(),
                        label,
                        community,
                        community_name,
                        file_type,
                        source_file,
                        source_location,
                    };
                    proof {
                        let fs = f@;
                        assert(scalar_text(member_of(fs, "id"@)) == Some(id@));
                        if member_of(fs, "label"@) is None {
                            assert(string_text(member_of(fs, "label"@)) is None);
                        }
                        if member_of(fs, "community"@) is None {
                            assert(scalar_text(member_of(fs, "community"@)) is None);
                        }
                        assert(n@ == node_of(*v)->0);
                    }
                    Some(n)
                },
                None => None,
            }
        },
        _ => None,
    }
}

/// Whether `r` is one of the structural relations.
fn structural(r: &str) -> (b: bool)
    ensures
        b == is_structural(r@),
{
    same_text(r, "calls") || same_text(r, "references") || same_text(r, "method") || same_text(
        r,
        "implements",
    ) || same_text(r, "imports_from")
}

/// The (source, target) of a `links[]` entry that passes the filter.
fn link_from(v: &JsonValue) -> (r: Option<(&String, &String)>)
    ensures
        match r {
            Some((s, t)) => link_of(*v) == Some((s@, t@)),
            None => link_of(*v) is None,
        },
{
    match v {
        JsonValue::Object(f) => {
            let rel = string_member(member(f, "relation"));
            let conf = string_member(member(f, "confidence"));
            let src = scalar(member(f, "source"));
            let dst = scalar(member(f, "target"));
            match (rel, conf, src, dst) {
                (Some(rel), Some(conf), Some(s), Some(t)) => {
                    if structural(rel.as_str()) && same_text(conf.as_str(), EXTRACTED) {
                        Some((s, t))
                    } else {
                        None
                    }
                },
                _ => {
                    proof {
                        let fs = f@;
                        if member_of(fs, "relation"@) is None || member_of(fs, "confidence"@) is None
                            || member_of(fs, "source"@) is None || member_of(fs, "target"@) is None {
                        }
                    }
                    None
                },
            }
        },
        _ => None,
    }
}

/// Reads a parsed document into a model: the kept nodes in order, then the
/// kept links between known nodes in order, the others reported.
pub fn from_json_value(doc: &JsonValue) -> (r: Result<IngestResult, SeamCoreError>)
    ensures
        ingest_matches(r, *doc),
{
    let fields = match doc {
        JsonValue::Object(f) => f,
        _ => {
            return Err(SeamCoreError::MissingArray(String::from_str("nodes")));
        },
    };
    let node_entries = match member(fields, "nodes") {
        Some(JsonValue::Array(ns)) => ns,
        _ => {
            return Err(SeamCoreError::MissingArray(String::from_str("nodes")));
        },
    };
    let link_entries = match member(fields, "links") {
        Some(JsonValue::Array(ls)) => ls,
        _ => {
            return Err(SeamCoreError::MissingArray(String::from_str("links")));
        },
    };
    let ghost ns = node_entries@;
    let ghost ls = link_entries@;
    let mut graph = graph_new();
    let mut index: StringHashMap<usize> = StringHashMap::new();
    let mut k: usize = 0;
    assert(ns.take(0) =~= Seq::<JsonValue>::empty());
    while k < node_entries.len()
        invariant
            ns == node_entries@,
            k <= ns.len(),
            slots_hold_nodes(node_slots(graph), kept_nodes(ns.take(k as int))),
            edge_slots(graph) == Seq::<Option<(nat, nat)>>::empty(),
            index_matches(index@, kept_nodes(ns.take(k as int))),
            index@.dom().finite(),
        decreases ns.len() - k,
    {
        let ghost prev = kept_nodes(ns.take(k as int));
        assert(ns.take(k + 1).drop_last() =~= ns.take(k as int));
        assert(ns.take(k + 1).last() == ns[k as int]);
        match node_from(&node_entries[k]) {
            Some(n) => {
                if !index.contains_key(n.id.as_str()) {
                    let id = n.id.clone();
                    assert(!has_id(prev, n.id@)) by {
                        if has_id(prev, n.id@) {
                            let i = choose|i: int| 0 <= i < prev.len() && prev[i].id == n.id@;
                            assert(index@.contains_key(prev[i].id));
                        }
                    }
                    let ghost nv = n@;
                    let i = graph_add_node(&mut graph, n);
                    index.insert(id, i);
                    assert(i == prev.len());
                    assert(kept_nodes(ns.take(k + 1)) == prev.push(nv));
                    assert forall|j: int|
                        0 <= j < node_slots(graph).len() implies (#[trigger] node_slots(graph)[j]) is Some
                        && node_slots(graph)[j]->0@ == prev.push(nv)[j] by {
                        if j < prev.len() {
                            assert(node_slots(graph)[j] == node_slots(graph).drop_last()[j]);
                        }
                    }
                    assert forall|key: Seq<char>| #[trigger]
                        index@.contains_key(key) implies index@[key] < prev.push(nv).len()
                        && prev.push(nv)[index@[key] as int].id == key by {
                        if key != nv.id {
                            assert(prev.push(nv)[index@[key] as int] == prev[index@[key] as int]);
                        }
                    }
                    assert forall|j: int| 0 <= j < prev.push(nv).len() implies #[trigger] index@.contains_key(
                        prev.push(nv)[j].id,
                    ) && index@[prev.push(nv)[j].id] == j by {
                        if j < prev.len() {
                            assert(prev.push(nv)[j] == prev[j]);
                            assert(prev[j].id != nv.id);
                        }
                    }
                    assert(index_matches(index@, prev.push(nv)));
                } else {
                    assert(has_id(prev, n.id@)) by {
                        let i = index@[n.id@];
                        assert(prev[i as int].id == n.id@);
                    }
                    assert(kept_nodes(ns.take(k + 1)) == prev);
                }
            },
            None => {
                assert(kept_nodes(ns.take(k + 1)) == prev);
            },
        }
        k = k + 1;
    }
    assert(ns.take(ns.len() as int) =~= ns);
    let ghost nodes = kept_nodes(ns);
    let mut warnings: Vec<DroppedEdge> = Vec::new();
    let mut e: usize = 0;
    assert(ls.take(0) =~= Seq::<JsonValue>::empty());
    while e < link_entries.len()
        invariant
            ls == link_entries@,
            e <= ls.len(),
            slots_hold_nodes(node_slots(graph), nodes),
            slots_hold_edges(
                edge_slots(graph),
                link_tally(nodes, ls.take(e as int)).edges,
            ),
            forall|x: int|
                0 <= x < link_tally(nodes, ls.take(e as int)).edges.len() ==> (#[trigger] link_tally(
                    nodes,
                    ls.take(e as int),
                ).edges[x]).0 < nodes.len() && link_tally(nodes, ls.take(e as int)).edges[x].1
                    < nodes.len(),
            dropped_texts(warnings@) == link_tally(nodes, ls.take(e as int)).dropped,
            index_matches(index@, nodes),
            index@.dom().finite(),
        decreases ls.len() - e,
    {
        let ghost prev = link_tally(nodes, ls.take(e as int));
        assert(ls.take(e + 1).drop_last() =~= ls.take(e as int));
        assert(ls.take(e + 1).last() == ls[e as int]);
        match link_from(&link_entries[e]) {
            Some((s, t)) => {
                match (index.get(s.as_str()), index.get(t.as_str())) {
                    (Some(si), Some(ti)) => {
                        let si = *si;
                        let ti = *ti;
                        assert(nodes[si as int].id == s@);
                        assert(nodes[ti as int].id == t@);
                        assert(has_id(nodes, s@));
                        assert(has_id(nodes, t@));
                        assert(position_of(nodes, s@) == si) by {
                            let p = position_of(nodes, s@);
                            assert(index@[nodes[p as int].id] == p);
                        }
                        assert(position_of(nodes, t@) == ti) by {
                            let p = position_of(nodes, t@);
                            assert(index@[nodes[p as int].id] == p);
                        }
                        assert(node_slots(graph)[si as int] is Some);
                        assert(node_slots(graph)[ti as int] is Some);
                        let _ = graph_add_edge(&mut graph, si, ti);
                        assert(link_tally(nodes, ls.take(e + 1)).edges == prev.edges.push(
                            (si as nat, ti as nat),
                        ));
                    },
                    _ => {
                        proof {
                            if has_id(nodes, s@) && has_id(nodes, t@) {
                                let i = choose|i: int| 0 <= i < nodes.len() && nodes[i].id == s@;
                                let j = choose|i: int| 0 <= i < nodes.len() && nodes[i].id == t@;
                                assert(index@.contains_key(nodes[i].id));
                                assert(index@.contains_key(nodes[j].id));
                            }
                        }
                        let ghost before = warnings@;
                        warnings.push(DroppedEdge { source: s.clone(), target: t.clone() });
                        assert(dropped_texts(warnings@) =~= dropped_texts(before).push((s@, t@)));
                    },
                }
            },
            None => {},
        }
        e = e + 1;
    }
    assert(ls.take(ls.len() as int) =~= ls);
    let model = Model { graph, index, scc: None };
    assert(model.nodes() =~= nodes);
    assert(model.edges() =~= link_tally(nodes, ls).edges);
    Ok(IngestResult { model, warnings })
}

/// Parses `json` and reads it into a model. Text that is not JSON is a
/// `Parse` error; otherwise the result is that of `from_json_value` on the
/// parsed document.
pub fn from_json(json: &str) -> (r: Result<IngestResult, SeamCoreError>)
    ensures
        match json_document(json@) {
            None => r matches Err(SeamCoreError::Parse(_)),
            Some(doc) => ingest_matches(r, doc),
        },
{
    match parse_json(json) {
        Ok(doc) => from_json_value(&doc),
        Err(message) => Err(SeamCoreError::Parse(message)),
    }
}

} // verus!
