use seam_explorer::ingest::{from_json, SeamCoreError, STRUCTURAL_RELATIONS};

#[test]
fn structural_relations_allowlist_matches_locked_decision_d01() {
    assert_eq!(STRUCTURAL_RELATIONS.len(), 5);
    for r in ["calls", "references", "method", "implements", "imports_from"] {
        assert!(STRUCTURAL_RELATIONS.contains(&r), "allow-list missing relation: {r}");
    }
}

#[test]
fn fatal_invalid_json_is_not_ok_and_is_distinguishable_from_missing_array() {
    let err = from_json("{ not json").err().expect("non-JSON input must be a fatal Err");
    assert!(
        matches!(err, SeamCoreError::Parse(_)),
        "invalid JSON must produce the Parse variant; got {err:?}"
    );
}

#[test]
fn fatal_missing_nodes_array_is_not_ok_with_an_empty_graph() {
    let err = from_json(r#"{"links": []}"#).err().expect("no `nodes` array must be fatal");
    match err {
        SeamCoreError::MissingArray(name) => assert_eq!(name, "nodes"),
        other => panic!("expected SeamCoreError::MissingArray(\"nodes\"), got {other:?}"),
    }
}

#[test]
fn fatal_missing_links_array_is_not_ok_with_an_empty_graph() {
    let err = from_json(r#"{"nodes": []}"#).err().expect("no `links` array must be fatal");
    match err {
        SeamCoreError::MissingArray(name) => assert_eq!(name, "links"),
        other => panic!("expected SeamCoreError::MissingArray(\"links\"), got {other:?}"),
    }
}

#[test]
fn fatal_missing_array_never_produces_ok() {
    assert!(from_json(r#"{}"#).is_err(), "a doc with neither array present must be fatal");
}

#[test]
fn only_structural_extracted_links_between_known_nodes_are_kept() {
    let doc = r#"{"nodes":[
      {"id":"a1","label":"A one","community":3},
      {"id":"b1","community":"B","community_name":"Billing","file_type":"code","source_file":"src/billing.rs","source_location":"L9"},
      {"id":"a1","label":"duplicate","community":"Z"}
    ],"links":[
      {"source":"a1","target":"b1","relation":"calls","confidence":"EXTRACTED"},
      {"source":"a1","target":"b1","relation":"contains","confidence":"EXTRACTED"},
      {"source":"a1","target":"b1","relation":"calls","confidence":"INFERRED"},
      {"source":"b1","target":"a1","relation":"semantically_similar_to","confidence":"EXTRACTED"},
      {"source":"b1","target":"nowhere","relation":"calls","confidence":"EXTRACTED"}
    ]}"#;
    let result = from_json(doc).ok().expect("must parse");
    let model = &result.model;
    assert_eq!(model.graph.node_count(), 2, "the first node with an id wins");
    assert_eq!(model.graph.edge_count(), 1);
    assert_eq!(result.warnings.len(), 1);
    assert_eq!(result.warnings[0].source, "b1");
    assert_eq!(result.warnings[0].target, "nowhere");
    let a1 = &model.graph[petgraph::stable_graph::NodeIndex::new(0)];
    assert_eq!(a1.label, "A one");
    assert_eq!(a1.community, "3", "a numeric community is kept as its digits");
    let b1 = &model.graph[petgraph::stable_graph::NodeIndex::new(1)];
    assert_eq!(b1.label, "b1");
    assert_eq!(b1.community_name.as_deref(), Some("Billing"));
    assert_eq!(b1.file_type.as_deref(), Some("code"));
    assert_eq!(b1.source_file.as_deref(), Some("src/billing.rs"));
    assert_eq!(b1.source_location.as_deref(), Some("L9"));
    assert_eq!(a1.source_file, None);
    assert!(model.scc.is_none());
}
