use seam_explorer::app::{Banner, BannerKind};
use seam_explorer::ingest::SeamCoreError;
use seam_explorer::load::{error_banner, read_and_ingest, GraphDirMemory, LoadError};

const TWO_DANGLING: &str = r#"{"nodes":[
  {"id":"a1","community":"A"},
  {"id":"b1","community":"B"}
],"links":[
  {"source":"a1","target":"b1","relation":"calls","confidence":"EXTRACTED"},
  {"source":"a1","target":"ghost1","relation":"calls","confidence":"EXTRACTED"},
  {"source":"ghost2","target":"b1","relation":"calls","confidence":"EXTRACTED"}
]}"#;

const ONE_DANGLING: &str = r#"{"nodes":[
  {"id":"a1","community":"A"},
  {"id":"b1","community":"B"}
],"links":[
  {"source":"a1","target":"b1","relation":"calls","confidence":"EXTRACTED"},
  {"source":"a1","target":"b1_ghost","relation":"calls","confidence":"EXTRACTED"}
]}"#;

const RANKED: &str = r#"{"nodes":[
  {"id":"a1","community":"A"},{"id":"a2","community":"A"},
  {"id":"b1","community":"B"},{"id":"c1","community":"C"}
],"links":[
  {"source":"a1","target":"c1","relation":"calls","confidence":"EXTRACTED"},
  {"source":"a1","target":"b1","relation":"calls","confidence":"EXTRACTED"},
  {"source":"a2","target":"b1","relation":"calls","confidence":"EXTRACTED"},
  {"source":"b1","target":"a2","relation":"method","confidence":"EXTRACTED"},
  {"source":"b1","target":"c1","relation":"calls","confidence":"EXTRACTED"},
  {"source":"c1","target":"b1","relation":"implements","confidence":"EXTRACTED"}
]}"#;

#[test]
fn read_and_ingest_returns_core_error_not_panic_on_bad_json() {
    let result = read_and_ingest("not json at all");
    assert!(matches!(result, Err(LoadError::Core(_))));
}

#[test]
fn smoke_malformed_json_is_error_not_panic() {
    let result = read_and_ingest("{ not json");
    match result {
        Err(LoadError::Core(_)) => {}
        Err(other) => panic!("expected LoadError::Core for malformed JSON, got {other:?}"),
        Ok(_) => panic!("expected LoadError::Core for malformed JSON, got a model"),
    }
}

#[test]
fn remembering_a_graph_path_exposes_its_directory() {
    let mut memory = GraphDirMemory::new();
    assert_eq!(memory.graph_dir(), None);
    memory.remember_graph_path("/some/repo/graphify-out/graph.json");
    assert_eq!(memory.graph_dir(), Some("/some/repo/graphify-out".to_string()));
}

#[test]
fn read_and_ingest_finalizes_and_ranks_most_crossings_first() {
    let outcome = read_and_ingest(RANKED).expect("fixture must ingest");
    assert!(outcome.model.scc.is_some());
    assert!(outcome.banner.is_none(), "no dropped links, no banner");
    let ranked: Vec<(String, String, usize)> = outcome
        .seams
        .iter()
        .map(|s| (s.a.clone(), s.b.clone(), s.crossings))
        .collect();
    assert_eq!(
        ranked,
        vec![
            ("A".to_string(), "B".to_string(), 3),
            ("B".to_string(), "C".to_string(), 2),
            ("A".to_string(), "C".to_string(), 1),
        ]
    );
}

#[test]
fn dropped_links_give_a_singular_or_plural_warning() {
    let one = read_and_ingest(ONE_DANGLING).expect("a dangling link is dropped, not fatal");
    match one.banner {
        Some(Banner { kind: BannerKind::Warning, ref heading, ref body }) => {
            assert_eq!(heading, "Some edges were dropped");
            assert!(body.starts_with("1 edge referenced"), "got: {body}");
            assert!(!body.contains("1 edges"));
            assert!(body.ends_with("seam counts below reflect only the valid edges."));
        }
        ref other => panic!("expected a warning banner, got {other:?}"),
    }
    assert_eq!(one.seams.len(), 1);

    let two = read_and_ingest(TWO_DANGLING).expect("dangling links are dropped, not fatal");
    match two.banner {
        Some(Banner { kind: BannerKind::Warning, ref body, .. }) => {
            assert!(body.starts_with("2 edges referenced"), "got: {body}");
        }
        ref other => panic!("expected a warning banner, got {other:?}"),
    }
}

#[test]
fn a_missing_array_is_a_core_error_naming_it() {
    match read_and_ingest(r#"{"links": []}"#) {
        Err(LoadError::Core(SeamCoreError::MissingArray(name))) => assert_eq!(name, "nodes"),
        Err(other) => panic!("expected MissingArray, got {other:?}"),
        Ok(_) => panic!("expected MissingArray, got a model"),
    }
}

#[test]
fn error_banner_wraps_the_error_message() {
    let missing = read_and_ingest(r#"{"nodes": []}"#).err().expect("missing links is fatal");
    let banner = error_banner(&missing);
    assert_eq!(banner.kind, BannerKind::Error);
    assert_eq!(banner.heading, "Couldn't load this file");
    assert_eq!(
        banner.body,
        "This doesn't look like a Graphify graph.json export — graph.json has no `links` array. Choose a different file and try again."
    );

    let io = error_banner(&LoadError::Io("permission denied".to_string()));
    assert_eq!(
        io.body,
        "This doesn't look like a Graphify graph.json export — failed to read file: permission denied. Choose a different file and try again."
    );
    assert_eq!(LoadError::Cancelled.message(), "no file selected");

    let parse = read_and_ingest("{ not json").err().expect("not JSON");
    assert!(parse.message().starts_with("invalid JSON: "));
}
