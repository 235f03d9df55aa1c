use seam_explorer::commands::trace_path;
use seam_explorer::error::CommandError;
use seam_explorer::ingest::{from_json, SeamCoreError};

#[test]
fn the_trace_command_needs_a_loaded_graph() {
    match trace_path(None, "a1", "b1") {
        Err(CommandError::NoGraphLoaded) => {}
        other => panic!("expected NoGraphLoaded, got {other:?}"),
    }
    let json = r#"{"nodes":[{"id":"a1","community":"A"},{"id":"b1","community":"B"}],"links":[{"source":"a1","target":"b1","relation":"calls","confidence":"EXTRACTED"}]}"#;
    let model = from_json(json).ok().expect("fixture").model;
    let path = trace_path(Some(&model), "a1", "b1").ok().expect("a graph is loaded").expect("a path");
    assert_eq!(path.hops, vec!["a1".to_string(), "b1".to_string()]);
    assert!(trace_path(Some(&model), "b1", "a1").ok().expect("a graph is loaded").is_none());
}

#[test]
fn command_error_messages() {
    assert_eq!(CommandError::Cancelled.message(), "no file selected");
    assert_eq!(CommandError::NoGraphLoaded.message(), "no graph loaded yet");
    assert_eq!(CommandError::Io("disk on fire".to_string()).message(), "failed to read file: disk on fire");
    assert_eq!(
        CommandError::Core(SeamCoreError::MissingArray("links".to_string())).message(),
        "graph.json has no `links` array"
    );
    assert_eq!(CommandError::Internal("state lock poisoned".to_string()).message(), "internal error: state lock poisoned");
}
