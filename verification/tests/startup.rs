use seam_explorer::app::{BannerKind, SeamExplorerApp};
use seam_explorer::startup::{graph_path_from_args, preload_graph};

#[test]
fn no_cli_arg_yields_no_graph_path() {
    let args = vec!["seam-explorer-egui".to_string()];
    assert_eq!(graph_path_from_args(args), None);
}

#[test]
fn first_cli_arg_is_the_graph_path() {
    let args = vec![
        "seam-explorer-egui".to_string(),
        "sample/graph-demo.json".to_string(),
    ];
    assert_eq!(graph_path_from_args(args), Some("sample/graph-demo.json".to_string()));
}

#[test]
fn extra_cli_args_are_ignored() {
    let args = vec![
        "seam-explorer-egui".to_string(),
        "first.json".to_string(),
        "second.json".to_string(),
        "third.json".to_string(),
    ];
    assert_eq!(graph_path_from_args(args), Some("first.json".to_string()));
}

#[test]
fn empty_cli_arg_yields_no_graph_path() {
    let args = vec!["seam-explorer-egui".to_string(), "".to_string()];
    assert_eq!(graph_path_from_args(args), None);
}

#[test]
fn the_first_non_empty_argument_wins() {
    let args = vec!["prog".to_string(), "".to_string(), "later.json".to_string()];
    assert_eq!(graph_path_from_args(args), Some("later.json".to_string()));
    assert_eq!(graph_path_from_args(vec![]), None);
}

#[test]
fn preload_graph_on_a_missing_file_sets_an_error_banner() {
    let mut app = SeamExplorerApp::default();
    preload_graph(&mut app, Err("No such file or directory (os error 2)".to_string()));

    assert!(app.model.is_none(), "a missing file must not populate a model");
    match &app.banner {
        Some(b) if b.kind == BannerKind::Error => {
            assert!(b.body.contains("failed to read file: No such file or directory"));
        }
        other => panic!("expected Some(Banner {{ kind: Error, .. }}) for a missing file, got {other:?}"),
    }
}

#[test]
fn preload_graph_loads_a_graph_and_keeps_the_onboarding_flag() {
    let mut app = SeamExplorerApp::default();
    app.has_seen_trace_onboarding = true;
    let json = r#"{"nodes":[{"id":"a1","community":"A"},{"id":"b1","community":"B"}],"links":[{"source":"a1","target":"b1","relation":"calls","confidence":"EXTRACTED"}]}"#;
    preload_graph(&mut app, Ok(json.to_string()));
    assert!(app.model.is_some());
    assert_eq!(app.seams.len(), 1);
    assert!(app.banner.is_none());
    assert!(app.has_seen_trace_onboarding, "preload must not clobber the onboarding flag");
}

#[test]
fn preload_graph_on_malformed_text_sets_an_error_banner_and_keeps_the_old_model() {
    let mut app = SeamExplorerApp::default();
    let json = r#"{"nodes":[{"id":"a1","community":"A"}],"links":[]}"#;
    preload_graph(&mut app, Ok(json.to_string()));
    assert!(app.model.is_some());
    preload_graph(&mut app, Ok("[1, 2".to_string()));
    assert!(app.model.is_some(), "a failed load leaves the loaded graph in place");
    match &app.banner {
        Some(b) => assert_eq!(b.kind, BannerKind::Error),
        None => panic!("expected an error banner"),
    }
}

#[test]
fn preload_graph_surfaces_a_dropped_link_warning() {
    let mut app = SeamExplorerApp::default();
    let json = r#"{"nodes":[{"id":"a1","community":"A"}],"links":[{"source":"a1","target":"gone","relation":"calls","confidence":"EXTRACTED"},{"source":"gone","target":"a1","relation":"calls","confidence":"EXTRACTED"}]}"#;
    preload_graph(&mut app, Ok(json.to_string()));
    assert!(app.model.is_some(), "a graph with dangling edges must still load");
    match &app.banner {
        Some(b) if b.kind == BannerKind::Warning => assert!(b.body.starts_with("2 edges referenced")),
        other => panic!("expected a warning banner, got {other:?}"),
    }
}
