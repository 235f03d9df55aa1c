use seam_explorer::app::{FocusState, SeamExplorerApp};
use seam_explorer::call_path::TracePath;
use seam_explorer::graph_view::{
    build_payloads, crossing_label, is_bridge, node_side, NodeSide, hiding_active, node_visible, truncate_label, LABEL_MAX_CHARS,
};
use seam_explorer::ingest::from_json;
use seam_explorer::model::CommunityId;
use seam_explorer::trace::TraceResult;
use seam_explorer::verdict::{SeamDetail, Verdict};

const THREE_COMMUNITIES: &str = r#"{"nodes":[
  {"id":"a1","label":"Alpha One","community":"A"},
  {"id":"c1","label":"Gamma","community":"C"},
  {"id":"b1","label":"Beta","community":"B"},
  {"id":"a2","community":"A"}
],"links":[
  {"source":"a1","target":"b1","relation":"calls","confidence":"EXTRACTED"},
  {"source":"b1","target":"c1","relation":"calls","confidence":"EXTRACTED"},
  {"source":"a2","target":"a1","relation":"imports_from","confidence":"EXTRACTED"},
  {"source":"c1","target":"a2","relation":"references","confidence":"EXTRACTED"}
]}"#;

fn focus_state() -> FocusState {
    FocusState {
        a: "A".to_string(),
        b: "B".to_string(),
    }
}

#[test]
fn node_visible_keeps_both_focused_sides() {
    let a: CommunityId = "A".to_string();
    let b: CommunityId = "B".to_string();
    let c: CommunityId = "C".to_string();
    let focus = FocusState {
        a: a.clone(),
        b: b.clone(),
    };

    assert!(node_visible(&a, Some(&focus)));
    assert!(node_visible(&b, Some(&focus)));
    assert!(!node_visible(&c, Some(&focus)));
}

#[test]
fn node_visible_keeps_everything_when_nothing_is_focused() {
    let a: CommunityId = "A".to_string();
    let b: CommunityId = "B".to_string();
    let c: CommunityId = "C".to_string();

    assert!(node_visible(&a, None));
    assert!(node_visible(&b, None));
    assert!(node_visible(&c, None));
}

#[test]
fn hiding_is_inactive_without_a_focus() {
    let app = SeamExplorerApp::default();
    assert!(!hiding_active(&app));
}

#[test]
fn hiding_is_active_with_a_focus_alone() {
    let app = SeamExplorerApp {
        focus: Some(focus_state()),
        ..Default::default()
    };
    assert!(hiding_active(&app));
}

#[test]
fn hiding_is_suspended_while_trace_mode_is_on() {
    let app = SeamExplorerApp {
        focus: Some(focus_state()),
        trace_mode: true,
        ..Default::default()
    };
    assert!(!hiding_active(&app));
}

#[test]
fn hiding_is_suspended_while_a_trace_result_is_present() {
    let app = SeamExplorerApp {
        focus: Some(focus_state()),
        trace: Some(TraceResult {
            from: "a1".to_string(),
            to: "c1".to_string(),
            path: Some(TracePath {
                hops: vec!["a1".to_string(), "b1".to_string(), "c1".to_string()],
                seams_crossed: vec![],
            }),
        }),
        ..Default::default()
    };
    assert!(!hiding_active(&app));
}

#[test]
fn test_truncate_label() {
    assert_eq!(truncate_label("short", 24), "short");

    let long = "a_very_long_component_name_that_exceeds_the_limit";
    let truncated = truncate_label(long, 24);
    assert!(truncated.chars().count() <= 24);
    assert!(truncated.ends_with('\u{2026}'));
}

#[test]
fn truncate_label_keeps_the_first_characters_and_counts_characters_not_bytes() {
    assert_eq!(truncate_label("abcdef", 4), "abc\u{2026}");
    assert_eq!(truncate_label("abcd", 4), "abcd");
    assert_eq!(truncate_label("ééééé", 3), "éé\u{2026}");
    assert_eq!(truncate_label("abc", 0), "\u{2026}");
    assert_eq!(truncate_label("", 0), "");
    assert_eq!(LABEL_MAX_CHARS, 24);
}

#[test]
fn unfocused_payloads_cover_every_node_and_edge() {
    let model = from_json(THREE_COMMUNITIES).expect("fixture must ingest").model;
    let (nodes, edges) = build_payloads(&model, None);
    let ids: Vec<&str> = nodes.iter().map(|n| n.id.as_str()).collect();
    assert_eq!(ids, vec!["a1", "c1", "b1", "a2"]);
    assert_eq!(nodes[0].label, "Alpha One");
    assert_eq!(nodes[3].label, "a2", "a missing label defaults to the id");
    assert_eq!(edges.len(), 4);
    assert_eq!((edges[0].0, edges[0].1), (0, 2));
    assert_eq!(edges[0].2.source_community, "A");
    assert_eq!(edges[0].2.target_community, "B");
}

#[test]
fn focused_payloads_keep_only_the_pair_and_renumber_edge_ends() {
    let model = from_json(THREE_COMMUNITIES).expect("fixture must ingest").model;
    let focus = focus_state();
    let (nodes, edges) = build_payloads(&model, Some(&focus));
    let ids: Vec<&str> = nodes.iter().map(|n| n.id.as_str()).collect();
    assert_eq!(ids, vec!["a1", "b1", "a2"]);
    let ends: Vec<(usize, usize)> = edges.iter().map(|e| (e.0, e.1)).collect();
    assert_eq!(ends, vec![(0, 1), (2, 0)], "edges touching C are dropped");
    for (_, _, e) in &edges {
        assert!(e.source_community == "A" || e.source_community == "B");
        assert!(e.target_community == "A" || e.target_community == "B");
    }
}

#[test]
fn focus_styling_sides_bridges_and_crossing_labels() {
    let focus = focus_state();
    let a = "A".to_string();
    let b = "B".to_string();
    let c = "C".to_string();
    assert_eq!(node_side(&a, Some(&focus)), NodeSide::SideA);
    assert_eq!(node_side(&b, Some(&focus)), NodeSide::SideB);
    assert_eq!(node_side(&c, Some(&focus)), NodeSide::Dimmed);
    assert_eq!(node_side(&a, None), NodeSide::Dimmed);

    let detail = SeamDetail {
        a: a.clone(),
        b: b.clone(),
        verdict: Verdict::Watch,
        a_to_b: 12,
        b_to_a: 3,
        bridges_a: vec!["a1".to_string()],
        bridges_b: vec!["b1".to_string(), "b2".to_string()],
        reasons: vec![],
    };
    assert!(is_bridge(&"a1".to_string(), Some(&detail)));
    assert!(is_bridge(&"b2".to_string(), Some(&detail)));
    assert!(!is_bridge(&"c1".to_string(), Some(&detail)));
    assert!(!is_bridge(&"a1".to_string(), None));

    assert_eq!(crossing_label(&a, &b, Some(&focus), Some(&detail)), "12");
    assert_eq!(crossing_label(&b, &a, Some(&focus), Some(&detail)), "3");
    assert_eq!(crossing_label(&a, &a, Some(&focus), Some(&detail)), "");
    assert_eq!(crossing_label(&a, &b, None, Some(&detail)), "");
    assert_eq!(crossing_label(&a, &b, Some(&focus), None), "");
}
