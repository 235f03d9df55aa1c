use seam_explorer::app::SeamExplorerApp;
use seam_explorer::ingest::from_json;
use seam_explorer::load::read_and_ingest;
use seam_explorer::model::Model;
use seam_explorer::panels::{
    find_seam_for_pair, node_label, visible_seams, seam_verdict, select_seam, verdict_title,
};
use seam_explorer::seams::Seam;
use seam_explorer::verdict::Verdict;

fn model_from(json: &str) -> Model {
    from_json(json).ok().expect("fixture must ingest cleanly").model
}

const SEAM_NAME_FIXTURE: &str = r#"{"nodes":[{"id":"a1","community":"Alpha"},{"id":"b1","community":"Beta"}],"links":[{"source":"a1","target":"b1","relation":"calls","confidence":"EXTRACTED"}]}"#;

const NODE_LABEL_FIXTURE: &str = r#"{"nodes":[{"id":"a1","label":"PaymentService","community":"Alpha"},{"id":"b1","label":"OrderService","community":"Beta"}],"links":[{"source":"a1","target":"b1","relation":"calls","confidence":"EXTRACTED"}]}"#;

const NAMED_SEAM_FIXTURE: &str = r#"{"nodes":[{"id":"a1","community":"0","community_name":"Commands"},{"id":"b1","community":"16","community_name":"Runtime"}],"links":[{"source":"a1","target":"b1","relation":"calls","confidence":"EXTRACTED"}]}"#;

const CYCLE_FIXTURE: &str = r#"{"nodes":[{"id":"a1","label":"Auth","community":"A"},{"id":"b1","community":"B"},{"id":"c1","community":"C"}],"links":[
  {"source":"a1","target":"b1","relation":"calls","confidence":"EXTRACTED"},
  {"source":"b1","target":"a1","relation":"calls","confidence":"EXTRACTED"},
  {"source":"b1","target":"c1","relation":"calls","confidence":"EXTRACTED"}]}"#;

fn seam(a: &str, b: &str) -> Seam {
    Seam {
        a: a.to_string(),
        b: b.to_string(),
        crossings: 1,
    }
}

#[test]
fn verdict_title_maps_exact_strings() {
    assert_eq!(verdict_title(&Verdict::Clean), "Clean seam");
    assert_eq!(verdict_title(&Verdict::Watch), "Watch — coupling");
    assert_eq!(verdict_title(&Verdict::Leaky), "Leaky seam");
}

#[test]
fn test_matches_seam_name_case_insensitive_substring() {
    let model = model_from(SEAM_NAME_FIXTURE);
    let s = seam("Alpha", "Beta");

    assert!(seam_explorer::panels::matches(&model, &s, "alpha"));
    assert!(seam_explorer::panels::matches(&model, &s, "BETA"));
    assert!(!seam_explorer::panels::matches(&model, &s, "gamma"));
}

#[test]
fn test_matches_node_label_case_insensitive_substring() {
    let model = model_from(NODE_LABEL_FIXTURE);
    let s = seam("Alpha", "Beta");

    assert!(seam_explorer::panels::matches(&model, &s, "payment"));
    assert!(seam_explorer::panels::matches(&model, &s, "ORDERSERVICE"));
    assert!(!seam_explorer::panels::matches(&model, &s, "inventory"));
}

#[test]
fn test_matches_empty_query_matches_everything() {
    let model = model_from(SEAM_NAME_FIXTURE);
    let s = seam("Alpha", "Beta");

    assert!(seam_explorer::panels::matches(&model, &s, ""));
}

#[test]
fn test_matches_no_hit_matches_nothing() {
    let model = model_from(SEAM_NAME_FIXTURE);
    let s = seam("Alpha", "Beta");

    assert!(!seam_explorer::panels::matches(&model, &s, "nonexistent_query_xyz"));
}

#[test]
fn matches_finds_a_community_by_its_name() {
    let model = model_from(NAMED_SEAM_FIXTURE);
    let s = seam("0", "16");

    assert!(seam_explorer::panels::matches(&model, &s, "commands"));
    assert!(seam_explorer::panels::matches(&model, &s, "RUNTIME"));
    assert!(!seam_explorer::panels::matches(&model, &s, "nonexistent"));
}

#[test]
fn matches_still_finds_a_community_by_its_raw_id() {
    let model = model_from(NAMED_SEAM_FIXTURE);
    let s = seam("0", "16");

    assert!(seam_explorer::panels::matches(&model, &s, "0"));
    assert!(seam_explorer::panels::matches(&model, &s, "16"));
}

#[test]
fn matches_still_finds_a_node_by_its_label() {
    let model = model_from(NODE_LABEL_FIXTURE);
    let s = seam("Alpha", "Beta");

    assert!(seam_explorer::panels::matches(&model, &s, "payment"));
    assert!(seam_explorer::panels::matches(&model, &s, "ORDERSERVICE"));
    assert!(!seam_explorer::panels::matches(&model, &s, "inventory"));
}

#[test]
fn matches_ignores_labels_outside_the_pair() {
    let model = model_from(CYCLE_FIXTURE);
    assert!(seam_explorer::panels::matches(&model, &seam("A", "B"), "auth"));
    assert!(!seam_explorer::panels::matches(&model, &seam("B", "C"), "auth"));
}

#[test]
fn find_seam_for_pair_accepts_either_order_and_takes_the_first() {
    let seams = vec![
        Seam { a: "A".to_string(), b: "B".to_string(), crossings: 3 },
        Seam { a: "C".to_string(), b: "B".to_string(), crossings: 2 },
    ];
    let ab = "A".to_string();
    let bb = "B".to_string();
    let cb = "C".to_string();
    assert_eq!(find_seam_for_pair(&seams, &bb, &ab), Some(seams[0].clone()));
    assert_eq!(find_seam_for_pair(&seams, &bb, &cb), Some(seams[1].clone()));
    assert_eq!(find_seam_for_pair(&seams, &ab, &cb), None);
}

#[test]
fn select_seam_focuses_it_and_opens_its_detail() {
    let outcome = read_and_ingest(CYCLE_FIXTURE).ok().expect("fixture must load");
    let mut app = SeamExplorerApp::default();
    app.apply_load_outcome(outcome);
    app.trace_mode = true;
    let s = seam("A", "B");
    select_seam(&mut app, &s);
    let focus = app.focus.clone().expect("focused");
    assert_eq!((focus.a.as_str(), focus.b.as_str()), ("A", "B"));
    let detail = app.detail.clone().expect("detail open");
    assert_eq!(detail.verdict, Verdict::Leaky);
    assert_eq!((detail.a_to_b, detail.b_to_a), (1, 1));
    assert!(app.trace.is_none());
    assert!(app.trace_mode, "selecting a seam leaves trace mode alone");
    assert_eq!(seam_verdict(app.model.as_ref().unwrap(), &seam("B", "C")), Verdict::Clean);
}

#[test]
fn select_seam_without_a_model_changes_nothing() {
    let mut app = SeamExplorerApp::default();
    select_seam(&mut app, &seam("A", "B"));
    assert!(app.focus.is_none());
    assert!(app.detail.is_none());
}

#[test]
fn seam_verdict_is_clean_before_the_component_index_exists() {
    let model = model_from(CYCLE_FIXTURE);
    assert_eq!(seam_verdict(&model, &seam("A", "B")), Verdict::Clean);
}

#[test]
fn node_label_falls_back_to_the_id() {
    let outcome = read_and_ingest(CYCLE_FIXTURE).ok().expect("fixture must load");
    let mut app = SeamExplorerApp::default();
    assert_eq!(node_label(&app, "a1"), "a1");
    app.apply_load_outcome(outcome);
    assert_eq!(node_label(&app, "a1"), "Auth");
    assert_eq!(node_label(&app, "b1"), "b1");
    assert_eq!(node_label(&app, "zz"), "zz");
}

#[test]
fn visible_seams_keeps_the_matching_rows_in_order() {
    let model = model_from(CYCLE_FIXTURE);
    let seams = vec![seam("A", "B"), seam("B", "C"), seam("C", "A")];
    assert_eq!(visible_seams(&model, &seams, ""), vec![0, 1, 2]);
    assert_eq!(visible_seams(&model, &seams, "c"), vec![1, 2]);
    assert_eq!(visible_seams(&model, &seams, "AUTH"), vec![0, 2]);
    assert_eq!(visible_seams(&model, &seams, "zzz"), Vec::<usize>::new());
}

#[test]
fn ascii_search_ignores_case_and_keeps_every_part_of_a_matching_query() {
    let model = model_from(NODE_LABEL_FIXTURE);
    let s = seam("Alpha", "Beta");
    for q in ["PaymentService", "paymentservice", "PAYMENTSERVICE", "alpha", "ALPHA"] {
        assert!(seam_explorer::panels::matches(&model, &s, q), "{q}");
        for i in 0..=q.len() {
            for j in i..=q.len() {
                assert!(seam_explorer::panels::matches(&model, &s, &q[i..j]), "{}", &q[i..j]);
            }
        }
    }
    assert!(!seam_explorer::panels::matches(&model, &s, "INVENTORY"));
}
