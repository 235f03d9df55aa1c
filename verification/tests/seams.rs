use seam_explorer::call_path::trace_path;
use seam_explorer::ingest::from_json;
use seam_explorer::seams::detect;
use seam_explorer::verdict::{has_cross_cycle, seam_detail, verdict, Verdict};

const FIXTURE: &str = r#"{"nodes":[
  {"id":"a1","community":"A"},{"id":"a2","community":"A"},
  {"id":"b1","community":"B"},{"id":"c1","community":"C"}
],"links":[
  {"source":"a2","target":"b1","relation":"calls","confidence":"EXTRACTED"},
  {"source":"b1","target":"c1","relation":"calls","confidence":"EXTRACTED"},
  {"source":"a1","target":"b1","relation":"references","confidence":"EXTRACTED"},
  {"source":"b1","target":"a1","relation":"method","confidence":"EXTRACTED"},
  {"source":"a1","target":"a2","relation":"calls","confidence":"EXTRACTED"},
  {"source":"c1","target":"a2","relation":"calls","confidence":"INFERRED"}
]}"#;

#[test]
fn detect_groups_crossings_by_pair_and_ranks_them() {
    let model = from_json(FIXTURE).ok().expect("fixture").model;
    let seams = detect(&model);
    let got: Vec<(&str, &str, usize)> = seams.iter().map(|s| (s.a.as_str(), s.b.as_str(), s.crossings)).collect();
    assert_eq!(got, vec![("A", "B", 3), ("B", "C", 1)]);
    let total: usize = seams.iter().map(|s| s.crossings).sum();
    assert_eq!(total, 4, "crossings add up to the edges between different communities");
}

#[test]
fn seam_detail_reports_a_cycle_as_leaky_either_way_round() {
    let mut model = from_json(FIXTURE).ok().expect("fixture").model;
    model.finalize_scc();
    let scc = model.scc.as_ref().expect("finalized");
    let a = "A".to_string();
    let b = "B".to_string();
    let c = "C".to_string();
    let ab = seam_detail(&model, scc, &a, &b);
    assert_eq!(ab.verdict, Verdict::Leaky);
    assert_eq!((ab.a_to_b, ab.b_to_a), (2, 1));
    assert_eq!(ab.bridges_a, vec!["a2".to_string(), "a1".to_string()]);
    assert_eq!(ab.bridges_b, vec!["b1".to_string()]);
    assert_eq!(ab.reasons.len(), 2);
    assert!(ab.reasons[0].starts_with("A call cycle crosses the seam"));
    assert_eq!(ab.reasons[1], "Interface is moderate \u{2014} 3 bridge nodes across the seam.");

    let ba = seam_detail(&model, scc, &b, &a);
    assert_eq!(ba.verdict, ab.verdict);
    assert_eq!((ba.a_to_b, ba.b_to_a), (ab.b_to_a, ab.a_to_b));
    assert_eq!(ba.bridges_a, ab.bridges_b);
    assert_eq!(ba.bridges_b, ab.bridges_a);
    assert_eq!(ba.reasons, ab.reasons);

    let bc = seam_detail(&model, scc, &b, &c);
    assert_eq!(bc.verdict, Verdict::Clean);
    assert_eq!(bc.reasons[1], "Narrow interface: only 2 bridge nodes touch the boundary.");
    assert!(has_cross_cycle(scc, &model, &a, &b));
    assert!(has_cross_cycle(scc, &model, &b, &a));
    assert!(!has_cross_cycle(scc, &model, &b, &c));
}

#[test]
fn verdict_table() {
    assert_eq!(verdict(false, false), Verdict::Clean);
    assert_eq!(verdict(true, false), Verdict::Watch);
    assert_eq!(verdict(true, true), Verdict::Leaky);
    assert_eq!(verdict(false, true), Verdict::Leaky);
}

#[test]
fn trace_path_lists_the_seams_crossed_in_order() {
    let model = from_json(FIXTURE).ok().expect("fixture").model;
    let path = trace_path(&model, "a2", "c1").expect("a2 reaches c1");
    assert_eq!(path.hops, vec!["a2".to_string(), "b1".to_string(), "c1".to_string()]);
    assert_eq!(
        path.seams_crossed,
        vec![("A".to_string(), "B".to_string()), ("B".to_string(), "C".to_string())]
    );
    assert_eq!(trace_path(&model, "c1", "a1"), None, "the INFERRED link is not followed");
    assert_eq!(trace_path(&model, "does-not-exist", "c1"), None);
}
