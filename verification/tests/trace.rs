use seam_explorer::app::SeamExplorerApp;
use seam_explorer::context_menu::{plan_open, plan_open_with};
use seam_explorer::settings::Settings;
use seam_explorer::keyboard::apply_trace_toggle;
use seam_explorer::load::read_and_ingest;
use seam_explorer::trace::{dismiss_on_first_trace, run, update_gesture, GestureInput, TraceGesture};

fn cursor(x: f32, y: f32) -> egui::Pos2 {
    egui::pos2(x, y)
}

#[test]
fn test_trace_state_machine() {
    let mut state: TraceGesture<egui::Pos2> = TraceGesture::Idle;
    state = update_gesture(
        state,
        GestureInput::DragStart {
            node: "a".to_string(),
            cursor: cursor(1.0, 1.0),
        },
        true,
    );
    assert!(matches!(&state, TraceGesture::Dragging { from, .. } if from == "a"));

    state = update_gesture(
        state,
        GestureInput::DragStop {
            node: Some("b".to_string()),
        },
        true,
    );
    assert_eq!(
        state,
        TraceGesture::Completed {
            from: "a".to_string(),
            to: "b".to_string(),
        }
    );

    let mut state2: TraceGesture<egui::Pos2> = TraceGesture::Idle;
    state2 = update_gesture(
        state2,
        GestureInput::DragStart {
            node: "a".to_string(),
            cursor: cursor(1.0, 1.0),
        },
        true,
    );
    state2 = update_gesture(state2, GestureInput::DragStop { node: None }, true);
    assert_eq!(state2, TraceGesture::Idle);
}

#[test]
fn test_trace_mode_off_does_not_trace() {
    let mut state: TraceGesture<egui::Pos2> = TraceGesture::Idle;
    state = update_gesture(
        state,
        GestureInput::DragStart {
            node: "a".to_string(),
            cursor: cursor(1.0, 1.0),
        },
        false,
    );
    assert_eq!(state, TraceGesture::Idle);

    state = update_gesture(
        state,
        GestureInput::DragStop {
            node: Some("b".to_string()),
        },
        false,
    );
    assert_eq!(state, TraceGesture::Idle);
}

#[test]
fn test_drag_to_self_is_ignored() {
    let mut state: TraceGesture<egui::Pos2> = TraceGesture::Idle;
    state = update_gesture(
        state,
        GestureInput::DragStart {
            node: "a".to_string(),
            cursor: cursor(1.0, 1.0),
        },
        true,
    );
    state = update_gesture(
        state,
        GestureInput::DragStop {
            node: Some("a".to_string()),
        },
        true,
    );
    assert_eq!(state, TraceGesture::Idle);
}

#[test]
fn test_trace_mode_persists_after_completion() {
    let mut state: TraceGesture<egui::Pos2> = TraceGesture::Idle;
    state = update_gesture(
        state,
        GestureInput::DragStart {
            node: "a".to_string(),
            cursor: cursor(0.0, 0.0),
        },
        true,
    );
    state = update_gesture(
        state,
        GestureInput::DragStop {
            node: Some("b".to_string()),
        },
        true,
    );
    assert_eq!(
        state,
        TraceGesture::Completed {
            from: "a".to_string(),
            to: "b".to_string(),
        }
    );

    state = update_gesture(
        state,
        GestureInput::DragStart {
            node: "c".to_string(),
            cursor: cursor(2.0, 2.0),
        },
        true,
    );
    assert_eq!(
        state,
        TraceGesture::Dragging {
            from: "c".to_string(),
            cursor: cursor(2.0, 2.0),
        }
    );
}

#[test]
fn a_move_follows_the_pointer_and_stray_inputs_do_nothing() {
    let dragging = TraceGesture::Dragging { from: "a".to_string(), cursor: cursor(0.0, 0.0) };
    let moved = update_gesture(dragging, GestureInput::DragMove { cursor: cursor(5.0, 6.0) }, true);
    assert_eq!(moved, TraceGesture::Dragging { from: "a".to_string(), cursor: cursor(5.0, 6.0) });
    let idle: TraceGesture<egui::Pos2> = TraceGesture::Idle;
    assert_eq!(update_gesture(idle, GestureInput::DragMove { cursor: cursor(1.0, 1.0) }, true), TraceGesture::Idle);
    let done: TraceGesture<egui::Pos2> = TraceGesture::Completed { from: "a".to_string(), to: "b".to_string() };
    assert_eq!(
        update_gesture(done.clone(), GestureInput::DragStop { node: Some("c".to_string()) }, true),
        done
    );
}

#[test]
fn onboarding_dismissed_by_first_successful_trace() {
    let mut app = SeamExplorerApp::default();
    assert!(!app.has_seen_trace_onboarding);

    assert!(dismiss_on_first_trace(&mut app), "first successful trace must actually write the flag");
    assert!(app.has_seen_trace_onboarding);

    assert!(
        !dismiss_on_first_trace(&mut app),
        "a second trace after dismissal must be a no-op, not a re-write"
    );
    assert!(app.has_seen_trace_onboarding);
}

#[test]
fn toggling_trace_mode_twice_restores_it() {
    assert!(apply_trace_toggle(false));
    assert!(!apply_trace_toggle(true));
    assert!(!apply_trace_toggle(apply_trace_toggle(false)));
}

#[test]
fn run_traces_a_directed_path_and_keeps_its_ends() {
    let json = r#"{"nodes":[{"id":"a1","community":"A"},{"id":"a2","community":"A"},{"id":"b1","community":"B"},{"id":"c1","community":"C"}],"links":[
      {"source":"a2","target":"b1","relation":"calls","confidence":"EXTRACTED"},
      {"source":"b1","target":"c1","relation":"calls","confidence":"EXTRACTED"},
      {"source":"a2","target":"a1","relation":"calls","confidence":"EXTRACTED"},
      {"source":"a1","target":"c1","relation":"references","confidence":"EXTRACTED"}]}"#;
    let model = read_and_ingest(json).ok().expect("fixture must load").model;
    let result = run(&model, "a2", "c1");
    assert_eq!((result.from.as_str(), result.to.as_str()), ("a2", "c1"));
    let path = result.path.expect("a2 reaches c1");
    assert_eq!(path.hops.len(), 3, "a shortest path has two hops");
    assert_eq!(path.hops[0], "a2");
    assert_eq!(path.hops[2], "c1");

    let back = run(&model, "c1", "a1");
    assert!(back.path.is_none(), "no directed path from c1 back to a1");
    assert!(run(&model, "missing", "c1").path.is_none());

    let itself = run(&model, "b1", "b1").path.expect("a node reaches itself");
    assert_eq!(itself.hops, vec!["b1".to_string()]);
    assert!(itself.seams_crossed.is_empty());
}

#[test]
fn finishing_a_completed_gesture_runs_the_trace_once() {
    let json = r#"{"nodes":[{"id":"a1","community":"A"},{"id":"b1","community":"B"}],"links":[{"source":"a1","target":"b1","relation":"calls","confidence":"EXTRACTED"}]}"#;
    let mut app = SeamExplorerApp::default();
    app.apply_load_outcome(read_and_ingest(json).ok().expect("fixture must load"));

    let dragging: TraceGesture<egui::Pos2> = TraceGesture::Dragging { from: "a1".to_string(), cursor: cursor(0.0, 0.0) };
    let kept = seam_explorer::trace::finish_gesture(&mut app, dragging.clone());
    assert_eq!(kept, dragging);
    assert!(app.trace.is_none());

    let back: TraceGesture<egui::Pos2> = TraceGesture::Completed { from: "b1".to_string(), to: "a1".to_string() };
    assert_eq!(seam_explorer::trace::finish_gesture(&mut app, back), TraceGesture::Idle);
    let t = app.trace.clone().expect("a trace is shown");
    assert!(t.path.is_none(), "no path from b1 back to a1");
    assert!(!app.has_seen_trace_onboarding, "a failed trace leaves the hint up");

    let seam = app.seams[0].clone();
    seam_explorer::panels::select_seam(&mut app, &seam);
    assert!(app.focus.is_some() && app.detail.is_some());
    let forth: TraceGesture<egui::Pos2> = TraceGesture::Completed { from: "a1".to_string(), to: "b1".to_string() };
    assert_eq!(seam_explorer::trace::finish_gesture(&mut app, forth), TraceGesture::Idle);
    let t = app.trace.clone().expect("a trace is shown");
    let path = t.path.expect("a1 reaches b1");
    assert_eq!(path.seams_crossed, vec![("A".to_string(), "B".to_string())]);
    assert!(app.has_seen_trace_onboarding, "a found path dismisses the hint");
    assert!(app.focus.is_none(), "a completed trace clears the focused seam");
    assert!(app.detail.is_none(), "and its detail");
}

#[test]
fn finishing_a_gesture_without_a_graph_only_resets_it() {
    let mut app = SeamExplorerApp::default();
    let done: TraceGesture<egui::Pos2> = TraceGesture::Completed { from: "a".to_string(), to: "b".to_string() };
    assert_eq!(seam_explorer::trace::finish_gesture(&mut app, done), TraceGesture::Idle);
    assert!(app.trace.is_none());
}

#[test]
fn reset_view_clears_the_search_and_the_trace_only() {
    let json = r#"{"nodes":[{"id":"a1","community":"A"},{"id":"b1","community":"B"}],"links":[{"source":"a1","target":"b1","relation":"calls","confidence":"EXTRACTED"}]}"#;
    let mut app = SeamExplorerApp::default();
    app.apply_load_outcome(read_and_ingest(json).ok().expect("fixture must load"));
    app.trace_mode = true;
    app.search_query = "alpha".to_string();
    app.trace = Some(run(app.model.as_ref().unwrap(), "a1", "b1"));
    app.reset_view();
    assert_eq!(app.search_query, "");
    assert!(app.trace.is_none());
    assert!(app.trace_mode, "trace mode stays as it was");
    assert!(app.model.is_some());
    assert_eq!(app.seams.len(), 1);
}

#[test]
fn plan_open_on_disk_matches_the_injected_plan() {
    let settings = Settings { open_file_command: "code".to_string(), append_line_number: true };
    let disk = |p: &str| std::path::Path::new(p).exists();
    for (src, line, dir) in [
        (None, Some(3), Some("/")),
        (Some("no/such/seam_explorer_file.rs"), Some(3), Some("/no/such/dir")),
        (Some("no/such/seam_explorer_file.rs"), None, None),
    ] {
        assert_eq!(plan_open(src, line, dir, &settings), plan_open_with(src, line, dir, &settings, &disk));
        assert_eq!(
            plan_open(src, line, dir, &settings),
            plan_open_with(src, line, dir, &settings, &seam_explorer::context_menu::exists_on_disk)
        );
    }
}
