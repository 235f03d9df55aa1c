use seam_explorer::context_menu::{build_command, plan_open, plan_open_with, source_line, MenuAction};
use seam_explorer::settings::Settings;

fn settings_with(command: &str, append_line_number: bool) -> Settings {
    Settings {
        open_file_command: command.to_string(),
        append_line_number,
    }
}

#[test]
fn plan_open_disables_when_the_node_has_no_source_file() {
    let configured = settings_with("code -g", false);
    assert_eq!(
        plan_open_with(None, None, None, &configured, &|_: &str| true),
        MenuAction::DisabledNoSource,
        "a node with no source file must be disabled even when a command IS configured"
    );

    let unconfigured = settings_with("", false);
    assert_eq!(
        plan_open_with(None, None, None, &unconfigured, &|_: &str| true),
        MenuAction::DisabledNoSource,
        "no source AND no command must report DisabledNoSource"
    );
}

#[test]
fn plan_open_disables_when_no_command_is_configured() {
    for blank in ["", "   "] {
        let settings = settings_with(blank, false);
        assert_eq!(
            plan_open_with(Some("src/thing.rs"), None, None, &settings, &|_: &str| true),
            MenuAction::DisabledNoCommand,
            "a blank command template {blank:?} must disable with DisabledNoCommand"
        );
    }
}

#[test]
fn plan_open_builds_the_argv_with_the_resolved_path_last() {
    let graph_dir = "/r/graphify-out";
    let root_match = "/r/src/thing.rs";
    let exists = |p: &str| p == root_match;
    let settings = settings_with("code -g", false);

    let action = plan_open_with(Some("src/thing.rs"), None, Some(graph_dir), &settings, &exists);
    assert_eq!(
        action,
        MenuAction::Spawn(vec![
            "code".to_string(),
            "-g".to_string(),
            "/r/src/thing.rs".to_string(),
        ]),
        "the argv must be the split template plus the RESOLVED path as the final element"
    );
}

#[test]
fn plan_open_appends_the_line_only_when_the_checkbox_is_on_and_a_line_is_known() {
    let never_exists = |_: &str| false;
    let cases: [(bool, Option<u32>, &str); 4] = [
        (false, None, "a.rs"),
        (false, Some(42), "a.rs"),
        (true, None, "a.rs"),
        (true, Some(42), "a.rs:42"),
    ];
    for (append_line_number, line, expected_last) in cases {
        let settings = settings_with("code", append_line_number);
        let action = plan_open_with(Some("a.rs"), line, None, &settings, &never_exists);
        let MenuAction::Spawn(argv) = action else {
            panic!("append_line_number={append_line_number}, line={line:?}: expected Spawn, got {action:?}");
        };
        assert_eq!(
            argv.last().map(String::as_str),
            Some(expected_last),
            "append_line_number={append_line_number}, line={line:?}, got argv={argv:?}"
        );
    }
}

#[test]
fn plan_open_falls_back_to_the_raw_relative_path_when_nothing_resolves() {
    let never_exists = |_: &str| false;
    let settings = settings_with("code", false);
    let action = plan_open_with(
        Some("src/thing.rs"),
        None,
        Some("/r/graphify-out"),
        &settings,
        &never_exists,
    );
    assert_eq!(
        action,
        MenuAction::Spawn(vec!["code".to_string(), "src/thing.rs".to_string()]),
        "when nothing on disk matches, the raw relative path must pass through unchanged"
    );
}

#[test]
fn plan_open_tries_the_graph_directory_after_the_repository_root() {
    let exists = |p: &str| p == "/r/graphify-out/notes.md";
    let settings = settings_with("open", false);
    let action = plan_open_with(Some("notes.md"), None, Some("/r/graphify-out"), &settings, &exists);
    assert_eq!(
        action,
        MenuAction::Spawn(vec!["open".to_string(), "/r/graphify-out/notes.md".to_string()])
    );
}

#[test]
fn plan_open_prefers_the_repository_root_when_both_candidates_exist() {
    let exists = |_: &str| true;
    let settings = settings_with("open", false);
    let action = plan_open_with(Some("a.rs"), None, Some("/r/graphify-out"), &settings, &exists);
    assert_eq!(action, MenuAction::Spawn(vec!["open".to_string(), "/r/a.rs".to_string()]));
}

#[test]
fn plan_open_on_the_real_disk_keeps_a_missing_relative_path() {
    let settings = settings_with("code -g", true);
    let action = plan_open(
        Some("no/such/dir/seam_explorer_missing.rs"),
        Some(7),
        Some("/no/such/graph/dir"),
        &settings,
    );
    assert_eq!(
        action,
        MenuAction::Spawn(vec![
            "code".to_string(),
            "-g".to_string(),
            "no/such/dir/seam_explorer_missing.rs:7".to_string(),
        ])
    );
    assert_eq!(plan_open(None, None, None, &settings), MenuAction::DisabledNoSource);
}

#[test]
fn build_command_splits_on_any_whitespace_run() {
    assert_eq!(
        build_command("  subl\t -n  --wait ", "x.rs", Some(3), true),
        Some(vec![
            "subl".to_string(),
            "-n".to_string(),
            "--wait".to_string(),
            "x.rs:3".to_string(),
        ])
    );
    assert_eq!(build_command(" \t\n", "x.rs", None, false), None);
    assert_eq!(
        build_command("vim", "dir with space/x.rs", Some(0), true),
        Some(vec!["vim".to_string(), "dir with space/x.rs:0".to_string()])
    );
}

#[test]
fn source_line_reads_graphify_locations() {
    assert_eq!(source_line("L42"), Some(42));
    assert_eq!(source_line("7"), Some(7));
    assert_eq!(source_line("L0"), Some(0));
    assert_eq!(source_line("L4294967295"), Some(u32::MAX));
    assert_eq!(source_line("L4294967296"), None);
    assert_eq!(source_line("L"), None);
    assert_eq!(source_line(""), None);
    assert_eq!(source_line("L4x"), None);
    assert_eq!(source_line("x42"), None);
    assert_eq!(source_line("L12-L20"), None);
}

#[test]
fn plan_open_for_node_uses_the_nodes_recorded_source() {
    let json = r#"{"nodes":[
      {"id":"a1","community":"A","source_file":"no/such/seam_explorer_login.rs","source_location":"L42"},
      {"id":"b1","community":"B"}
    ],"links":[]}"#;
    let model = seam_explorer::ingest::from_json(json).ok().expect("fixture").model;
    let settings = settings_with("code -g", true);
    assert_eq!(
        seam_explorer::context_menu::plan_open_for_node(&model, "a1", None, &settings),
        MenuAction::Spawn(vec![
            "code".to_string(),
            "-g".to_string(),
            "no/such/seam_explorer_login.rs:42".to_string(),
        ])
    );
    assert_eq!(
        seam_explorer::context_menu::plan_open_for_node(&model, "b1", None, &settings),
        MenuAction::DisabledNoSource
    );
    assert_eq!(
        seam_explorer::context_menu::plan_open_for_node(&model, "zz", None, &settings),
        MenuAction::DisabledNoSource
    );
    let blank = settings_with("", true);
    assert_eq!(
        seam_explorer::context_menu::plan_open_for_node(&model, "a1", None, &blank),
        MenuAction::DisabledNoCommand
    );
}
