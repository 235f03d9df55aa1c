use seam_explorer::settings::{config_path_from, Settings, SettingsStore};

#[test]
fn config_path_from_prefers_xdg_then_home() {
    assert_eq!(
        config_path_from(Some("/x"), Some("/h")),
        Some("/x/seam-explorer/settings.json".to_string()),
        "XDG_CONFIG_HOME must win when present and non-empty"
    );
    assert_eq!(
        config_path_from(None, Some("/h")),
        Some("/h/.config/seam-explorer/settings.json".to_string()),
        "with XDG_CONFIG_HOME unset, HOME/.config/seam-explorer/settings.json"
    );
    assert_eq!(
        config_path_from(Some(""), Some("/h")),
        Some("/h/.config/seam-explorer/settings.json".to_string()),
        "an empty (but present) XDG_CONFIG_HOME must be treated the same as unset"
    );
    assert_eq!(
        config_path_from(None, None),
        None,
        "with neither variable available, there is no path to resolve"
    );
}

#[test]
fn config_path_from_trims_a_blank_or_padded_xdg() {
    assert_eq!(
        config_path_from(Some("  \t"), Some("/h")),
        Some("/h/.config/seam-explorer/settings.json".to_string())
    );
    assert_eq!(
        config_path_from(Some("  /x  "), None),
        Some("/x/seam-explorer/settings.json".to_string())
    );
    assert_eq!(config_path_from(Some(" "), None), None);
}

#[test]
fn default_settings_are_blank_command_and_flag_off() {
    let s = Settings::default();
    assert_eq!(s.open_file_command, "", "default command must be blank");
    assert!(!s.append_line_number, "default flag must be off");
}

#[test]
fn store_on_an_unbound_global_writes_nothing() {
    let mut store = SettingsStore::new();
    let value = Settings {
        open_file_command: "seam-explorer-egui-store-unbound-probe".to_string(),
        append_line_number: true,
    };
    assert_eq!(store.bound_path(), None);
    assert!(
        store.store(value.clone()).is_none(),
        "store on an unbound store must return None -- nothing is to be written"
    );
    assert_eq!(store.current(), value);
}

#[test]
fn init_binds_a_path_and_store_writes_through_to_it() {
    let mut store = SettingsStore::new();
    let loaded = Settings {
        open_file_command: "idea".to_string(),
        append_line_number: false,
    };
    store.init("/tmp/cfg/settings.json".to_string(), loaded.clone());
    assert_eq!(store.current(), loaded);
    assert_eq!(store.bound_path(), Some("/tmp/cfg/settings.json".to_string()));
    let modified = Settings {
        open_file_command: "code -g".to_string(),
        append_line_number: true,
    };
    assert_eq!(store.store(modified.clone()), Some("/tmp/cfg/settings.json".to_string()));
    assert_eq!(store.current(), modified);
}
