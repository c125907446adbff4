use umm_core::models::plugin::PluginMetadata;
use umm_core::services::plugin_manager::{PluginDirEntry, PluginManager};
use umm_core::services::theme_manager::ThemeManager;
use umm_core::state::AppState;
use umm_core::models::config::AppConfig;

fn metadata(wasm: &str) -> PluginMetadata {
    PluginMetadata { name: "Skyrim SE".to_string(), wasm_path: wasm.to_string(), icon_path: "icon.png".to_string() }
}

fn plugin_dir(name: &str, md: Option<PluginMetadata>) -> PluginDirEntry {
    PluginDirEntry {
        file_name: name.to_string(),
        path: format!("/data/plugins/{name}"),
        is_dir: true,
        metadata: md,
    }
}

fn plain_file(name: &str) -> PluginDirEntry {
    PluginDirEntry { file_name: name.to_string(), path: format!("/data/plugins/{name}"), is_dir: false, metadata: None }
}

#[test]
fn select_then_active_plugin_reads_back() {
    let mut manager = PluginManager::new("/data");
    assert_eq!(manager.plugins_dir(), "/data/plugins");
    manager.discover_plugins(vec![plugin_dir("skyrim-se", Some(metadata("plugin.wasm")))]);
    assert_eq!(manager.get_active_plugin_id(), None);
    assert_eq!(manager.select_plugin("witcher3").unwrap_err(), "Plugin 'witcher3' not found");
    assert_eq!(manager.get_active_plugin_id(), None);
    assert_eq!(manager.select_plugin("skyrim-se"), Ok(()));
    assert_eq!(manager.get_active_plugin_id(), Some("skyrim-se"));
    let listed = manager.list_plugins();
    assert_eq!(listed.len(), 1);
    assert_eq!(listed[0].icon_path, "/data/plugins/skyrim-se/icon.png");
    assert_eq!(listed[0].name, "Skyrim SE");
    manager.discover_plugins(vec![]);
    assert!(manager.list_plugins().is_empty());
    assert_eq!(manager.get_active_plugin_id(), Some("skyrim-se"));
}

#[test]
fn discovery_keeps_plugin_folders_in_listing_order_and_rebuilds_the_list() {
    let mut manager = PluginManager::new("/data");
    let entries = || {
        vec![
            plugin_dir("witcher3", Some(metadata("w.wasm"))),
            plain_file("notes.txt"),
            plugin_dir("empty-folder", None),
            plugin_dir("skyrim-se", Some(metadata("s.wasm"))),
        ]
    };
    manager.discover_plugins(entries());
    let first = manager.list_plugins();
    assert_eq!(first.iter().map(|p| p.id.as_str()).collect::<Vec<_>>(), vec!["witcher3", "skyrim-se"]);
    assert_eq!(first[0].icon_path, "/data/plugins/witcher3/icon.png");
    assert_eq!(manager.select_plugin("witcher3"), Ok(()));
    manager.discover_plugins(entries());
    assert_eq!(manager.list_plugins(), first);
    assert_eq!(manager.get_active_plugin_id(), Some("witcher3"));
}

#[test]
fn active_plugin_is_the_last_successful_selection() {
    let mut manager = PluginManager::new("/data");
    manager.discover_plugins(vec![
        plugin_dir("a", Some(metadata("a.wasm"))),
        plugin_dir("b", Some(metadata("b.wasm"))),
    ]);
    assert_eq!(manager.select_plugin("b"), Ok(()));
    assert!(manager.select_plugin("c").is_err());
    assert_eq!(manager.get_active_plugin_id(), Some("b"));
    assert_eq!(manager.select_plugin("a"), Ok(()));
    manager.discover_plugins(vec![plugin_dir("b", Some(metadata("b.wasm")))]);
    assert_eq!(manager.get_active_plugin_id(), Some("a"));
    assert!(manager.select_plugin("a").is_err());
    assert_eq!(manager.get_active_plugin_id(), Some("a"));
}

#[test]
fn wasm_location_reports_missing_and_empty_paths() {
    let mut manager = PluginManager::new("/data");
    manager.discover_plugins(vec![
        plugin_dir("example", Some(metadata("plugin.wasm"))),
        plugin_dir("blank", Some(metadata("  "))),
    ]);
    assert_eq!(
        manager.wasm_location("example"),
        Ok(("plugin.wasm".to_string(), "/data/plugins/example/plugin.wasm".to_string()))
    );
    assert_eq!(
        manager.wasm_location("blank").unwrap_err(),
        "Plugin 'blank' metadata.json has an empty wasm_path"
    );
    assert_eq!(manager.wasm_location("nope").unwrap_err(), "Plugin 'nope' not found");
}

#[test]
fn set_then_get_active_theme_reads_back() {
    let mut themes = ThemeManager::new("/data", "");
    assert_eq!(themes.get_active_theme(), "");
    assert_eq!(themes.themes_dir(), "/data/themes");
    assert_eq!(themes.set_active_theme("nord", false).unwrap_err(), "Theme 'nord' not found");
    assert_eq!(themes.get_active_theme(), "");
    assert_eq!(themes.set_active_theme("nord", true), Ok(()));
    assert_eq!(themes.get_active_theme(), "nord");
    assert_eq!(themes.set_active_theme("", false), Ok(()));
    assert_eq!(themes.get_active_theme(), "");
    assert_eq!(ThemeManager::new("/data", "dark").get_active_theme(), "dark");
}

#[test]
fn theme_listing_takes_css_files_and_marks_the_active_one() {
    let themes = ThemeManager::new("/data", "dark");
    let names = vec![
        "dark.css".to_string(),
        "light.css".to_string(),
        "notes.txt".to_string(),
        ".css".to_string(),
        "upper.CSS".to_string(),
        "a.b.css".to_string(),
    ];
    let listed = themes.themes_from_entries(&names);
    assert_eq!(
        listed.iter().map(|t| (t.name.as_str(), t.is_active)).collect::<Vec<_>>(),
        vec![("dark", true), ("light", false), ("a.b", false)]
    );
    assert_eq!(themes.theme_css_path(""), None);
    assert_eq!(themes.theme_css_path("light"), Some("/data/themes/light.css".to_string()));
}

#[test]
fn app_state_starts_with_the_configured_theme() {
    let mut config = AppConfig::default();
    config.active_theme = "light".to_string();
    let state = AppState::new("/data".to_string(), config);
    assert_eq!(state.theme_manager.get_active_theme(), "light");
    assert!(state.mod_manager.list_mods().is_empty());
    assert_eq!(state.plugin_manager.plugins_dir(), "/data/plugins");
}

#[test]
fn active_theme_is_the_last_name_set_successfully() {
    let mut themes = ThemeManager::new("/data", "dark");
    assert!(themes.set_active_theme("missing", false).is_err());
    assert_eq!(themes.get_active_theme(), "dark");
    assert_eq!(themes.set_active_theme("light", true), Ok(()));
    assert!(themes.set_active_theme("other", false).is_err());
    assert_eq!(themes.get_active_theme(), "light");
    assert_eq!(themes.set_active_theme("", false), Ok(()));
    assert!(themes.set_active_theme("gone", false).is_err());
    assert_eq!(themes.get_active_theme(), "");
}

#[test]
fn theme_css_file_is_none_for_no_theme_and_an_error_when_missing() {
    let themes = ThemeManager::new("/data", "");
    assert_eq!(themes.theme_css_file("", false), Ok(None));
    assert_eq!(themes.theme_css_file("nord", true), Ok(Some("/data/themes/nord.css".to_string())));
    assert_eq!(themes.theme_css_file("nord", false), Err("Theme 'nord' not found".to_string()));
}
