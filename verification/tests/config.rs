use umm_core::models::config::AppConfig;
use umm_core::models::plugin_api::{
    GameMetadata, GamePathRoot, LoadOrderWriteTarget, ModDiscovery, ModDiscoveryMode,
    GAME_INSTALL_PATH_ROOT_ID,
};

fn metadata_with_roots() -> GameMetadata {
    GameMetadata {
        api_version: 2,
        name: "Example".to_string(),
        executable: "game.exe".to_string(),
        path_roots: vec![
            GamePathRoot {
                id: "game".to_string(),
                name: "Game folder".to_string(),
                description: "Game install folder".to_string(),
            },
            GamePathRoot {
                id: "local_app_data".to_string(),
                name: "Local app data".to_string(),
                description: "Local app data folder".to_string(),
            },
        ],
        mod_discovery: ModDiscovery {
            root_id: "game".to_string(),
            relative_path: "Data".to_string(),
            mode: ModDiscoveryMode::DirectoryMods { required_prefix: None, metadata_file: None },
        },
        load_order_writes: vec![LoadOrderWriteTarget {
            root_id: "local_app_data".to_string(),
            relative_path: "plugins.txt".to_string(),
        }],
    }
}

fn lookup<'a>(t: &'a [(String, String)], key: &str) -> Option<&'a String> {
    t.iter().find(|(k, _)| k == key).map(|(_, v)| v)
}

fn plugin_table<'a>(c: &'a AppConfig, pid: &str) -> Option<&'a Vec<(String, String)>> {
    c.plugin_paths.iter().find(|(k, _)| k == pid).map(|(_, v)| v)
}

/// Builds the stored settings the way the app reads them: the fields of the JSON
/// object, with the older `game_paths` moved into each plugin's `game` root.
fn config_from_json(text: &str) -> AppConfig {
    let value: serde_json::Value = serde_json::from_str(text).expect("deserialize old config");
    let active_plugin = value["active_plugin"].as_str().map(str::to_string);
    let active_theme = value["active_theme"].as_str().unwrap_or("").to_string();
    let mut game_paths = Vec::new();
    if let Some(obj) = value["game_paths"].as_object() {
        for (k, v) in obj {
            game_paths.push((k.clone(), v.as_str().unwrap_or("").to_string()));
        }
    }
    AppConfig::from_stored(active_plugin, active_theme, Vec::new(), game_paths)
}

#[test]
fn old_game_paths_migrate_to_game_root_plugin_paths() {
    let config = config_from_json(
        r#"{"active_plugin":"skyrim-se","active_theme":"","game_paths":{"skyrim-se":"/games/skyrim"}}"#,
    );

    let table = plugin_table(&config, "skyrim-se").expect("migrated plugin");
    assert_eq!(lookup(table, GAME_INSTALL_PATH_ROOT_ID).unwrap(), "/games/skyrim");
}

#[test]
fn migration_keeps_an_existing_game_root() {
    let existing = vec![(
        "skyrim-se".to_string(),
        vec![("game".to_string(), "/new/skyrim".to_string())],
    )];
    let config = AppConfig::from_stored(
        None,
        "dark".to_string(),
        existing,
        vec![
            ("skyrim-se".to_string(), "/old/skyrim".to_string()),
            ("witcher3".to_string(), "/games/w3".to_string()),
        ],
    );
    let skyrim = plugin_table(&config, "skyrim-se").unwrap();
    assert_eq!(lookup(skyrim, "game").unwrap(), "/new/skyrim");
    assert_eq!(skyrim.len(), 1);
    let witcher = plugin_table(&config, "witcher3").unwrap();
    assert_eq!(lookup(witcher, "game").unwrap(), "/games/w3");
    assert_eq!(config.active_theme, "dark");
}

#[test]
fn configured_path_roots_requires_every_declared_root() {
    let metadata = metadata_with_roots();
    let config = AppConfig {
        active_plugin: None,
        active_theme: String::new(),
        plugin_paths: vec![(
            "skyrim-se".to_string(),
            vec![("game".to_string(), "/games/skyrim".to_string())],
        )],
    };

    let message = config
        .configured_path_roots("skyrim-se", &metadata)
        .expect_err("missing local app data path should be rejected");

    assert_eq!(
        message,
        "No path configured for 'Local app data' (local_app_data) in plugin 'skyrim-se'"
    );
}

#[test]
fn configured_path_roots_lists_roots_in_declaration_order() {
    let metadata = metadata_with_roots();
    let mut config = AppConfig::default();
    assert_eq!(
        config.configured_path_roots("skyrim-se", &metadata).unwrap_err(),
        "No paths configured for 'skyrim-se'"
    );
    config.set_plugin_path("skyrim-se".to_string(), "local_app_data".to_string(), "/appdata".to_string());
    config.set_plugin_path("skyrim-se".to_string(), "game".to_string(), "   ".to_string());
    assert_eq!(
        config.configured_path_roots("skyrim-se", &metadata).unwrap_err(),
        "No path configured for 'Game folder' (game) in plugin 'skyrim-se'"
    );
    config.set_plugin_path("skyrim-se".to_string(), "game".to_string(), "/games/skyrim".to_string());
    let roots = config.configured_path_roots("skyrim-se", &metadata).unwrap();
    assert_eq!(
        roots,
        vec![
            ("game".to_string(), "/games/skyrim".to_string()),
            ("local_app_data".to_string(), "/appdata".to_string()),
        ]
    );
}

#[test]
fn set_plugin_path_reads_back_and_leaves_others() {
    let mut config = AppConfig::default();
    config.set_plugin_path("a".to_string(), "game".to_string(), "/a".to_string());
    config.set_plugin_path("b".to_string(), "game".to_string(), "/b".to_string());
    config.set_plugin_path("a".to_string(), "docs".to_string(), "/a-docs".to_string());
    config.set_plugin_path("a".to_string(), "game".to_string(), "/a2".to_string());
    let a = plugin_table(&config, "a").unwrap();
    assert_eq!(lookup(a, "game").unwrap(), "/a2");
    assert_eq!(lookup(a, "docs").unwrap(), "/a-docs");
    assert_eq!(a.len(), 2);
    assert_eq!(lookup(plugin_table(&config, "b").unwrap(), "game").unwrap(), "/b");
    assert_eq!(config.plugin_paths.len(), 2);
}

#[test]
fn setting_a_folder_twice_keeps_one_entry_per_key() {
    let mut config = AppConfig::default();
    config.set_plugin_path("p".to_string(), "game".to_string(), "/a".to_string());
    config.set_plugin_path("p".to_string(), "game".to_string(), "/b".to_string());
    config.set_plugin_path("p".to_string(), "docs".to_string(), "/d".to_string());
    assert_eq!(config.plugin_paths.len(), 1);
    assert_eq!(config.plugin_paths[0].1, vec![("game".to_string(), "/b".to_string()), ("docs".to_string(), "/d".to_string())]);
}

#[test]
fn active_plugin_and_theme_setters_touch_only_their_field() {
    let mut config = AppConfig::default();
    config.set_plugin_path("p".to_string(), "game".to_string(), "/a".to_string());
    config.set_active_plugin("witcher3".to_string());
    config.set_active_theme("nord".to_string());
    assert_eq!(config.active_plugin.as_deref(), Some("witcher3"));
    assert_eq!(config.active_theme, "nord");
    assert_eq!(config.plugin_paths.len(), 1);
}
