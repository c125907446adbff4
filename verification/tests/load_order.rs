use umm_core::commands::mods::{
    declared_load_order_paths, ensure_declared_load_order_path, load_order_input,
    plan_load_order_writes, resolve_load_order_write,
};
use umm_core::models::game_mod::{ModEntry, ModInfo};
use umm_core::models::plugin_api::{
    GameFileWrite, GameMetadata, GamePathRoot, LoadOrderWriteTarget, ModDiscovery, ModDiscoveryMode,
};
use umm_core::plugins::security_test::{self, probe_result};
use umm_core::plugins::witcher3;
use umm_core::models::plugin_api::BuildLoadOrderInput;
use umm_core::services::plugin_manager::validate_game_metadata;

fn metadata_with_write_targets(targets: &[(&str, &str)]) -> GameMetadata {
    GameMetadata {
        api_version: 2,
        name: "Example".to_string(),
        executable: "game.exe".to_string(),
        path_roots: vec![
            GamePathRoot {
                id: "game".to_string(),
                name: "Game folder".to_string(),
                description: "Game install folder".to_string(),
            },
            GamePathRoot {
                id: "local_app_data".to_string(),
                name: "Local app data".to_string(),
                description: "Local app data folder".to_string(),
            },
        ],
        mod_discovery: ModDiscovery {
            root_id: "game".to_string(),
            relative_path: "mods".to_string(),
            mode: ModDiscoveryMode::DirectoryMods { required_prefix: None, metadata_file: None },
        },
        load_order_writes: targets
            .iter()
            .map(|(root_id, relative_path)| LoadOrderWriteTarget {
                root_id: (*root_id).to_string(),
                relative_path: (*relative_path).to_string(),
            })
            .collect(),
    }
}

fn entry(id: &str, enabled: bool, priority: u32) -> ModEntry {
    ModEntry { id: id.to_string(), enabled, priority }
}

fn write(root: &str, path: &str, content: &str) -> GameFileWrite {
    GameFileWrite { root_id: root.to_string(), relative_path: path.to_string(), content: content.to_string() }
}

#[test]
fn load_order_write_path_must_be_declared_by_plugin_metadata() {
    let metadata = metadata_with_write_targets(&[("local_app_data", "declared.txt")]);
    let declared_paths = declared_load_order_paths(&metadata);

    assert!(ensure_declared_load_order_path("example", &declared_paths, "local_app_data", "declared.txt").is_ok());
    assert_eq!(
        ensure_declared_load_order_path("example", &declared_paths, "game", "other.txt")
            .expect_err("undeclared write target should be rejected"),
        "Plugin 'example' returned undeclared load-order path 'game:other.txt'"
    );
}

#[test]
fn declared_writes_resolve_below_their_root() {
    let metadata = metadata_with_write_targets(&[("local_app_data", "Skyrim/plugins.txt"), ("game", "../x")]);
    let declared = declared_load_order_paths(&metadata);
    let roots = vec![("local_app_data".to_string(), "/home/u/AppData/Local".to_string())];
    assert_eq!(
        resolve_load_order_write("skyrim-se", &declared, &roots, &write("local_app_data", "Skyrim/plugins.txt", "")),
        Ok("/home/u/AppData/Local/Skyrim/plugins.txt".to_string())
    );
    assert_eq!(
        resolve_load_order_write("skyrim-se", &declared, &roots, &write("game", "../x", "")).unwrap_err(),
        "No path configured for root 'game' in plugin 'skyrim-se'"
    );
    let roots2 = vec![("game".to_string(), "/g".to_string())];
    assert_eq!(
        resolve_load_order_write("skyrim-se", &declared, &roots2, &write("game", "../x", "")).unwrap_err(),
        "Plugin returned unsafe relative_path: ../x"
    );
}

#[test]
fn planned_writes_stop_at_the_first_refused_write() {
    let metadata = metadata_with_write_targets(&[("game", "a.txt"), ("game", "b.txt")]);
    let declared = declared_load_order_paths(&metadata);
    let roots = vec![("game".to_string(), "/g/".to_string())];
    let (files, error) = plan_load_order_writes(
        "p",
        &declared,
        &roots,
        vec![write("game", "a.txt", "A"), write("game", "c.txt", "C"), write("game", "b.txt", "B")],
    );
    assert_eq!(files, vec![("/g/a.txt".to_string(), "A".to_string())]);
    assert_eq!(error.unwrap(), "Plugin 'p' returned undeclared load-order path 'game:c.txt'");
    let (files, error) = plan_load_order_writes("p", &declared, &roots, vec![write("game", "b.txt", "B")]);
    assert_eq!(files, vec![("/g/b.txt".to_string(), "B".to_string())]);
    assert!(error.is_none());
}

#[test]
fn load_order_input_copies_enabled_and_priority() {
    let mods = vec![ModInfo {
        id: "x".to_string(),
        name: "X".to_string(),
        version: "1".to_string(),
        description: "d".to_string(),
        enabled: false,
        priority: 4,
    }];
    assert_eq!(load_order_input(&mods).mods, vec![entry("x", false, 4)]);
}

#[test]
fn security_plugin_lists_enabled_mods_by_priority() {
    let input = BuildLoadOrderInput {
        mods: vec![entry("b", true, 2), entry("off", false, 0), entry("a", true, 1), entry("c", true, 2)],
    };
    let output = security_test::build_load_order(&input);
    assert_eq!(output.writes.len(), 1);
    assert_eq!(output.writes[0].root_id, "game");
    assert_eq!(output.writes[0].relative_path, "security-loadorder.txt");
    assert_eq!(output.writes[0].content, "a\nb\nc\n");
    let none = security_test::build_load_order(&BuildLoadOrderInput { mods: vec![entry("x", false, 0)] });
    assert_eq!(none.writes[0].content, "");
}

#[test]
fn security_plugin_metadata_validates() {
    assert_eq!(validate_game_metadata("security-test", &security_test::get_game_metadata()), Ok(()));
}

#[test]
fn probe_results_report_success_and_detail() {
    let ok = probe_result("create_file", Ok("created".to_string()));
    assert!(ok.success);
    assert_eq!(ok.operation, "create_file");
    assert_eq!(ok.detail, "created");
    let blocked = probe_result("http_get_example", Err("denied".to_string()));
    assert!(!blocked.success);
    assert_eq!(blocked.detail, "denied");
}

#[test]
fn witcher_plugin_wasm_round_trip_builds_declared_mods_settings() {
    let metadata = witcher3::get_game_metadata();
    assert!(validate_game_metadata("witcher3", &metadata).is_ok());
    let input = BuildLoadOrderInput {
        mods: vec![entry("modBetterWeather", false, 20), entry("modArmorEnhanced", true, 10)],
    };
    let output = witcher3::build_load_order(&input);

    assert_eq!(metadata.load_order_writes[0].root_id, "documents");
    assert_eq!(metadata.load_order_writes[0].relative_path, "mods.settings");
    assert_eq!(output.writes.len(), 1);
    assert_eq!(
        output.writes[0].content,
        "[modArmorEnhanced]\nEnabled=1\nPriority=1\n\n[modBetterWeather]\nEnabled=0\nPriority=2\n"
    );
}

#[test]
fn witcher_settings_keep_equal_priorities_in_given_order_and_number_from_one() {
    let input = BuildLoadOrderInput {
        mods: vec![entry("modB", true, 7), entry("modA", false, 7), entry("modC", true, 3)],
    };
    let output = witcher3::build_load_order(&input);
    assert_eq!(output.writes[0].root_id, "documents");
    assert_eq!(output.writes[0].relative_path, "mods.settings");
    assert_eq!(
        output.writes[0].content,
        "[modC]\nEnabled=1\nPriority=1\n\n[modB]\nEnabled=1\nPriority=2\n\n[modA]\nEnabled=0\nPriority=3\n"
    );
    let empty = witcher3::build_load_order(&BuildLoadOrderInput { mods: vec![] });
    assert_eq!(empty.writes[0].content, "");
}

#[test]
fn witcher_metadata_declares_game_and_documents_roots() {
    let metadata = witcher3::get_game_metadata();
    assert_eq!(witcher3::get_game_name(), "The Witcher 3: Wild Hunt");
    assert_eq!(metadata.name, "The Witcher 3: Wild Hunt");
    assert_eq!(metadata.api_version, 2);
    let ids: Vec<&str> = metadata.path_roots.iter().map(|r| r.id.as_str()).collect();
    assert_eq!(ids, vec!["game", "documents"]);
    assert_eq!(metadata.mod_discovery.root_id, "game");
    assert_eq!(metadata.mod_discovery.relative_path, "mods");
    assert_eq!(
        metadata.mod_discovery.mode,
        ModDiscoveryMode::DirectoryMods { required_prefix: Some("mod".to_string()), metadata_file: None }
    );
}

#[test]
fn witcher_reads_line_based_load_order() {
    assert_eq!(witcher3::read_load_order("modZ\nmodArmorEnhanced"), vec!["modZ", "modArmorEnhanced"]);
    assert_eq!(witcher3::read_load_order("  a \r\n\n\t\nb\n"), vec!["a", "b"]);
    assert!(witcher3::read_load_order("").is_empty());
}

#[test]
fn probe_reports_name_each_operation() {
    let http = security_test::probe_http(Err("host not allowed".to_string()));
    assert_eq!(http.results.len(), 1);
    assert_eq!(http.results[0].operation, "http_get_example");
    assert!(!http.results[0].success);
    assert_eq!(http.results[0].detail, "host not allowed");
    assert_eq!(security_test::probe_http(Ok(())).results[0].detail, "HTTP request unexpectedly succeeded");

    let fs = security_test::probe_filesystem(Ok(12), Err("denied".to_string()), Ok(()));
    assert_eq!(
        fs.results.iter().map(|r| (r.operation.as_str(), r.success, r.detail.as_str())).collect::<Vec<_>>(),
        vec![
            ("list_current_directory", true, "listed 12 visible entries"),
            ("create_file", false, "denied"),
            ("delete_file", true, "deleted plugin-security-created.txt"),
        ]
    );
}
