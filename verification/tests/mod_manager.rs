use umm_core::models::plugin_api::{ModDiscovery, ModDiscoveryMode};
use umm_core::models::game_mod::{ModEntry, ModInfo, ModState};
use umm_core::services::mod_discovery::{has_required_prefix, ScannedEntry};
use umm_core::services::mod_manager::ModManager;

fn file(name: &str) -> ScannedEntry {
    ScannedEntry { file_name: name.to_string(), is_dir: false, is_file: true, metadata_json: None }
}

fn dir(name: &str, metadata: Option<&str>) -> ScannedEntry {
    ScannedEntry {
        file_name: name.to_string(),
        is_dir: true,
        is_file: false,
        metadata_json: metadata.map(str::to_string),
    }
}

fn info(id: &str, enabled: bool, priority: u32) -> ModInfo {
    ModInfo {
        id: id.to_string(),
        name: id.to_string(),
        version: "1.0".to_string(),
        description: String::new(),
        enabled,
        priority,
    }
}

fn loaded(mods: Vec<ModInfo>) -> ModManager {
    let mut manager = ModManager::new("/data");
    manager.set_current_plugin("skyrim-se");
    manager.set_loaded_mods(mods, None);
    manager
}

#[test]
fn plugin_file_discovery_excludes_official_masters_and_keeps_extensions() {
    // The entries of `game/Data` after creating the five files of the scenario.
    let entries = vec![
        file("Skyrim.esm"),
        file("Update.esm"),
        file("SkyUI_SE.esp"),
        file("ELFX.ESP"),
        file("readme.txt"),
    ];
    let extensions = vec!["esm".to_string(), ".esp".to_string(), "esl".to_string()];
    let excluded = vec![
        "Skyrim.esm".to_string(),
        "Update.esm".to_string(),
        "Dawnguard.esm".to_string(),
        "HearthFires.esm".to_string(),
        "Dragonborn.esm".to_string(),
    ];
    let discovered = ModManager::discover_plugin_files(&entries, &extensions, &excluded);
    let mut manager = ModManager::new("/data");
    manager.set_current_plugin("skyrim-se");
    manager.set_loaded_mods(discovered, None);

    let mut ids = manager.list_mods().into_iter().map(|game_mod| game_mod.id).collect::<Vec<_>>();
    ids.sort();

    assert_eq!(ids, vec!["ELFX.ESP", "SkyUI_SE.esp"]);
}

#[test]
fn plugin_file_mods_take_stem_extension_and_order() {
    let entries = vec![
        file("A.esp"),
        ScannedEntry { file_name: "Folder.esp".to_string(), is_dir: true, is_file: false, metadata_json: None },
        file(".esp"),
        file("B.tar.ESL"),
        file("noext"),
    ];
    let mods = ModManager::discover_plugin_files(
        &entries,
        &vec!["..ESL".to_string(), "esp".to_string(), "".to_string(), ".".to_string()],
        &vec![],
    );
    assert_eq!(mods.len(), 2);
    assert_eq!(mods[0].id, "A.esp");
    assert_eq!(mods[0].name, "A");
    assert_eq!(mods[0].description, ".esp plugin");
    assert_eq!(mods[0].priority, 0);
    assert_eq!(mods[1].id, "B.tar.ESL");
    assert_eq!(mods[1].name, "B.tar");
    assert_eq!(mods[1].version, "1.0");
    assert_eq!(mods[1].description, ".ESL plugin");
    assert_eq!(mods[1].priority, 1);
    assert!(mods.iter().all(|m| m.enabled));
}

#[test]
fn directory_mod_discovery_requires_prefix_and_uses_directory_id() {
    // The entries of `game/mods` after creating the three folders of the scenario.
    let entries = vec![dir("modHDCharacters", None), dir("modArmorEnhanced", None), dir("BetterWeather", None)];
    let discovered =
        ModManager::discover_directory_mods("/games/witcher3/mods", &entries, Some("mod"), None)
            .expect("discover directory mods");
    let mut manager = ModManager::new("/data");
    manager.set_current_plugin("witcher3");
    manager.set_loaded_mods(discovered, None);

    let mut mods = manager.list_mods();
    mods.sort_by(|left, right| left.id.cmp(&right.id));

    assert_eq!(
        mods.iter().map(|game_mod| game_mod.id.as_str()).collect::<Vec<_>>(),
        vec!["modArmorEnhanced", "modHDCharacters"]
    );
    assert!(mods.iter().all(|game_mod| game_mod.name == game_mod.id));
    assert!(mods.iter().all(|game_mod| game_mod.description == "Directory mod"));
}

#[test]
fn directory_mods_read_metadata_members() {
    let entries = vec![
        dir("modA", Some(r#"{"name":"Mod A","version":"2.1","description":"Better A"}"#)),
        file("modFile"),
        dir("modB", Some(r#"{"name":42}"#)),
        dir("modC", None),
    ];
    let mods = ModManager::discover_directory_mods("/g/mods", &entries, None, Some("mod.json"))
        .expect("metadata parses");
    assert_eq!(mods.len(), 3);
    assert_eq!((mods[0].name.as_str(), mods[0].version.as_str(), mods[0].description.as_str()), ("Mod A", "2.1", "Better A"));
    assert_eq!((mods[1].name.as_str(), mods[1].version.as_str(), mods[1].description.as_str()), ("modB", "1.0", ""));
    assert_eq!((mods[2].name.as_str(), mods[2].description.as_str()), ("modC", "Directory mod"));
    assert_eq!(mods.iter().map(|m| m.priority).collect::<Vec<_>>(), vec![0, 1, 2]);

    // Without a metadata file in the discovery mode, metadata contents are ignored.
    let plain = ModManager::discover_directory_mods("/g/mods", &entries, None, None).unwrap();
    assert_eq!(plain[0].name, "modA");
}

#[test]
fn directory_mod_metadata_that_is_not_json_is_an_error() {
    let entries = vec![dir("modA", None), dir("modB", Some("{not json"))];
    let err = ModManager::discover_directory_mods("/g/mods", &entries, None, Some("mod.json"))
        .unwrap_err();
    assert!(err.starts_with("Failed to parse mod metadata '/g/mods/modB/mod.json': "), "{err}");
    assert!(err.len() > "Failed to parse mod metadata '/g/mods/modB/mod.json': ".len());
}

#[test]
fn directory_mod_defaults_and_prefix() {
    assert_eq!(
        ModManager::directory_mod_defaults("modX"),
        ("modX".to_string(), "1.0".to_string(), "Directory mod".to_string())
    );
    assert!(has_required_prefix("modX", Some("mod")));
    assert!(!has_required_prefix("mo", Some("mod")));
    assert!(has_required_prefix("anything", None));
}

#[test]
fn toggle_changes_only_the_first_matching_mod() {
    let mut manager = loaded(vec![info("a", true, 0), info("b", true, 1), info("b", true, 2)]);
    assert!(manager.toggle_mod("b", false));
    let mods = manager.list_mods();
    assert_eq!(mods.iter().map(|m| m.enabled).collect::<Vec<_>>(), vec![true, false, true]);
    assert!(!manager.toggle_mod("missing", false));
    assert_eq!(manager.list_mods(), mods);
}

#[test]
fn reorder_sets_priorities_to_positions_and_drops_unknown() {
    let mut manager = loaded(vec![info("a", true, 0), info("b", false, 1), info("c", true, 2)]);
    manager.reorder_mods(vec!["c".to_string(), "x".to_string(), "a".to_string()]);
    let mods = manager.list_mods();
    assert_eq!(
        mods.iter().map(|m| (m.id.as_str(), m.priority)).collect::<Vec<_>>(),
        vec![("c", 0), ("a", 2)]
    );
}

#[test]
fn loading_applies_saved_state_and_sorts_stably() {
    let discovered = vec![info("a", true, 0), info("b", true, 1), info("c", true, 2), info("d", true, 3)];
    let saved = ModState {
        mods: vec![
            ModEntry { id: "c".to_string(), enabled: false, priority: 0 },
            ModEntry { id: "a".to_string(), enabled: true, priority: 5 },
            ModEntry { id: "zzz".to_string(), enabled: false, priority: 0 },
            ModEntry { id: "b".to_string(), enabled: true, priority: 5 },
        ],
    };
    let mut manager = ModManager::new("/data");
    manager.set_loaded_mods(discovered, Some(&saved));
    let mods = manager.list_mods();
    assert_eq!(
        mods.iter().map(|m| (m.id.as_str(), m.enabled, m.priority)).collect::<Vec<_>>(),
        vec![("c", false, 0), ("d", true, 3), ("a", true, 5), ("b", true, 5)]
    );
}

#[test]
fn save_target_follows_the_current_plugin() {
    let mut manager = ModManager::new("/data");
    assert!(manager.save_target().is_none());
    manager.set_current_plugin("skyrim-se");
    manager.set_loaded_mods(vec![info("a", false, 7)], None);
    let (dir, state) = manager.save_target().unwrap();
    assert_eq!(dir, "/data/profiles/skyrim-se");
    assert_eq!(state.mods, vec![ModEntry { id: "a".to_string(), enabled: false, priority: 7 }]);
    assert_eq!(manager.state_file("skyrim-se"), "/data/profiles/skyrim-se/modstate.json");
}

#[test]
fn reorder_survives_save_and_reload() {
    let mut manager = loaded(vec![info("a", true, 0), info("b", true, 1), info("c", true, 2)]);
    manager.reorder_mods(vec!["c".to_string(), "a".to_string(), "b".to_string()]);
    manager.toggle_mod("a", false);
    let (_, state) = manager.save_target().unwrap();

    // Found again in another order, with discovery's defaults.
    let rediscovered = vec![info("b", true, 0), info("c", true, 1), info("a", true, 2)];
    let mut reloaded = ModManager::new("/data");
    reloaded.set_current_plugin("skyrim-se");
    reloaded.set_loaded_mods(rediscovered, Some(&state));
    assert_eq!(reloaded.list_mods(), manager.list_mods());
    assert_eq!(
        reloaded.list_mods().iter().map(|m| (m.id.as_str(), m.enabled, m.priority)).collect::<Vec<_>>(),
        vec![("c", true, 0), ("a", false, 1), ("b", true, 2)]
    );
}

#[test]
fn discover_mods_follows_the_discovery_mode() {
    let entries = vec![dir("modA", None), file("x.esp"), dir("other", None)];
    let dirs = ModManager::discover_mods(
        "/g/mods",
        &entries,
        &ModDiscoveryMode::DirectoryMods { required_prefix: Some("mod".to_string()), metadata_file: None },
    )
    .unwrap();
    assert_eq!(dirs.iter().map(|m| m.id.as_str()).collect::<Vec<_>>(), vec!["modA"]);
    let files = ModManager::discover_mods(
        "/g/mods",
        &entries,
        &ModDiscoveryMode::PluginFiles { extensions: vec!["esp".to_string()], excluded_files: vec![] },
    )
    .unwrap();
    assert_eq!(files.iter().map(|m| m.id.as_str()).collect::<Vec<_>>(), vec!["x.esp"]);
}

#[test]
fn mods_folder_joins_the_discovery_path_onto_its_root() {
    let discovery = ModDiscovery {
        root_id: "game".to_string(),
        relative_path: "Data".to_string(),
        mode: ModDiscoveryMode::PluginFiles { extensions: vec![], excluded_files: vec![] },
    };
    let roots = vec![("game".to_string(), "/games/skyrim".to_string())];
    assert_eq!(ModManager::mods_folder("skyrim-se", &roots, &discovery), Ok("/games/skyrim/Data".to_string()));
    assert_eq!(
        ModManager::mods_folder("skyrim-se", &vec![], &discovery).unwrap_err(),
        "No path configured for root 'game' in plugin 'skyrim-se'"
    );
    let mut unsafe_discovery = discovery.clone();
    unsafe_discovery.relative_path = "../Data".to_string();
    assert_eq!(
        ModManager::mods_folder("skyrim-se", &roots, &unsafe_discovery).unwrap_err(),
        "Plugin returned unsafe relative_path: ../Data"
    );
}

fn priorities_in_order(manager: &ModManager) -> bool {
    let mods = manager.list_mods();
    mods.windows(2).all(|w| w[0].priority <= w[1].priority)
}

#[test]
fn mod_list_stays_in_load_order_through_loads_toggles_and_reorders() {
    let mut manager = ModManager::new("/data");
    assert!(priorities_in_order(&manager));
    manager.set_loaded_mods(vec![info("a", true, 9), info("b", true, 2), info("c", true, 5)], None);
    assert!(priorities_in_order(&manager));
    assert!(manager.toggle_mod("c", false));
    assert!(priorities_in_order(&manager));
    manager.reorder_mods(vec!["a".to_string(), "c".to_string(), "b".to_string()]);
    assert!(priorities_in_order(&manager));
    assert_eq!(
        manager.list_mods().iter().map(|m| (m.id.as_str(), m.enabled, m.priority)).collect::<Vec<_>>(),
        vec![("a", true, 0), ("c", false, 1), ("b", true, 2)]
    );
}

#[test]
fn saved_entries_apply_to_the_mod_with_their_id() {
    let discovered = vec![info("x", true, 0), info("y", true, 1), info("z", true, 2)];
    let saved = ModState {
        mods: vec![
            ModEntry { id: "gone".to_string(), enabled: false, priority: 0 },
            ModEntry { id: "z".to_string(), enabled: false, priority: 0 },
            ModEntry { id: "x".to_string(), enabled: true, priority: 4 },
        ],
    };
    let mut manager = ModManager::new("/data");
    manager.set_loaded_mods(discovered, Some(&saved));
    assert_eq!(
        manager.list_mods().iter().map(|m| (m.id.as_str(), m.enabled, m.priority)).collect::<Vec<_>>(),
        vec![("z", false, 0), ("y", true, 1), ("x", true, 4)]
    );
}

#[test]
fn listing_stopped_early_reports_an_earlier_bad_metadata_file_first() {
    let mode = ModDiscoveryMode::DirectoryMods {
        required_prefix: None,
        metadata_file: Some("mod.json".to_string()),
    };
    let bad = vec![dir("modA", Some("{not json"))];
    let err = ModManager::discover_listed_mods("/g/mods", &bad, &mode, Some("permission denied".to_string()))
        .unwrap_err();
    assert!(err.starts_with("Failed to parse mod metadata '/g/mods/modA/mod.json': "), "{err}");

    let good = vec![dir("modA", Some(r#"{"name":"A"}"#))];
    assert_eq!(
        ModManager::discover_listed_mods("/g/mods", &good, &mode, Some("permission denied".to_string())),
        Err("permission denied".to_string())
    );
    let mods = ModManager::discover_listed_mods("/g/mods", &good, &mode, None).unwrap();
    assert_eq!(mods.len(), 1);
    assert_eq!(mods[0].name, "A");
}

#[test]
fn discovered_mods_have_the_distinct_names_of_their_entries() {
    let entries = vec![dir("modA", None), file("b.esp"), dir("modC", None), file("d.esm")];
    let mode = ModDiscoveryMode::DirectoryMods { required_prefix: None, metadata_file: None };
    let ids: Vec<String> =
        ModManager::discover_mods("/g", &entries, &mode).unwrap().into_iter().map(|m| m.id).collect();
    assert_eq!(ids, vec!["modA", "modC"]);
    let mode = ModDiscoveryMode::PluginFiles { extensions: vec!["esp".to_string(), ".esm".to_string()], excluded_files: vec![] };
    let ids: Vec<String> =
        ModManager::discover_mods("/g", &entries, &mode).unwrap().into_iter().map(|m| m.id).collect();
    assert_eq!(ids, vec!["b.esp", "d.esm"]);
}
