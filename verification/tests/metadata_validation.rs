use umm_core::models::plugin_api::{
    GameMetadata, GamePathRoot, LoadOrderWriteTarget, ModDiscovery, ModDiscoveryMode,
    SUPPORTED_PLUGIN_API_VERSION,
};
use umm_core::services::plugin_manager::{check_load_order_output, validate_game_metadata};
use umm_core::models::plugin_api::{BuildLoadOrderOutput, GameFileWrite};

fn valid_metadata() -> GameMetadata {
    GameMetadata {
        api_version: SUPPORTED_PLUGIN_API_VERSION,
        name: "Example".to_string(),
        executable: "game.exe".to_string(),
        path_roots: vec![GamePathRoot {
            id: "game".to_string(),
            name: "Game folder".to_string(),
            description: "Game install folder".to_string(),
        }],
        mod_discovery: ModDiscovery {
            root_id: "game".to_string(),
            relative_path: "mods".to_string(),
            mode: ModDiscoveryMode::DirectoryMods { required_prefix: None, metadata_file: None },
        },
        load_order_writes: vec![LoadOrderWriteTarget {
            root_id: "game".to_string(),
            relative_path: "loadorder.txt".to_string(),
        }],
    }
}

#[test]
fn game_metadata_validation_rejects_unsupported_api_version() {
    let mut metadata = valid_metadata();
    metadata.api_version = 1;

    let message = validate_game_metadata("example", &metadata)
        .expect_err("unsupported API version should be rejected")
        .to_string();

    assert_eq!(message, "Plugin 'example' uses API version 1, but this app supports version 2");
}

#[test]
fn game_metadata_validation_rejects_empty_load_order_writes() {
    let mut metadata = valid_metadata();
    metadata.load_order_writes.clear();

    let message = validate_game_metadata("example", &metadata)
        .expect_err("empty write targets should be rejected")
        .to_string();

    assert_eq!(message, "Plugin 'example' declares no load-order writes");
}

#[test]
fn game_metadata_validation_rejects_duplicate_path_roots() {
    let mut metadata = valid_metadata();
    metadata.path_roots.push(GamePathRoot {
        id: "game".to_string(),
        name: "Duplicate game folder".to_string(),
        description: "Duplicate root".to_string(),
    });

    let message = validate_game_metadata("example", &metadata)
        .expect_err("duplicate path root should be rejected")
        .to_string();

    assert_eq!(message, "Plugin 'example' declares duplicate path root 'game'");
}

#[test]
fn game_metadata_validation_rejects_undeclared_write_roots() {
    let mut metadata = valid_metadata();
    metadata.load_order_writes[0].root_id = "documents".to_string();

    let message = validate_game_metadata("example", &metadata)
        .expect_err("undeclared write root should be rejected")
        .to_string();

    assert_eq!(
        message,
        "Plugin 'example' declares load-order path 'loadorder.txt' under undeclared root 'documents'"
    );
}

#[test]
fn game_metadata_validation_rejects_duplicate_write_targets() {
    let mut metadata = valid_metadata();
    metadata.load_order_writes.push(LoadOrderWriteTarget {
        root_id: "game".to_string(),
        relative_path: "loadorder.txt".to_string(),
    });

    let message = validate_game_metadata("example", &metadata)
        .expect_err("duplicate write target should be rejected")
        .to_string();

    assert_eq!(message, "Plugin 'example' declares duplicate load-order path 'game:loadorder.txt'");
}

#[test]
fn game_metadata_validation_rejects_unsafe_write_targets() {
    let mut metadata = valid_metadata();
    metadata.load_order_writes = vec![LoadOrderWriteTarget {
        root_id: "game".to_string(),
        relative_path: "../outside.txt".to_string(),
    }];

    let message = validate_game_metadata("example", &metadata)
        .expect_err("unsafe write target should be rejected")
        .to_string();

    assert!(
        message.contains("Plugin returned unsafe relative_path: ../outside.txt"),
        "unexpected unsafe path error: {message}"
    );
}

#[test]
fn valid_metadata_is_accepted() {
    assert_eq!(validate_game_metadata("example", &valid_metadata()), Ok(()));
}

#[test]
fn metadata_validation_reports_each_other_failure() {
    let mut m = valid_metadata();
    m.api_version = 12;
    assert_eq!(
        validate_game_metadata("x", &m).unwrap_err(),
        "Plugin 'x' uses API version 12, but this app supports version 2"
    );

    let mut m = valid_metadata();
    m.path_roots.clear();
    assert_eq!(validate_game_metadata("x", &m).unwrap_err(), "Plugin 'x' declares no path roots");

    let mut m = valid_metadata();
    m.path_roots[0].id = " ".to_string();
    assert_eq!(
        validate_game_metadata("x", &m).unwrap_err(),
        "Plugin 'x' declares an empty path root id"
    );

    let mut m = valid_metadata();
    m.path_roots[0].name = "\t".to_string();
    assert_eq!(
        validate_game_metadata("x", &m).unwrap_err(),
        "Plugin 'x' declares an empty path root name"
    );

    let mut m = valid_metadata();
    m.mod_discovery.root_id = "docs".to_string();
    assert_eq!(
        validate_game_metadata("x", &m).unwrap_err(),
        "Plugin 'x' uses undeclared discovery path root 'docs'"
    );

    let mut m = valid_metadata();
    m.mod_discovery.relative_path = "/abs".to_string();
    assert_eq!(
        validate_game_metadata("x", &m).unwrap_err(),
        "Plugin returned absolute relative_path: /abs"
    );
}

#[test]
fn load_order_output_must_not_be_empty() {
    let empty = BuildLoadOrderOutput { writes: vec![] };
    assert_eq!(
        check_load_order_output("skyrim-se", empty).unwrap_err(),
        "Plugin 'skyrim-se' returned no load-order writes"
    );
    let one = BuildLoadOrderOutput {
        writes: vec![GameFileWrite {
            root_id: "game".to_string(),
            relative_path: "a.txt".to_string(),
            content: "x".to_string(),
        }],
    };
    assert_eq!(check_load_order_output("skyrim-se", one.clone()), Ok(one));
}
