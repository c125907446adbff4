use std::path::{Path, PathBuf};
use umm_core::services::path_safety::{join_validated_plugin_path, validate_plugin_relative_path};

#[test]
fn plugin_relative_path_allows_normal_relative_paths() {
    assert!(validate_plugin_relative_path("loadorder.txt").is_ok());
    assert!(validate_plugin_relative_path("profiles/loadorder.txt").is_ok());
    assert!(
        validate_plugin_relative_path("local-app-data/Skyrim Special Edition/plugins.txt").is_ok()
    );
    assert!(validate_plugin_relative_path("documents/The Witcher 3/mods.settings").is_ok());
}

#[test]
fn plugin_relative_path_rejects_traversal_and_absolute_paths() {
    for path in [
        "",
        ".",
        "./loadorder.txt",
        "../outside.txt",
        "profiles/../../outside.txt",
        "/tmp/outside.txt",
    ] {
        assert!(
            validate_plugin_relative_path(path).is_err(),
            "path should be rejected: {path}"
        );
    }
}

#[test]
fn plugin_relative_path_rejects_windows_prefixes_and_separators() {
    for path in [
        "C:/Users/player/outside.txt",
        "C:\\Users\\player\\outside.txt",
        "\\\\server\\share\\outside.txt",
        "profiles\\loadorder.txt",
    ] {
        assert!(
            validate_plugin_relative_path(path).is_err(),
            "path should be rejected: {path}"
        );
    }
}

#[test]
fn validated_plugin_path_joins_without_canonicalizing() {
    let root = Path::new("/missing/game-root");
    let path = join_validated_plugin_path("/missing/game-root", "documents/The Witcher 3/mods.settings")
        .expect("valid path should join");

    assert_eq!(PathBuf::from(path), root.join("documents/The Witcher 3/mods.settings"));
}

#[test]
fn relative_path_error_messages_name_the_failed_check() {
    assert_eq!(
        validate_plugin_relative_path("   ").unwrap_err(),
        "Plugin returned an empty relative_path"
    );
    assert_eq!(
        validate_plugin_relative_path("a:b").unwrap_err(),
        "Plugin returned unsafe relative_path: a:b"
    );
    assert_eq!(
        validate_plugin_relative_path("/etc/passwd").unwrap_err(),
        "Plugin returned absolute relative_path: /etc/passwd"
    );
    assert_eq!(
        validate_plugin_relative_path("mods/..").unwrap_err(),
        "Plugin returned unsafe relative_path: mods/.."
    );
}

#[test]
fn relative_path_dot_components_follow_std_path() {
    // Interior `.` components are normalised away by std's path parsing.
    assert!(validate_plugin_relative_path("mods/./plugins.txt").is_ok());
    assert!(validate_plugin_relative_path("mods/...").is_ok());
    assert!(validate_plugin_relative_path(".hidden/file").is_ok());
    assert!(validate_plugin_relative_path("./").is_err());
}

#[test]
fn join_matches_std_path_join() {
    for (root, rel) in [("", "a/b"), ("/root/", "a"), ("/root", "a"), ("data", "x/y.txt")] {
        let joined = join_validated_plugin_path(root, rel).expect("valid");
        assert_eq!(PathBuf::from(joined), Path::new(root).join(rel));
    }
}
