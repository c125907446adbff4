//! What a game plugin declares about its game and what it returns for a load order.
use vstd::prelude::*;

use super::game_mod::ModEntry;

verus! {

/// The plugin API version that this manager speaks.
pub const SUPPORTED_PLUGIN_API_VERSION: u32 = 2;

/// The id of the path root that holds the game installation.
pub const GAME_INSTALL_PATH_ROOT_ID: &'static str = "game";

/// What a plugin declares about its game.
#[derive(Debug, Clone, PartialEq, Eq)]
pub struct GameMetadata {
    pub api_version: u32,
    pub name: String,
    pub executable: String,
    pub path_roots: Vec<GamePathRoot>,
    pub mod_discovery: ModDiscovery,
    pub load_order_writes: Vec<LoadOrderWriteTarget>,
}

/// A folder that the user configures for a plugin (game folder, app data, ...).
#[derive(Debug, Clone, PartialEq, Eq)]
pub struct GamePathRoot {
    pub id: String,
    pub name: String,
    pub description: String,
}

/// Where and how the mods of a game are found.
#[derive(Debug, Clone, PartialEq, Eq)]
pub struct ModDiscovery {
    pub root_id: String,
    pub relative_path: String,
    pub mode: ModDiscoveryMode,
}

/// How mods are recognised in the discovery folder.
#[derive(Debug, Clone, PartialEq, Eq)]
pub enum ModDiscoveryMode {
    /// Every sub-folder is a mod, optionally only those whose name has a prefix.
    DirectoryMods { required_prefix: Option<String>, metadata_file: Option<String> },
    /// Every file with one of the extensions is a mod, except the excluded files.
    PluginFiles { extensions: Vec<String>, excluded_files: Vec<String> },
}

/// A file that the plugin may write the load order to.
#[derive(Debug, Clone, PartialEq, Eq)]
pub struct LoadOrderWriteTarget {
    pub root_id: String,
    pub relative_path: String,
}

/// The mods handed to a plugin to build a load order from.
#[derive(Debug, Clone, PartialEq, Eq)]
pub struct BuildLoadOrderInput {
    pub mods: Vec<ModEntry>,
}

/// The files a plugin asks to write for a load order.
#[derive(Debug, Clone, PartialEq, Eq)]
pub struct BuildLoadOrderOutput {
    pub writes: Vec<GameFileWrite>,
}

/// One file to write, below one of the declared path roots.
#[derive(Debug, Clone, PartialEq, Eq)]
pub struct GameFileWrite {
    pub root_id: String,
    pub relative_path: String,
    pub content: String,
}

} // verus!
