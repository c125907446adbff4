//! Everything the front end's commands work on.
use vstd::prelude::*;

use crate::models::config::AppConfig;
use crate::services::mod_manager::ModManager;
use crate::services::path_safety::path_join;
use crate::services::plugin_manager::PluginManager;
use crate::services::theme_manager::ThemeManager;

verus! {

/// The managers, the settings and the app's data folder.
pub struct AppState {
    pub mod_manager: ModManager,
    pub plugin_manager: PluginManager,
    pub theme_manager: ThemeManager,
    pub config: AppConfig,
    pub data_dir: String,
}

impl AppState {
    /// Fresh managers for the data folder `data_dir`, with the active theme of `config`.
    pub fn new(data_dir: String, config: AppConfig) -> (r: AppState)
        ensures
            r.data_dir == data_dir,
            r.config == config,
            r.mod_manager.spec_mods().len() == 0,
            r.mod_manager.spec_current_plugin() is None,
            r.mod_manager.spec_profile_dir() == path_join(data_dir@, "profiles"@),
            r.plugin_manager.spec_plugins().len() == 0,
            r.plugin_manager.spec_active_plugin_id() is None,
            r.plugin_manager.spec_plugins_dir() == path_join(data_dir@, "plugins"@),
            r.theme_manager.spec_themes_dir() == path_join(data_dir@, "themes"@),
            r.theme_manager.spec_active_theme() == if config.active_theme@.len() == 0 {
                None
            } else {
                Some(config.active_theme@)
            },
    {
        let theme_manager = ThemeManager::new(data_dir.as_str(), config.active_theme.as_str());
        let plugin_manager = PluginManager::new(data_dir.as_str());
        let mod_manager = ModManager::new(data_dir.as_str());
        AppState { mod_manager, plugin_manager, theme_manager, config, data_dir }
    }
}

} // verus!
