//! Managers for mods, plugins and themes, and the path checks they share.
pub mod mod_discovery;
pub mod mod_manager;
pub mod path_safety;
pub mod plugin_manager;
pub mod theme_manager;
