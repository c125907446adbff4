//! The data that the managers, the plugins and the settings exchange.
pub mod config;
pub mod game_mod;
pub mod plugin;
pub mod plugin_api;
pub mod table;
