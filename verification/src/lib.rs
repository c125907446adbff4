//! Core logic of a multi-game mod manager: plugin-relative path safety, game
//! metadata validation, mod discovery and load order, plugin selection and themes.
pub mod commands;
pub mod models;
pub mod ordering;
pub mod plugins;
pub mod services;
pub mod state;
pub mod text;
