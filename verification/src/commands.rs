//! The decisions behind the front end's commands.
pub mod mods;
