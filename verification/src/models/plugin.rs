//! Plugins as the manager lists them and as their `metadata.json` describes them.
use vstd::prelude::*;

verus! {

/// A discovered plugin as the front end lists it.
#[derive(Debug, Clone, PartialEq, Eq)]
pub struct PluginInfo {
    pub id: String,
    pub name: String,
    pub icon_path: String,
}

/// The contents of a plugin's `metadata.json`.
#[derive(Debug, Clone, PartialEq, Eq)]
pub struct PluginMetadata {
    pub name: String,
    pub wasm_path: String,
    pub icon_path: String,
}

/// A copy of `p`.
pub fn copy_plugin_info(p: &PluginInfo) -> (r: PluginInfo)
    ensures
        r == *p,
{
    PluginInfo { id: p.id.clone(), name: p.name.clone(), icon_path: p.icon_path.clone() }
}

/// A copy of `m`.
pub fn copy_plugin_metadata(m: &PluginMetadata) -> (r: PluginMetadata)
    ensures
        r == *m,
{
    PluginMetadata { name: m.name.clone(), wasm_path: m.wasm_path.clone(), icon_path: m.icon_path.clone() }
}

} // verus!
