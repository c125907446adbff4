//! Mods as the manager lists them and as their state is saved.
use vstd::prelude::*;

verus! {

/// A discovered mod with its display data, enabled flag and load priority.
#[derive(Debug, Clone, PartialEq, Eq)]
pub struct ModInfo {
    pub id: String,
    pub name: String,
    pub version: String,
    pub description: String,
    pub enabled: bool,
    pub priority: u32,
}

/// A mod as plain values.
pub struct ModInfoView {
    pub id: Seq<char>,
    pub name: Seq<char>,
    pub version: Seq<char>,
    pub description: Seq<char>,
    pub enabled: bool,
    pub priority: u32,
}

impl View for ModInfo {
    type V = ModInfoView;

    open spec fn view(&self) -> ModInfoView {
        ModInfoView {
            id: self.id@,
            name: self.name@,
            version: self.version@,
            description: self.description@,
            enabled: self.enabled,
            priority: self.priority,
        }
    }
}

/// A list of mods as plain values.
pub open spec fn mods_view(s: Seq<ModInfo>) -> Seq<ModInfoView> {
    s.map_values(|m: ModInfo| m@)
}

/// The priority of each mod of a list.
pub open spec fn mod_priorities(s: Seq<ModInfo>) -> Seq<u32> {
    s.map_values(|m: ModInfo| m.priority)
}

/// The saved state of one plugin's mods.
#[derive(Debug, Clone, PartialEq, Eq)]
pub struct ModState {
    pub mods: Vec<ModEntry>,
}

/// The saved state of one mod.
#[derive(Debug, Clone, PartialEq, Eq)]
pub struct ModEntry {
    pub id: String,
    pub enabled: bool,
    pub priority: u32,
}

/// A copy of `m`.
pub fn copy_mod_info(m: &ModInfo) -> (r: ModInfo)
    ensures
        r == *m,
{
    ModInfo {
        id: m.id.clone(),
        name: m.name.clone(),
        version: m.version.clone(),
        description: m.description.clone(),
        enabled: m.enabled,
        priority: m.priority,
    }
}

/// A copy of `e`.
pub fn copy_mod_entry(e: &ModEntry) -> (r: ModEntry)
    ensures
        r == *e,
{
    ModEntry { id: e.id.clone(), enabled: e.enabled, priority: e.priority }
}

} // verus!
