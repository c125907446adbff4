//! Turning the mod list into a load order and checking where a plugin may
//! write it.
use vstd::prelude::*;
use vstd::string::*;

use crate::models::config::table_get;
use crate::models::game_mod::{ModEntry, ModInfo};
use crate::models::plugin_api::{BuildLoadOrderInput, GameFileWrite, GameMetadata};
use crate::models::table::{lookup, table_view, PathTable};
use crate::services::mod_manager::state_of;
use crate::services::path_safety::{join_validated_plugin_path, path_join, relative_path_check};
use crate::text::str_eq;

verus! {

pub open spec fn msg_undeclared_write(pid: Seq<char>, root_id: Seq<char>, path: Seq<char>) -> Seq<char> {
    "Plugin '"@ + pid + "' returned undeclared load-order path '"@ + root_id + ":"@ + path + "'"@
}

pub open spec fn msg_unconfigured_write_root(root_id: Seq<char>, pid: Seq<char>) -> Seq<char> {
    "No path configured for root '"@ + root_id + "' in plugin '"@ + pid + "'"@
}

/// The (root id, relative path) pair is among the declared ones.
pub open spec fn is_declared(declared: Seq<(String, String)>, root_id: Seq<char>, path: Seq<char>) -> bool {
    exists|i: int| 0 <= i < declared.len() && #[trigger] declared[i].0@ == root_id && declared[i].1@ == path
}

/// What `resolve_load_order_write` returns.
pub open spec fn write_destination(
    pid: Seq<char>,
    declared: Seq<(String, String)>,
    path_roots: Seq<(String, String)>,
    root_id: Seq<char>,
    path: Seq<char>,
) -> Result<Seq<char>, Seq<char>> {
    if !is_declared(declared, root_id, path) {
        Err(msg_undeclared_write(pid, root_id, path))
    } else {
        match lookup(table_view(path_roots), root_id) {
            None => Err(msg_unconfigured_write_root(root_id, pid)),
            Some(root) => match relative_path_check(path) {
                Err(e) => Err(e),
                Ok(_) => Ok(path_join(root, path)),
            },
        }
    }
}

/// The mods as they are handed to a plugin to build a load order.
pub fn load_order_input(mods: &Vec<ModInfo>) -> (r: BuildLoadOrderInput)
    ensures
        r.mods@ == state_of(mods@),
{
    let mut entries: Vec<ModEntry> = Vec::new();
    let mut i: usize = 0;
    while i < mods.len()
        invariant
            i <= mods@.len(),
            entries@ == state_of(mods@.subrange(0, i as int)),
        decreases mods.len() - i,
    {
        let m = &mods[i];
        entries.push(ModEntry { id: m.id.clone(), enabled: m.enabled, priority: m.priority });
        i = i + 1;
        assert(entries@ =~= state_of(mods@.subrange(0, i as int)));
    }
    assert(mods@.subrange(0, i as int) =~= mods@);
    BuildLoadOrderInput { mods: entries }
}

/// The (root id, relative path) of every load-order file the metadata declares.
pub fn declared_load_order_paths(metadata: &GameMetadata) -> (r: Vec<(String, String)>)
    ensures
        r@.len() == metadata.load_order_writes@.len(),
        forall|i: int|
            0 <= i < r@.len() ==> #[trigger] r@[i].0@ == metadata.load_order_writes@[i].root_id@
                && r@[i].1@ == metadata.load_order_writes@[i].relative_path@,
{
    let writes = &metadata.load_order_writes;
    let mut out: Vec<(String, String)> = Vec::new();
    let mut i: usize = 0;
    while i < writes.len()
        invariant
            writes@ == metadata.load_order_writes@,
            i <= writes@.len(),
            out@.len() == i,
            forall|j: int|
                0 <= j < i ==> #[trigger] out@[j].0@ == writes@[j].root_id@ && out@[j].1@
                    == writes@[j].relative_path@,
        decreases writes.len() - i,
    {
        out.push((writes[i].root_id.clone(), writes[i].relative_path.clone()));
        i = i + 1;
    }
    out
}

/// Accepts a file a plugin asks to write only if its metadata declared it.
pub fn ensure_declared_load_order_path(
    plugin_id: &str,
    declared_paths: &Vec<(String, String)>,
    root_id: &str,
    relative_path: &str,
) -> (r: Result<(), String>)
    ensures
        match r {
            Ok(()) => is_declared(declared_paths@, root_id@, relative_path@),
            Err(e) => !is_declared(declared_paths@, root_id@, relative_path@) && e@
                == msg_undeclared_write(plugin_id@, root_id@, relative_path@),
        },
{
    let mut i: usize = 0;
    while i < declared_paths.len()
        invariant
            i <= declared_paths@.len(),
            forall|j: int|
                0 <= j < i ==> !(#[trigger] declared_paths@[j].0@ == root_id@
                    && declared_paths@[j].1@ == relative_path@),
        decreases declared_paths.len() - i,
    {
        if str_eq(declared_paths[i].0.as_str(), root_id) && str_eq(
            declared_paths[i].1.as_str(),
            relative_path,
        ) {
            return Ok(());
        }
        i = i + 1;
    }
    let mut m = String::from_str("Plugin '");
    m.append(plugin_id);
    m.append("' returned undeclared load-order path '");
    m.append(root_id);
    m.append(":");
    m.append(relative_path);
    m.append("'");
    Err(m)
}

/// The file to write for one write a plugin asked for: it must be declared, its
/// root configured, and its path safe; it is the path joined onto the root's folder.
pub fn resolve_load_order_write(
    plugin_id: &str,
    declared_paths: &Vec<(String, String)>,
    path_roots: &PathTable,
    write: &GameFileWrite,
) -> (r: Result<String, String>)
    ensures
        match write_destination(
            plugin_id@,
            declared_paths@,
            path_roots@,
            write.root_id@,
            write.relative_path@,
        ) {
            Ok(p) => r matches Ok(q) && q@ == p,
            Err(e) => r matches Err(m) && m@ == e,
        },
{
    match ensure_declared_load_order_path(
        plugin_id,
        declared_paths,
        write.root_id.as_str(),
        write.relative_path.as_str(),
    ) {
        Err(e) => {
            return Err(e);
        },
        Ok(()) => {},
    }
    let root = match table_get(path_roots, write.root_id.as_str()) {
        Some(p) => p,
        None => {
            let mut m = String::from_str("No path configured for root '");
            m.append(write.root_id.as_str());
            m.append("' in plugin '");
            m.append(plugin_id);
            m.append("'");
            return Err(m);
        },
    };
    join_validated_plugin_path(root.as_str(), write.relative_path.as_str())
}

/// The files to write for the writes a plugin asked for, in order, up to the
/// first write that is refused, and the reason it was refused.
pub fn plan_load_order_writes(
    plugin_id: &str,
    declared_paths: &Vec<(String, String)>,
    path_roots: &PathTable,
    writes: Vec<GameFileWrite>,
) -> (r: (Vec<(String, String)>, Option<String>))
    ensures
        r.0@.len() <= writes@.len(),
        forall|i: int|
            0 <= i < r.0@.len() ==> write_destination(
                plugin_id@,
                declared_paths@,
                path_roots@,
                writes@[i].root_id@,
                writes@[i].relative_path@,
            ) == Ok::<Seq<char>, Seq<char>>((#[trigger] r.0@[i]).0@) && r.0@[i].1 == writes@[i].content,
        match r.1 {
            None => r.0@.len() == writes@.len(),
            Some(e) => r.0@.len() < writes@.len() && write_destination(
                plugin_id@,
                declared_paths@,
                path_roots@,
                writes@[r.0@.len() as int].root_id@,
                writes@[r.0@.len() as int].relative_path@,
            ) == Err::<Seq<char>, Seq<char>>(e@),
        },
{
    let mut out: Vec<(String, String)> = Vec::new();
    let mut i: usize = 0;
    while i < writes.len()
        invariant
            i <= writes@.len(),
            out@.len() == i,
            forall|j: int|
                0 <= j < i ==> write_destination(
                    plugin_id@,
                    declared_paths@,
                    path_roots@,
                    writes@[j].root_id@,
                    writes@[j].relative_path@,
                ) == Ok::<Seq<char>, Seq<char>>((#[trigger] out@[j]).0@) && out@[j].1 == writes@[j].content,
        decreases writes.len() - i,
    {
        match resolve_load_order_write(plugin_id, declared_paths, path_roots, &writes[i]) {
            Ok(path) => {
                out.push((path, writes[i].content.clone()));
            },
            Err(e) => {
                return (out, Some(e));
            },
        }
        i = i + 1;
    }
    (out, None)
}

/// A load-order file is only ever written at a path that the plugin's metadata
/// declared, below the folder configured for its root, at a relative path that
/// passed the path safety check.
pub proof fn lemma_writes_stay_declared(
    pid: Seq<char>,
    declared: Seq<(String, String)>,
    path_roots: Seq<(String, String)>,
    root_id: Seq<char>,
    path: Seq<char>,
)
    requires
        write_destination(pid, declared, path_roots, root_id, path) is Ok,
    ensures
        is_declared(declared, root_id, path),
        relative_path_check(path) is Ok,
        lookup(table_view(path_roots), root_id) is Some,
        write_destination(pid, declared, path_roots, root_id, path) == Ok::<Seq<char>, Seq<char>>(
            path_join(lookup(table_view(path_roots), root_id)->Some_0, path),
        ),
{
}

} // verus!
