//! The discovered game plugins, the active one, and the checks on what a plugin
//! declares about its game and returns for a load order.
use vstd::prelude::*;
use vstd::string::*;

use super::path_safety::{
    join_path, path_join, relative_path_check, validate_plugin_relative_path,
};
use crate::models::plugin::{copy_plugin_info, copy_plugin_metadata, PluginInfo, PluginMetadata};
use crate::models::plugin_api::{
    BuildLoadOrderOutput, GameMetadata, GamePathRoot, LoadOrderWriteTarget,
    SUPPORTED_PLUGIN_API_VERSION,
};
use crate::text::{append_decimal, decimal, is_blank, str_eq, str_is_blank};

verus! {

pub open spec fn msg_api_version(pid: Seq<char>, version: u32) -> Seq<char> {
    "Plugin '"@ + pid + "' uses API version "@ + decimal(version as nat)
        + ", but this app supports version "@ + decimal(SUPPORTED_PLUGIN_API_VERSION as nat)
}

pub open spec fn msg_no_path_roots(pid: Seq<char>) -> Seq<char> {
    "Plugin '"@ + pid + "' declares no path roots"@
}

pub open spec fn msg_empty_root_id(pid: Seq<char>) -> Seq<char> {
    "Plugin '"@ + pid + "' declares an empty path root id"@
}

pub open spec fn msg_empty_root_name(pid: Seq<char>) -> Seq<char> {
    "Plugin '"@ + pid + "' declares an empty path root name"@
}

pub open spec fn msg_duplicate_root(pid: Seq<char>, id: Seq<char>) -> Seq<char> {
    "Plugin '"@ + pid + "' declares duplicate path root '"@ + id + "'"@
}

pub open spec fn msg_undeclared_discovery_root(pid: Seq<char>, id: Seq<char>) -> Seq<char> {
    "Plugin '"@ + pid + "' uses undeclared discovery path root '"@ + id + "'"@
}

pub open spec fn msg_no_load_order_writes(pid: Seq<char>) -> Seq<char> {
    "Plugin '"@ + pid + "' declares no load-order writes"@
}

pub open spec fn msg_undeclared_write_root(pid: Seq<char>, w: LoadOrderWriteTarget) -> Seq<char> {
    "Plugin '"@ + pid + "' declares load-order path '"@ + w.relative_path@
        + "' under undeclared root '"@ + w.root_id@ + "'"@
}

pub open spec fn msg_duplicate_write(pid: Seq<char>, w: LoadOrderWriteTarget) -> Seq<char> {
    "Plugin '"@ + pid + "' declares duplicate load-order path '"@ + w.root_id@ + ":"@
        + w.relative_path@ + "'"@
}

pub open spec fn msg_plugin_not_found(pid: Seq<char>) -> Seq<char> {
    "Plugin '"@ + pid + "' not found"@
}

pub open spec fn msg_empty_wasm_path(pid: Seq<char>) -> Seq<char> {
    "Plugin '"@ + pid + "' metadata.json has an empty wasm_path"@
}

pub open spec fn msg_no_writes_returned(pid: Seq<char>) -> Seq<char> {
    "Plugin '"@ + pid + "' returned no load-order writes"@
}

/// Some declared root has the id `id`.
pub open spec fn root_declared(roots: Seq<GamePathRoot>, id: Seq<char>) -> bool {
    exists|k: int| 0 <= k < roots.len() && roots[k].id@ == id
}

/// The complaint about root `i`, which the roots before it did not raise.
pub open spec fn root_error(pid: Seq<char>, roots: Seq<GamePathRoot>, i: int) -> Option<Seq<char>> {
    if is_blank(roots[i].id@) {
        Some(msg_empty_root_id(pid))
    } else if is_blank(roots[i].name@) {
        Some(msg_empty_root_name(pid))
    } else if exists|j: int| 0 <= j < i && roots[j].id@ == roots[i].id@ {
        Some(msg_duplicate_root(pid, roots[i].id@))
    } else {
        None
    }
}

/// The first complaint about the roots from `i` on.
pub open spec fn first_root_error(pid: Seq<char>, roots: Seq<GamePathRoot>, i: int) -> Option<
    Seq<char>,
>
    decreases roots.len() - i,
{
    if 0 <= i < roots.len() {
        match root_error(pid, roots, i) {
            Some(e) => Some(e),
            None => first_root_error(pid, roots, i + 1),
        }
    } else {
        None
    }
}

/// The complaint about load-order write target `i`.
pub open spec fn write_error(
    pid: Seq<char>,
    roots: Seq<GamePathRoot>,
    writes: Seq<LoadOrderWriteTarget>,
    i: int,
) -> Option<Seq<char>> {
    let w = writes[i];
    if !root_declared(roots, w.root_id@) {
        Some(msg_undeclared_write_root(pid, w))
    } else {
        match relative_path_check(w.relative_path@) {
            Err(e) => Some(e),
            Ok(_) => if exists|j: int|
                0 <= j < i && writes[j].root_id@ == w.root_id@ && writes[j].relative_path@
                    == w.relative_path@ {
                Some(msg_duplicate_write(pid, w))
            } else {
                None
            },
        }
    }
}

/// The first complaint about the load-order write targets from `i` on.
pub open spec fn first_write_error(
    pid: Seq<char>,
    roots: Seq<GamePathRoot>,
    writes: Seq<LoadOrderWriteTarget>,
    i: int,
) -> Option<Seq<char>>
    decreases writes.len() - i,
{
    if 0 <= i < writes.len() {
        match write_error(pid, roots, writes, i) {
            Some(e) => Some(e),
            None => first_write_error(pid, roots, writes, i + 1),
        }
    } else {
        None
    }
}

/// What `validate_game_metadata` returns: the first check that `m` fails, in the
/// order API version, roots, discovery root and path, load-order writes.
pub open spec fn metadata_check(pid: Seq<char>, m: GameMetadata) -> Result<(), Seq<char>> {
    let roots = m.path_roots@;
    let writes = m.load_order_writes@;
    if m.api_version != SUPPORTED_PLUGIN_API_VERSION {
        Err(msg_api_version(pid, m.api_version))
    } else if roots.len() == 0 {
        Err(msg_no_path_roots(pid))
    } else if first_root_error(pid, roots, 0) is Some {
        Err(first_root_error(pid, roots, 0)->Some_0)
    } else if !root_declared(roots, m.mod_discovery.root_id@) {
        Err(msg_undeclared_discovery_root(pid, m.mod_discovery.root_id@))
    } else if relative_path_check(m.mod_discovery.relative_path@) is Err {
        relative_path_check(m.mod_discovery.relative_path@)
    } else if writes.len() == 0 {
        Err(msg_no_load_order_writes(pid))
    } else if first_write_error(pid, roots, writes, 0) is Some {
        Err(first_write_error(pid, roots, writes, 0)->Some_0)
    } else {
        Ok(())
    }
}

/// `"Plugin '" + pid + tail`.
fn plugin_message(pid: &str, tail: &str) -> (r: String)
    ensures
        r@ == "Plugin '"@ + pid@ + tail@,
{
    let mut m = String::from_str("Plugin '");
    m.append(pid);
    m.append(tail);
    m
}

fn root_id_declared(roots: &Vec<GamePathRoot>, id: &str) -> (r: bool)
    ensures
        r == root_declared(roots@, id@),
{
    let mut k: usize = 0;
    while k < roots.len()
        invariant
            k <= roots@.len(),
            forall|j: int| 0 <= j < k ==> roots@[j].id@ != id@,
        decreases roots.len() - k,
    {
        if str_eq(roots[k].id.as_str(), id) {
            return true;
        }
        k = k + 1;
    }
    false
}

fn check_root(pid: &str, roots: &Vec<GamePathRoot>, i: usize) -> (r: Result<(), String>)
    requires
        i < roots@.len(),
    ensures
        match r {
            Ok(()) => root_error(pid@, roots@, i as int) is None,
            Err(e) => root_error(pid@, roots@, i as int) == Some(e@),
        },
{
    let root = &roots[i];
    if str_is_blank(root.id.as_str()) {
        return Err(plugin_message(pid, "' declares an empty path root id"));
    }
    if str_is_blank(root.name.as_str()) {
        return Err(plugin_message(pid, "' declares an empty path root name"));
    }
    let mut j: usize = 0;
    while j < i
        invariant
            i < roots@.len(),
            !is_blank(roots@[i as int].id@),
            !is_blank(roots@[i as int].name@),
            j <= i,
            forall|k: int| 0 <= k < j ==> roots@[k].id@ != roots@[i as int].id@,
        decreases i - j,
    {
        if str_eq(roots[j].id.as_str(), roots[i].id.as_str()) {
            assert(roots@[j as int].id@ == roots@[i as int].id@);
            let mut m = plugin_message(pid, "' declares duplicate path root '");
            m.append(roots[i].id.as_str());
            m.append("'");
            return Err(m);
        }
        j = j + 1;
    }
    Ok(())
}

fn check_write(
    pid: &str,
    roots: &Vec<GamePathRoot>,
    writes: &Vec<LoadOrderWriteTarget>,
    i: usize,
) -> (r: Result<(), String>)
    requires
        i < writes@.len(),
    ensures
        match r {
            Ok(()) => write_error(pid@, roots@, writes@, i as int) is None,
            Err(e) => write_error(pid@, roots@, writes@, i as int) == Some(e@),
        },
{
    let w = &writes[i];
    if !root_id_declared(roots, w.root_id.as_str()) {
        let mut m = plugin_message(pid, "' declares load-order path '");
        m.append(w.relative_path.as_str());
        m.append("' under undeclared root '");
        m.append(w.root_id.as_str());
        m.append("'");
        return Err(m);
    }
    match validate_plugin_relative_path(w.relative_path.as_str()) {
        Err(e) => {
            return Err(e);
        },
        Ok(()) => {},
    }
    let mut j: usize = 0;
    while j < i
        invariant
            i < writes@.len(),
            root_declared(roots@, writes@[i as int].root_id@),
            relative_path_check(writes@[i as int].relative_path@) is Ok,
            j <= i,
            forall|k: int|
                0 <= k < j ==> !(writes@[k].root_id@ == writes@[i as int].root_id@
                    && writes@[k].relative_path@ == writes@[i as int].relative_path@),
        decreases i - j,
    {
        if str_eq(writes[j].root_id.as_str(), writes[i].root_id.as_str()) && str_eq(
            writes[j].relative_path.as_str(),
            writes[i].relative_path.as_str(),
        ) {
            assert(writes@[j as int].root_id@ == writes@[i as int].root_id@
                && writes@[j as int].relative_path@ == writes@[i as int].relative_path@);
            let mut m = plugin_message(pid, "' declares duplicate load-order path '");
            m.append(writes[i].root_id.as_str());
            m.append(":");
            m.append(writes[i].relative_path.as_str());
            m.append("'");
            return Err(m);
        }
        j = j + 1;
    }
    Ok(())
}

/// Checks what a plugin declares about its game: the API version, non-blank and
/// distinct path roots, a safe discovery path under a declared root, and at least
/// one load-order write, each a safe path under a declared root and none twice.
pub fn validate_game_metadata(plugin_id: &str, metadata: &GameMetadata) -> (r: Result<(), String>)
    ensures
        match r {
            Ok(()) => metadata_check(plugin_id@, *metadata) is Ok,
            Err(e) => metadata_check(plugin_id@, *metadata) == Err::<(), Seq<char>>(e@),
        },
{
    if metadata.api_version != SUPPORTED_PLUGIN_API_VERSION {
        let mut m = plugin_message(plugin_id, "' uses API version ");
        append_decimal(&mut m, metadata.api_version as u64);
        m.append(", but this app supports version ");
        append_decimal(&mut m, SUPPORTED_PLUGIN_API_VERSION as u64);
        return Err(m);
    }
    let roots = &metadata.path_roots;
    if roots.len() == 0 {
        return Err(plugin_message(plugin_id, "' declares no path roots"));
    }
    let mut i: usize = 0;
    while i < roots.len()
        invariant
            roots@ == metadata.path_roots@,
            metadata.api_version == SUPPORTED_PLUGIN_API_VERSION,
            roots@.len() > 0,
            i <= roots@.len(),
            first_root_error(plugin_id@, roots@, 0) == first_root_error(
                plugin_id@,
                roots@,
                i as int,
            ),
        decreases roots.len() - i,
    {
        match check_root(plugin_id, roots, i) {
            Err(e) => {
                return Err(e);
            },
            Ok(()) => {},
        }
        i = i + 1;
    }
    let discovery = &metadata.mod_discovery;
    if !root_id_declared(roots, discovery.root_id.as_str()) {
        let mut m = plugin_message(plugin_id, "' uses undeclared discovery path root '");
        m.append(discovery.root_id.as_str());
        m.append("'");
        return Err(m);
    }
    match validate_plugin_relative_path(discovery.relative_path.as_str()) {
        Err(e) => {
            return Err(e);
        },
        Ok(()) => {},
    }
    let writes = &metadata.load_order_writes;
    if writes.len() == 0 {
        return Err(plugin_message(plugin_id, "' declares no load-order writes"));
    }
    let mut i: usize = 0;
    while i < writes.len()
        invariant
            writes@ == metadata.load_order_writes@,
            roots@ == metadata.path_roots@,
            metadata.api_version == SUPPORTED_PLUGIN_API_VERSION,
            roots@.len() > 0,
            first_root_error(plugin_id@, roots@, 0) is None,
            root_declared(roots@, metadata.mod_discovery.root_id@),
            relative_path_check(metadata.mod_discovery.relative_path@) is Ok,
            writes@.len() > 0,
            i <= writes@.len(),
            first_write_error(plugin_id@, roots@, writes@, 0) == first_write_error(
                plugin_id@,
                roots@,
                writes@,
                i as int,
            ),
        decreases writes.len() - i,
    {
        match check_write(plugin_id, roots, writes, i) {
            Err(e) => {
                return Err(e);
            },
            Ok(()) => {},
        }
        i = i + 1;
    }
    Ok(())
}

proof fn lemma_no_root_error_from(pid: Seq<char>, roots: Seq<GamePathRoot>, i: int, k: int)
    requires
        0 <= i <= k < roots.len(),
        first_root_error(pid, roots, i) is None,
    ensures
        root_error(pid, roots, k) is None,
    decreases k - i,
{
    if i < k {
        lemma_no_root_error_from(pid, roots, i + 1, k);
    }
}

proof fn lemma_no_write_error_from(
    pid: Seq<char>,
    roots: Seq<GamePathRoot>,
    writes: Seq<LoadOrderWriteTarget>,
    i: int,
    k: int,
)
    requires
        0 <= i <= k < writes.len(),
        first_write_error(pid, roots, writes, i) is None,
    ensures
        write_error(pid, roots, writes, k) is None,
    decreases k - i,
{
    if i < k {
        lemma_no_write_error_from(pid, roots, writes, i + 1, k);
    }
}

/// Metadata that passes validation declares the supported API version; at least
/// one path root, each with a non-blank id and name, no two with the same id; a
/// discovery folder under a declared root at a safe relative path; and at least
/// one load-order write, each under a declared root at a safe relative path, no
/// two naming the same file.
pub proof fn lemma_validated_metadata_well_formed(pid: Seq<char>, m: GameMetadata)
    requires
        metadata_check(pid, m) is Ok,
    ensures
        m.api_version == SUPPORTED_PLUGIN_API_VERSION,
        m.path_roots@.len() > 0,
        forall|i: int|
            0 <= i < m.path_roots@.len() ==> !is_blank(#[trigger] m.path_roots@[i].id@)
                && !is_blank(m.path_roots@[i].name@),
        forall|i: int, j: int|
            0 <= i < j < m.path_roots@.len() ==> #[trigger] m.path_roots@[i].id@
                != #[trigger] m.path_roots@[j].id@,
        root_declared(m.path_roots@, m.mod_discovery.root_id@),
        relative_path_check(m.mod_discovery.relative_path@) is Ok,
        m.load_order_writes@.len() > 0,
        forall|i: int|
            0 <= i < m.load_order_writes@.len() ==> root_declared(
                m.path_roots@,
                #[trigger] m.load_order_writes@[i].root_id@,
            ) && relative_path_check(m.load_order_writes@[i].relative_path@) is Ok,
        forall|i: int, j: int|
            0 <= i < j < m.load_order_writes@.len() ==> !(#[trigger] m.load_order_writes@[i].root_id@
                == #[trigger] m.load_order_writes@[j].root_id@ && m.load_order_writes@[i].relative_path@
                == m.load_order_writes@[j].relative_path@),
{
    let roots = m.path_roots@;
    let writes = m.load_order_writes@;
    assert forall|i: int| 0 <= i < roots.len() implies !is_blank(#[trigger] roots[i].id@)
        && !is_blank(roots[i].name@) by {
        lemma_no_root_error_from(pid, roots, 0, i);
    }
    assert forall|i: int, j: int| 0 <= i < j < roots.len() implies #[trigger] roots[i].id@
        != #[trigger] roots[j].id@ by {
        lemma_no_root_error_from(pid, roots, 0, j);
    }
    assert forall|i: int| 0 <= i < writes.len() implies root_declared(
        roots,
        #[trigger] writes[i].root_id@,
    ) && relative_path_check(writes[i].relative_path@) is Ok by {
        lemma_no_write_error_from(pid, roots, writes, 0, i);
    }
    assert forall|i: int, j: int| 0 <= i < j < writes.len() implies !(
    #[trigger] writes[i].root_id@ == #[trigger] writes[j].root_id@ && writes[i].relative_path@
        == writes[j].relative_path@) by {
        lemma_no_write_error_from(pid, roots, writes, 0, j);
    }
}

proof fn lemma_roots_accepted_from(pid: Seq<char>, roots: Seq<GamePathRoot>, i: int)
    requires
        0 <= i <= roots.len(),
        forall|k: int| 0 <= k < roots.len() ==> !is_blank(#[trigger] roots[k].id@) && !is_blank(roots[k].name@),
        forall|k: int, j: int| 0 <= k < j < roots.len() ==> #[trigger] roots[k].id@ != #[trigger] roots[j].id@,
    ensures
        first_root_error(pid, roots, i) is None,
    decreases roots.len() - i,
{
    if i < roots.len() {
        lemma_roots_accepted_from(pid, roots, i + 1);
        assert(!(exists|j: int| 0 <= j < i && roots[j].id@ == roots[i].id@)) by {
            assert forall|j: int| 0 <= j < i implies roots[j].id@ != roots[i].id@ by {
                assert(roots[j].id@ != roots[i].id@);
            }
        }
    }
}

proof fn lemma_writes_accepted_from(
    pid: Seq<char>,
    roots: Seq<GamePathRoot>,
    writes: Seq<LoadOrderWriteTarget>,
    i: int,
)
    requires
        0 <= i <= writes.len(),
        forall|k: int|
            0 <= k < writes.len() ==> (exists|r: int| 0 <= r < roots.len() && roots[r].id@ == (#[trigger] writes[k]).root_id@)
                && relative_path_check(writes[k].relative_path@) is Ok,
        forall|k: int, j: int|
            0 <= k < j < writes.len() ==> !(#[trigger] writes[k].root_id@ == #[trigger] writes[j].root_id@
                && writes[k].relative_path@ == writes[j].relative_path@),
    ensures
        first_write_error(pid, roots, writes, i) is None,
    decreases writes.len() - i,
{
    if i < writes.len() {
        lemma_writes_accepted_from(pid, roots, writes, i + 1);
        let w = writes[i];
        assert(root_declared(roots, w.root_id@));
        assert(relative_path_check(w.relative_path@) is Ok);
        assert(!(exists|j: int|
            0 <= j < i && writes[j].root_id@ == w.root_id@ && writes[j].relative_path@ == w.relative_path@)) by {
            assert forall|j: int| 0 <= j < i implies !(writes[j].root_id@ == w.root_id@
                && writes[j].relative_path@ == w.relative_path@) by {
                assert(!(writes[j].root_id@ == writes[i].root_id@ && writes[j].relative_path@
                    == writes[i].relative_path@));
            }
        }
    }
}

/// Metadata is accepted when it declares the supported API version; at least one
/// path root, each with a non-blank id and name, no two with the same id; a
/// discovery folder under a declared root at a safe relative path; and at least
/// one load-order write, each under a declared root at a safe relative path, no
/// two naming the same file (the same relative path under the same root). Writes
/// with the same path under different roots name different files and are accepted.
pub proof fn lemma_well_formed_metadata_accepted(pid: Seq<char>, m: GameMetadata)
    requires
        m.api_version == SUPPORTED_PLUGIN_API_VERSION,
        m.path_roots@.len() > 0,
        forall|i: int|
            0 <= i < m.path_roots@.len() ==> !is_blank(#[trigger] m.path_roots@[i].id@)
                && !is_blank(m.path_roots@[i].name@),
        forall|i: int, j: int|
            0 <= i < j < m.path_roots@.len() ==> #[trigger] m.path_roots@[i].id@
                != #[trigger] m.path_roots@[j].id@,
        exists|r: int| 0 <= r < m.path_roots@.len() && m.path_roots@[r].id@ == m.mod_discovery.root_id@,
        relative_path_check(m.mod_discovery.relative_path@) is Ok,
        m.load_order_writes@.len() > 0,
        forall|i: int|
            0 <= i < m.load_order_writes@.len() ==> (exists|r: int|
                0 <= r < m.path_roots@.len() && m.path_roots@[r].id@ == (
                #[trigger] m.load_order_writes@[i]).root_id@) && relative_path_check(
                m.load_order_writes@[i].relative_path@,
            ) is Ok,
        forall|i: int, j: int|
            0 <= i < j < m.load_order_writes@.len() ==> !(#[trigger] m.load_order_writes@[i].root_id@
                == #[trigger] m.load_order_writes@[j].root_id@ && m.load_order_writes@[i].relative_path@
                == m.load_order_writes@[j].relative_path@),
    ensures
        metadata_check(pid, m) is Ok,
{
    lemma_roots_accepted_from(pid, m.path_roots@, 0);
    lemma_writes_accepted_from(pid, m.path_roots@, m.load_order_writes@, 0);
}

/// Checks that a plugin asked for at least one load-order file.
pub fn check_load_order_output(plugin_id: &str, output: BuildLoadOrderOutput) -> (r: Result<
    BuildLoadOrderOutput,
    String,
>)
    ensures
        match r {
            Ok(o) => output.writes@.len() > 0 && o == output,
            Err(e) => output.writes@.len() == 0 && e@ == msg_no_writes_returned(plugin_id@),
        },
{
    if output.writes.len() == 0 {
        return Err(plugin_message(plugin_id, "' returned no load-order writes"));
    }
    Ok(output)
}

/// A plugin found in the plugins folder.
pub struct DiscoveredPlugin {
    pub info: PluginInfo,
    pub metadata: PluginMetadata,
    pub dir: String,
}

/// The position of the first plugin with id `pid`, if any.
pub open spec fn plugin_index(plugins: Seq<DiscoveredPlugin>, pid: Seq<char>) -> Option<int> {
    if exists|i: int| 0 <= i < plugins.len() && plugins[i].info.id@ == pid {
        Some(
            choose|i: int|
                0 <= i < plugins.len() && plugins[i].info.id@ == pid && forall|j: int|
                    0 <= j < i ==> plugins[j].info.id@ != pid,
        )
    } else {
        None
    }
}

/// An entry of the plugins folder as the listing shows it: its file name, its
/// path, whether it is a folder, and, for a folder that holds a
/// `metadata.json`, the contents of that file.
pub struct PluginDirEntry {
    pub file_name: String,
    pub path: String,
    pub is_dir: bool,
    pub metadata: Option<PluginMetadata>,
}

/// The entries that are plugins: folders with a `metadata.json`, in listing order.
pub open spec fn plugin_entries(entries: Seq<PluginDirEntry>) -> Seq<PluginDirEntry>
    decreases entries.len(),
{
    if entries.len() == 0 {
        Seq::empty()
    } else {
        let prev = plugin_entries(entries.drop_last());
        let e = entries.last();
        if e.is_dir && e.metadata is Some {
            prev.push(e)
        } else {
            prev
        }
    }
}

/// `p` is the plugin of folder entry `e`: its id is the folder's name, its name
/// that of the metadata, and its icon the metadata's icon path joined onto the folder.
pub open spec fn plugin_from_entry(p: DiscoveredPlugin, e: PluginDirEntry) -> bool {
    match e.metadata {
        Some(md) => {
            &&& p.info.id == e.file_name
            &&& p.info.name == md.name
            &&& p.info.icon_path@ == path_join(e.path@, md.icon_path@)
            &&& p.metadata == md
            &&& p.dir == e.path
        },
        None => false,
    }
}

/// `plugins` are the plugins of the folder entries, one per plugin entry, in order.
pub open spec fn discovered_from(plugins: Seq<DiscoveredPlugin>, entries: Seq<PluginDirEntry>) -> bool {
    let kept = plugin_entries(entries);
    &&& plugins.len() == kept.len()
    &&& forall|i: int| 0 <= i < kept.len() ==> plugin_from_entry(#[trigger] plugins[i], kept[i])
}

/// Discovery rebuilds the list: two discoveries over the same folder entries give
/// the same plugins, each once, whatever was listed before either of them.
pub proof fn lemma_discovery_rebuilds(
    first: Seq<DiscoveredPlugin>,
    second: Seq<DiscoveredPlugin>,
    entries: Seq<PluginDirEntry>,
)
    requires
        discovered_from(first, entries),
        discovered_from(second, entries),
    ensures
        first.len() == second.len(),
        forall|i: int|
            0 <= i < first.len() ==> (#[trigger] first[i]).info.id == second[i].info.id
                && first[i].info.name == second[i].info.name && first[i].info.icon_path@
                == second[i].info.icon_path@ && first[i].metadata == second[i].metadata
                && first[i].dir == second[i].dir,
{
    let kept = plugin_entries(entries);
    assert forall|i: int| 0 <= i < first.len() implies (#[trigger] first[i]).info.id == second[i].info.id
        && first[i].info.name == second[i].info.name && first[i].info.icon_path@
        == second[i].info.icon_path@ && first[i].metadata == second[i].metadata && first[i].dir
        == second[i].dir by {
        assert(plugin_from_entry(first[i], kept[i]));
        assert(plugin_from_entry(second[i], kept[i]));
    }
}

/// What a caller can do that bears on the active plugin.
pub enum PluginCall {
    /// Discover the plugins again.
    Discover,
    /// Select plugin `id`; `ok` tells whether the selection succeeded.
    Select { id: Seq<char>, ok: bool },
}

/// The active plugin `after` is what `call` leaves of the active plugin `before`.
pub open spec fn active_step(before: Option<Seq<char>>, call: PluginCall, after: Option<Seq<char>>) -> bool {
    match call {
        PluginCall::Discover => after == before,
        PluginCall::Select { id, ok } => if ok {
            after == Some(id)
        } else {
            after == before
        },
    }
}

/// The id of the last successful selection among `calls`, or `start` if none succeeded.
pub open spec fn last_selected(start: Option<Seq<char>>, calls: Seq<PluginCall>) -> Option<Seq<char>>
    decreases calls.len(),
{
    if calls.len() == 0 {
        start
    } else {
        match calls.last() {
            PluginCall::Select { id, ok } => if ok {
                Some(id)
            } else {
                last_selected(start, calls.drop_last())
            },
            PluginCall::Discover => last_selected(start, calls.drop_last()),
        }
    }
}

/// After any discoveries and selections, the active plugin is the one of the
/// last successful selection, or the starting one (none, for a new
/// `PluginManager`) when no selection succeeded: `actives[i + 1]` is what
/// `calls[i]` leaves of `actives[i]`.
pub proof fn lemma_active_is_last_selected(actives: Seq<Option<Seq<char>>>, calls: Seq<PluginCall>)
    requires
        actives.len() == calls.len() + 1,
        forall|i: int| 0 <= i < calls.len() ==> active_step(actives[i], #[trigger] calls[i], actives[i + 1]),
    ensures
        actives.last() == last_selected(actives[0], calls),
    decreases calls.len(),
{
    if calls.len() > 0 {
        let n = calls.len() - 1;
        assert forall|i: int| 0 <= i < calls.drop_last().len() implies active_step(
            actives.drop_last()[i],
            #[trigger] calls.drop_last()[i],
            actives.drop_last()[i + 1],
        ) by {
            assert(active_step(actives[i], calls[i], actives[i + 1]));
        }
        lemma_active_is_last_selected(actives.drop_last(), calls.drop_last());
        assert(active_step(actives[n], calls[n], actives[n + 1]));
    }
}

/// The discovered plugins and the one the user selected.
pub struct PluginManager {
    plugins: Vec<DiscoveredPlugin>,
    plugins_dir: String,
    active_plugin_id: Option<String>,
}

impl PluginManager {
    pub closed spec fn spec_plugins(&self) -> Seq<DiscoveredPlugin> {
        self.plugins@
    }

    pub closed spec fn spec_plugins_dir(&self) -> Seq<char> {
        self.plugins_dir@
    }

    pub closed spec fn spec_active_plugin_id(&self) -> Option<Seq<char>> {
        match self.active_plugin_id {
            Some(s) => Some(s@),
            None => None,
        }
    }

    /// No plugins, none active; plugins are looked for in `data_dir/plugins`.
    pub fn new(data_dir: &str) -> (r: PluginManager)
        ensures
            r.spec_plugins().len() == 0,
            r.spec_plugins_dir() == path_join(data_dir@, "plugins"@),
            r.spec_active_plugin_id() is None,
    {
        PluginManager {
            plugins: Vec::new(),
            plugins_dir: join_path(data_dir, "plugins"),
            active_plugin_id: None,
        }
    }

    /// The folder that holds one sub-folder per plugin.
    pub fn plugins_dir(&self) -> (r: &str)
        ensures
            r@ == self.spec_plugins_dir(),
    {
        self.plugins_dir.as_str()
    }

    /// Lists again the plugins of the plugins folder, given its entries in listing
    /// order: one plugin per folder with a `metadata.json`, whose id is the
    /// folder's name; other entries are skipped. The selection stays.
    pub fn discover_plugins(&mut self, entries: Vec<PluginDirEntry>)
        ensures
            discovered_from(final(self).spec_plugins(), entries@),
            final(self).spec_plugins_dir() == old(self).spec_plugins_dir(),
            final(self).spec_active_plugin_id() == old(self).spec_active_plugin_id(),
            active_step(
                old(self).spec_active_plugin_id(),
                PluginCall::Discover,
                final(self).spec_active_plugin_id(),
            ),
    {
        let mut found: Vec<DiscoveredPlugin> = Vec::new();
        let mut i: usize = 0;
        while i < entries.len()
            invariant
                i <= entries@.len(),
                discovered_from(found@, entries@.subrange(0, i as int)),
            decreases entries.len() - i,
        {
            let ghost before = found@;
            let e = &entries[i];
            assert(entries@.subrange(0, i + 1).drop_last() =~= entries@.subrange(0, i as int));
            if e.is_dir {
                match &e.metadata {
                    Some(md) => {
                        let metadata = copy_plugin_metadata(md);
                        let icon_path = join_path(e.path.as_str(), metadata.icon_path.as_str());
                        let info = PluginInfo {
                            id: e.file_name.clone(),
                            name: metadata.name.clone(),
                            icon_path,
                        };
                        found.push(DiscoveredPlugin { info, metadata, dir: e.path.clone() });
                        proof {
                            let kept = plugin_entries(entries@.subrange(0, i + 1));
                            assert(kept == plugin_entries(entries@.subrange(0, i as int)).push(
                                entries@[i as int],
                            ));
                            assert forall|t: int| 0 <= t < kept.len() implies plugin_from_entry(
                                #[trigger] found@[t],
                                kept[t],
                            ) by {
                                if t < before.len() {
                                    assert(found@[t] == before[t]);
                                }
                            }
                        }
                    },
                    None => {},
                }
            }
            i = i + 1;
        }
        assert(entries@.subrange(0, i as int) =~= entries@);
        self.plugins = found;
    }

    /// The discovered plugins, in the order they were found.
    pub fn list_plugins(&self) -> (r: Vec<PluginInfo>)
        ensures
            r@ == self.spec_plugins().map_values(|p: DiscoveredPlugin| p.info),
    {
        let mut out: Vec<PluginInfo> = Vec::new();
        let mut i: usize = 0;
        while i < self.plugins.len()
            invariant
                i <= self.plugins@.len(),
                out@ == self.plugins@.subrange(0, i as int).map_values(
                    |p: DiscoveredPlugin| p.info,
                ),
            decreases self.plugins.len() - i,
        {
            out.push(copy_plugin_info(&self.plugins[i].info));
            i = i + 1;
            assert(out@ =~= self.plugins@.subrange(0, i as int).map_values(
                |p: DiscoveredPlugin| p.info,
            ));
        }
        assert(self.plugins@.subrange(0, i as int) =~= self.plugins@);
        out
    }

    fn find_plugin(&self, plugin_id: &str) -> (r: Option<usize>)
        ensures
            match r {
                Some(i) => plugin_index(self.spec_plugins(), plugin_id@) == Some(i as int) && i
                    < self.spec_plugins().len(),
                None => plugin_index(self.spec_plugins(), plugin_id@) is None,
            },
    {
        let mut i: usize = 0;
        while i < self.plugins.len()
            invariant
                i <= self.plugins@.len(),
                forall|j: int| 0 <= j < i ==> self.plugins@[j].info.id@ != plugin_id@,
            decreases self.plugins.len() - i,
        {
            if str_eq(self.plugins[i].info.id.as_str(), plugin_id) {
                proof {
                    let ps = self.plugins@;
                    let k = choose|k: int|
                        0 <= k < ps.len() && ps[k].info.id@ == plugin_id@ && forall|j: int|
                            0 <= j < k ==> ps[j].info.id@ != plugin_id@;
                    assert(k == i) by {
                        if k < i {
                            assert(ps[k].info.id@ != plugin_id@);
                        } else if i < k {
                            assert(ps[i as int].info.id@ == plugin_id@);
                        }
                    }
                }
                return Some(i);
            }
            i = i + 1;
        }
        None
    }

    /// Makes `plugin_id` the active plugin if such a plugin was discovered.
    pub fn select_plugin(&mut self, plugin_id: &str) -> (r: Result<(), String>)
        ensures
            final(self).spec_plugins() == old(self).spec_plugins(),
            final(self).spec_plugins_dir() == old(self).spec_plugins_dir(),
            active_step(
                old(self).spec_active_plugin_id(),
                PluginCall::Select { id: plugin_id@, ok: r is Ok },
                final(self).spec_active_plugin_id(),
            ),
            match r {
                Ok(()) => plugin_index(old(self).spec_plugins(), plugin_id@) is Some
                    && final(self).spec_active_plugin_id() == Some(plugin_id@),
                Err(e) => plugin_index(old(self).spec_plugins(), plugin_id@) is None && e@
                    == msg_plugin_not_found(plugin_id@) && final(self).spec_active_plugin_id()
                    == old(self).spec_active_plugin_id(),
            },
    {
        match self.find_plugin(plugin_id) {
            None => {
                Err(plugin_message(plugin_id, "' not found"))
            },
            Some(_) => {
                self.active_plugin_id = Some(String::from_str(plugin_id));
                Ok(())
            },
        }
    }

    /// The id of the active plugin, if one was selected.
    pub fn get_active_plugin_id(&self) -> (r: Option<&str>)
        ensures
            match r {
                Some(s) => self.spec_active_plugin_id() == Some(s@),
                None => self.spec_active_plugin_id() is None,
            },
    {
        match &self.active_plugin_id {
            Some(s) => Some(s.as_str()),
            None => None,
        }
    }

    /// The WASM file of plugin `plugin_id`: the path its metadata declares and
    /// that path joined onto the plugin's folder.
    pub fn wasm_location(&self, plugin_id: &str) -> (r: Result<(String, String), String>)
        ensures
            match plugin_index(self.spec_plugins(), plugin_id@) {
                None => r matches Err(e) && e@ == msg_plugin_not_found(plugin_id@),
                Some(i) => {
                    let p = self.spec_plugins()[i];
                    if is_blank(p.metadata.wasm_path@) {
                        r matches Err(e) && e@ == msg_empty_wasm_path(plugin_id@)
                    } else {
                        r matches Ok(loc) && loc.0@ == p.metadata.wasm_path@ && loc.1@
                            == path_join(p.dir@, p.metadata.wasm_path@)
                    }
                },
            },
    {
        match self.find_plugin(plugin_id) {
            None => Err(plugin_message(plugin_id, "' not found")),
            Some(i) => {
                let p = &self.plugins[i];
                if str_is_blank(p.metadata.wasm_path.as_str()) {
                    return Err(plugin_message(plugin_id, "' metadata.json has an empty wasm_path"));
                }
                Ok(
                    (
                        p.metadata.wasm_path.clone(),
                        join_path(p.dir.as_str(), p.metadata.wasm_path.as_str()),
                    ),
                )
            },
        }
    }
}

} // verus!
