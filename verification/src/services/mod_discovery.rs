//! Recognising mods among the entries of a game's discovery folder: one mod per
//! sub-folder, or one mod per plugin file with an accepted extension.
use vstd::prelude::*;
use vstd::string::*;

use super::mod_manager::{
    has_id,    distinct_entry_ids, distinct_ids, lemma_saved_state_per_mod, mod_step, sorted_by_priority,
    with_saved_state, ModCall, ModManager,
};
use super::path_safety::{join_path, join_validated_plugin_path, path_join, relative_path_check};
use crate::models::config::table_get;
use crate::models::plugin_api::{ModDiscovery, ModDiscoveryMode};
use crate::models::table::{lookup, table_view, PathTable};
use crate::models::game_mod::{mods_view, ModEntry, ModInfo, ModInfoView};
use crate::text::{
    ascii_lower_seq, char_ascii_lower, chars_eq, chars_last_index_of, chars_of, last_index_of,
    lemma_last_index_of_bounds, str_eq, str_starts_with,
};

verus! {

/// One entry of a discovery folder as the file system reported it; for a
/// sub-folder, `metadata_json` holds its metadata file when the discovery mode
/// names one and the file exists.
#[derive(Debug, Clone, PartialEq, Eq)]
pub struct ScannedEntry {
    pub file_name: String,
    pub is_dir: bool,
    pub is_file: bool,
    pub metadata_json: Option<String>,
}

/// The string member `key` of the JSON object `text`: `Err` with the parser's
/// message when `text` is not JSON, `None` when there is no such string member.
pub uninterp spec fn json_string_member(text: Seq<char>, key: Seq<char>) -> Result<
    Option<Seq<char>>,
    Seq<char>,
>;

/// Calls `serde_json::from_str::<serde_json::Value>` on `text`, then
/// `Value::get(key)` and `Value::as_str` on the result. The contract claims only
/// that the outcome is determined by `text` and `key`: the parser's error message,
/// or the string member if there is one. What JSON `serde_json` accepts is not stated.
#[verifier::external_body]
fn json_str_member(text: &str, key: &str) -> (r: Result<Option<String>, String>)
    ensures
        match r {
            Ok(Some(s)) => json_string_member(text@, key@) == Ok::<Option<Seq<char>>, Seq<char>>(
                Some(s@),
            ),
            Ok(None) => json_string_member(text@, key@) == Ok::<Option<Seq<char>>, Seq<char>>(
                None,
            ),
            Err(e) => json_string_member(text@, key@) == Err::<Option<Seq<char>>, Seq<char>>(e@),
        },
{
    match serde_json::from_str::<serde_json::Value>(text) {
        Ok(v) => Ok(v.get(key).and_then(serde_json::Value::as_str).map(str::to_string)),
        Err(e) => Err(e.to_string()),
    }
}

pub open spec fn msg_bad_metadata(path: Seq<char>, err: Seq<char>) -> Seq<char> {
    "Failed to parse mod metadata '"@ + path + "': "@ + err
}

/// `Option::unwrap_or`.
pub open spec fn or_default(o: Option<Seq<char>>, d: Seq<char>) -> Seq<char> {
    match o {
        Some(s) => s,
        None => d,
    }
}

/// Name, version and description of a directory mod from its metadata file:
/// the string members `name`, `version` and `description`, defaulting to the
/// mod id, `1.0` and the empty string.
pub open spec fn metadata_fields(text: Seq<char>, id: Seq<char>, path: Seq<char>) -> Result<
    (Seq<char>, Seq<char>, Seq<char>),
    Seq<char>,
> {
    match json_string_member(text, "name"@) {
        Err(e) => Err(msg_bad_metadata(path, e)),
        Ok(n) => match json_string_member(text, "version"@) {
            Err(e) => Err(msg_bad_metadata(path, e)),
            Ok(v) => match json_string_member(text, "description"@) {
                Err(e) => Err(msg_bad_metadata(path, e)),
                Ok(d) => Ok((or_default(n, id), or_default(v, "1.0"@), or_default(d, ""@))),
            },
        },
    }
}

/// The fields of a directory mod without metadata.
pub open spec fn default_fields(id: Seq<char>) -> (Seq<char>, Seq<char>, Seq<char>) {
    (id, "1.0"@, "Directory mod"@)
}

/// The entry is a sub-folder whose name has the required prefix, if there is one.
pub open spec fn dir_selected(e: ScannedEntry, prefix: Option<Seq<char>>) -> bool {
    e.is_dir && match prefix {
        None => true,
        Some(p) => p.len() <= e.file_name@.len() && e.file_name@.subrange(0, p.len() as int)
            == p,
    }
}

/// The fields of the directory mod of entry `e`.
pub open spec fn directory_fields(mods_path: Seq<char>, e: ScannedEntry, metadata_file: Option<
    Seq<char>,
>) -> Result<(Seq<char>, Seq<char>, Seq<char>), Seq<char>> {
    match (metadata_file, e.metadata_json) {
        (Some(f), Some(text)) => metadata_fields(
            text@,
            e.file_name@,
            path_join(path_join(mods_path, e.file_name@), f),
        ),
        _ => Ok(default_fields(e.file_name@)),
    }
}

/// The directory mods among the first `k` entries, enabled, numbered in order of
/// discovery; the first unreadable metadata file makes it an error.
pub open spec fn scan_directory_mods(
    mods_path: Seq<char>,
    entries: Seq<ScannedEntry>,
    prefix: Option<Seq<char>>,
    metadata_file: Option<Seq<char>>,
    k: int,
) -> Result<Seq<ModInfoView>, Seq<char>>
    decreases k,
{
    if k <= 0 {
        Ok(Seq::empty())
    } else {
        match scan_directory_mods(mods_path, entries, prefix, metadata_file, k - 1) {
            Err(e) => Err(e),
            Ok(acc) => {
                let e = entries[k - 1];
                if !dir_selected(e, prefix) {
                    Ok(acc)
                } else {
                    match directory_fields(mods_path, e, metadata_file) {
                        Err(m) => Err(m),
                        Ok(f) => Ok(
                            acc.push(
                                ModInfoView {
                                    id: e.file_name@,
                                    name: f.0,
                                    version: f.1,
                                    description: f.2,
                                    enabled: true,
                                    priority: acc.len() as u32,
                                },
                            ),
                        ),
                    }
                }
            },
        }
    }
}

/// `Path::extension` of a file name: what follows the last `.`, unless that dot
/// starts the name; `..` has none.
pub open spec fn file_extension(name: Seq<char>) -> Option<Seq<char>> {
    let k = last_index_of(name, '.');
    if name == ".."@ || k <= 0 {
        None
    } else {
        Some(name.subrange(k + 1, name.len() as int))
    }
}

/// `Path::file_stem` of a file name: what precedes the last `.`, or the whole
/// name when it has no extension.
pub open spec fn file_stem(name: Seq<char>) -> Seq<char> {
    let k = last_index_of(name, '.');
    if name == ".."@ || k <= 0 {
        name
    } else {
        name.subrange(0, k)
    }
}

/// `trim_start_matches('.')`.
pub open spec fn strip_leading_dots(s: Seq<char>) -> Seq<char>
    decreases s.len(),
{
    if s.len() > 0 && s[0] == '.' {
        strip_leading_dots(s.drop_first())
    } else {
        s
    }
}

/// A configured extension as it is compared: without leading dots, in ASCII lower case.
pub open spec fn normalized_extension(e: Seq<char>) -> Seq<char> {
    ascii_lower_seq(strip_leading_dots(e))
}

/// `ext` (already lower-cased) is one of the configured, non-empty extensions.
pub open spec fn extension_allowed(extensions: Seq<String>, ext: Seq<char>) -> bool {
    exists|i: int|
        0 <= i < extensions.len() && normalized_extension(extensions[i]@).len() > 0
            && #[trigger] normalized_extension(extensions[i]@) == ext
}

/// The entry is a plugin file: a file, not excluded by name, whose extension is allowed.
pub open spec fn plugin_file_selected(
    e: ScannedEntry,
    extensions: Seq<String>,
    excluded: Seq<String>,
) -> bool {
    &&& e.is_file
    &&& !(exists|i: int| 0 <= i < excluded.len() && #[trigger] excluded[i]@ == e.file_name@)
    &&& extension_allowed(extensions, ascii_lower_seq(or_default(file_extension(e.file_name@), ""@)))
}

/// The plugin-file mods among the first `k` entries, enabled, numbered in order of discovery.
pub open spec fn scan_plugin_files(
    entries: Seq<ScannedEntry>,
    extensions: Seq<String>,
    excluded: Seq<String>,
    k: int,
) -> Seq<ModInfoView>
    decreases k,
{
    if k <= 0 {
        Seq::empty()
    } else {
        let acc = scan_plugin_files(entries, extensions, excluded, k - 1);
        let e = entries[k - 1];
        if plugin_file_selected(e, extensions, excluded) {
            acc.push(
                ModInfoView {
                    id: e.file_name@,
                    name: file_stem(e.file_name@),
                    version: "1.0"@,
                    description: "."@ + or_default(file_extension(e.file_name@), ""@)
                        + " plugin"@,
                    enabled: true,
                    priority: acc.len() as u32,
                },
            )
        } else {
            acc
        }
    }
}

/// No two entries of the folder listing share a name, as in any folder.
pub open spec fn distinct_names(entries: Seq<ScannedEntry>) -> bool {
    forall|i: int, j: int|
        0 <= i < j < entries.len() ==> (#[trigger] entries[i]).file_name@ != (#[trigger] entries[j]).file_name@
}

/// No two discovered mods share an id.
pub open spec fn distinct_view_ids(v: Seq<ModInfoView>) -> bool {
    forall|i: int, j: int| 0 <= i < j < v.len() ==> (#[trigger] v[i]).id != (#[trigger] v[j]).id
}

/// The ids of the mods are names of the first `k` entries.
pub open spec fn ids_from_entries(v: Seq<ModInfoView>, entries: Seq<ScannedEntry>, k: int) -> bool {
    forall|i: int|
        0 <= i < v.len() ==> exists|j: int| 0 <= j < k && (#[trigger] v[i]).id == entries[j].file_name@
}

/// Directory discovery in a folder whose entries have distinct names gives mods
/// with distinct ids: each mod's id is the name of its folder.
pub proof fn lemma_directory_mods_distinct(
    mods_path: Seq<char>,
    entries: Seq<ScannedEntry>,
    prefix: Option<Seq<char>>,
    metadata_file: Option<Seq<char>>,
    k: int,
)
    requires
        0 <= k <= entries.len(),
        distinct_names(entries),
    ensures
        scan_directory_mods(mods_path, entries, prefix, metadata_file, k) matches Ok(v)
            ==> distinct_view_ids(v) && ids_from_entries(v, entries, k),
    decreases k,
{
    if k > 0 {
        lemma_directory_mods_distinct(mods_path, entries, prefix, metadata_file, k - 1);
        match scan_directory_mods(mods_path, entries, prefix, metadata_file, k - 1) {
            Err(_) => {},
            Ok(acc) => {
                let e = entries[k - 1];
                if dir_selected(e, prefix) {
                    match directory_fields(mods_path, e, metadata_file) {
                        Err(_) => {},
                        Ok(f) => {
                            let v = scan_directory_mods(mods_path, entries, prefix, metadata_file, k)->Ok_0;
                            lemma_push_new_id(acc, v, entries, k);
                        },
                    }
                }
            },
        }
    }
}

proof fn lemma_view_ids_distinct(mods: Seq<ModInfo>)
    requires
        distinct_view_ids(mods_view(mods)),
    ensures
        distinct_ids(mods),
{
    assert forall|i: int, j: int| 0 <= i < j < mods.len() implies (#[trigger] mods[i]).id@
        != (#[trigger] mods[j]).id@ by {
        assert(mods_view(mods)[i].id == mods[i].id@);
        assert(mods_view(mods)[j].id == mods[j].id@);
    }
}

proof fn lemma_push_new_id(acc: Seq<ModInfoView>, v: Seq<ModInfoView>, entries: Seq<ScannedEntry>, k: int)
    requires
        1 <= k <= entries.len(),
        distinct_names(entries),
        distinct_view_ids(acc),
        ids_from_entries(acc, entries, k - 1),
        v.len() == acc.len() + 1,
        forall|i: int| 0 <= i < acc.len() ==> v[i] == acc[i],
        v.last().id == entries[k - 1].file_name@,
    ensures
        distinct_view_ids(v),
        ids_from_entries(v, entries, k),
{
    assert forall|i: int| 0 <= i < acc.len() implies (#[trigger] v[i]).id != v.last().id by {
        assert(v[i] == acc[i]);
        let j = choose|j: int| 0 <= j < k - 1 && acc[i].id == entries[j].file_name@;
        assert(entries[j].file_name@ != entries[k - 1].file_name@);
    }
    assert forall|i: int, j: int| 0 <= i < j < v.len() implies (#[trigger] v[i]).id != (#[trigger] v[j]).id by {
        if j < acc.len() {
            assert(v[i] == acc[i] && v[j] == acc[j]);
        }
    }
    assert forall|i: int| 0 <= i < v.len() implies exists|j: int|
        0 <= j < k && (#[trigger] v[i]).id == entries[j].file_name@ by {
        if i < acc.len() {
            assert(v[i] == acc[i]);
            let j = choose|j: int| 0 <= j < k - 1 && acc[i].id == entries[j].file_name@;
            assert(0 <= j < k && v[i].id == entries[j].file_name@);
        } else {
            assert(v[i].id == entries[k - 1].file_name@);
        }
    }
}

/// Plugin-file discovery in a folder whose entries have distinct names gives
/// mods with distinct ids: each mod's id is the name of its file.
pub proof fn lemma_plugin_files_distinct(
    entries: Seq<ScannedEntry>,
    extensions: Seq<String>,
    excluded: Seq<String>,
    k: int,
)
    requires
        0 <= k <= entries.len(),
        distinct_names(entries),
    ensures
        distinct_view_ids(scan_plugin_files(entries, extensions, excluded, k)),
        ids_from_entries(scan_plugin_files(entries, extensions, excluded, k), entries, k),
    decreases k,
{
    if k > 0 {
        lemma_plugin_files_distinct(entries, extensions, excluded, k - 1);
        let acc = scan_plugin_files(entries, extensions, excluded, k - 1);
        let v = scan_plugin_files(entries, extensions, excluded, k);
        if plugin_file_selected(entries[k - 1], extensions, excluded) {
            lemma_push_new_id(acc, v, entries, k);
        } else {
            assert forall|i: int| 0 <= i < v.len() implies exists|j: int|
                0 <= j < k && (#[trigger] v[i]).id == entries[j].file_name@ by {
                let j = choose|j: int| 0 <= j < k - 1 && acc[i].id == entries[j].file_name@;
                assert(0 <= j < k && v[i].id == entries[j].file_name@);
            }
        }
    }
}

/// What discovery in `mode` gives for the entries of the folder `mods_path`.
pub open spec fn discovery_result(mods_path: Seq<char>, entries: Seq<ScannedEntry>, mode: ModDiscoveryMode) -> Result<
    Seq<ModInfoView>,
    Seq<char>,
> {
    match mode {
        ModDiscoveryMode::DirectoryMods { required_prefix, metadata_file } => scan_directory_mods(
            mods_path,
            entries,
            match required_prefix {
                Some(p) => Some(p@),
                None => None,
            },
            match metadata_file {
                Some(f) => Some(f@),
                None => None,
            },
            entries.len() as int,
        ),
        ModDiscoveryMode::PluginFiles { extensions, excluded_files } => Ok(
            scan_plugin_files(entries, extensions@, excluded_files@, entries.len() as int),
        ),
    }
}

/// Loading after a discovery applies the saved state mod by mod: in a folder
/// whose entries have distinct names (as any folder's do), with saved entries that
/// do not repeat an id, the loaded list is the found mods, each with the enabled
/// flag and priority of the entry with its id (as found when it has none),
/// sorted stably by priority; entries of no found mod are ignored.
pub proof fn lemma_load_after_discovery(
    mods_path: Seq<char>,
    entries: Seq<ScannedEntry>,
    mode: ModDiscoveryMode,
    found: Seq<ModInfo>,
    saved: Seq<ModEntry>,
    before: Seq<ModInfo>,
    after: Seq<ModInfo>,
)
    requires
        distinct_names(entries),
        discovery_result(mods_path, entries, mode) == Ok::<Seq<ModInfoView>, Seq<char>>(mods_view(found)),
        distinct_entry_ids(saved),
        mod_step(before, ModCall::Load { found: found, saved: Some(saved) }, after),
    ensures
        distinct_ids(found),
        sorted_by_priority(found.map_values(|m: ModInfo| with_saved_state(m, saved)), after),
{
    match mode {
        ModDiscoveryMode::DirectoryMods { required_prefix, metadata_file } => {
            lemma_directory_mods_distinct(
                mods_path,
                entries,
                match required_prefix {
                    Some(p) => Some(p@),
                    None => None,
                },
                match metadata_file {
                    Some(f) => Some(f@),
                    None => None,
                },
                entries.len() as int,
            );
        },
        ModDiscoveryMode::PluginFiles { extensions, excluded_files } => {
            lemma_plugin_files_distinct(entries, extensions@, excluded_files@, entries.len() as int);
        },
    }
    lemma_view_ids_distinct(found);
    lemma_saved_state_per_mod(found, saved);
}

/// Directory discovery takes exactly the sub-folders whose name starts with the
/// required prefix: every discovered mod is named after a sub-folder among the
/// first `k` entries, and its name starts with the prefix; and, when discovery
/// succeeds, every such sub-folder gives a mod.
pub proof fn lemma_directory_mods_have_prefix(
    mods_path: Seq<char>,
    entries: Seq<ScannedEntry>,
    prefix: Option<Seq<char>>,
    metadata_file: Option<Seq<char>>,
    k: int,
)
    requires
        0 <= k <= entries.len(),
    ensures
        scan_directory_mods(mods_path, entries, prefix, metadata_file, k) matches Ok(v) ==> {
            &&& forall|i: int|
                0 <= i < v.len() ==> exists|j: int|
                    0 <= j < k && entries[j].is_dir && entries[j].file_name@ == (#[trigger] v[i]).id
            &&& forall|i: int|
                0 <= i < v.len() ==> match prefix {
                    Some(p) => p.len() <= (#[trigger] v[i]).id.len() && v[i].id.subrange(0, p.len() as int) == p,
                    None => true,
                }
            &&& forall|j: int|
                0 <= j < k && (#[trigger] entries[j]).is_dir && match prefix {
                    Some(p) => p.len() <= entries[j].file_name@.len() && entries[j].file_name@.subrange(
                        0,
                        p.len() as int,
                    ) == p,
                    None => true,
                } ==> exists|i: int| 0 <= i < v.len() && v[i].id == entries[j].file_name@
        },
    decreases k,
{
    if k > 0 {
        lemma_directory_mods_have_prefix(mods_path, entries, prefix, metadata_file, k - 1);
        match scan_directory_mods(mods_path, entries, prefix, metadata_file, k - 1) {
            Err(_) => {},
            Ok(acc) => {
                let e = entries[k - 1];
                if dir_selected(e, prefix) {
                    match directory_fields(mods_path, e, metadata_file) {
                        Err(_) => {},
                        Ok(f) => {
                            let v = scan_directory_mods(mods_path, entries, prefix, metadata_file, k)->Ok_0;
                            assert(v.len() == acc.len() + 1);
                            assert forall|i: int| 0 <= i < v.len() implies exists|j: int|
                                0 <= j < k && entries[j].is_dir && entries[j].file_name@ == (#[trigger] v[i]).id by {
                                if i < acc.len() {
                                    assert(v[i] == acc[i]);
                                    let j = choose|j: int|
                                        0 <= j < k - 1 && entries[j].is_dir && entries[j].file_name@ == acc[i].id;
                                    assert(0 <= j < k && entries[j].is_dir && entries[j].file_name@ == v[i].id);
                                } else {
                                    assert(v[i].id == e.file_name@);
                                }
                            }
                            assert forall|i: int| 0 <= i < v.len() implies match prefix {
                                Some(p) => p.len() <= (#[trigger] v[i]).id.len() && v[i].id.subrange(0, p.len() as int) == p,
                                None => true,
                            } by {
                                if i < acc.len() {
                                    assert(v[i] == acc[i]);
                                }
                            }
                            assert forall|j: int|
                                0 <= j < k && (#[trigger] entries[j]).is_dir && match prefix {
                                    Some(p) => p.len() <= entries[j].file_name@.len()
                                        && entries[j].file_name@.subrange(0, p.len() as int) == p,
                                    None => true,
                                } implies exists|i: int| 0 <= i < v.len() && v[i].id == entries[j].file_name@ by {
                                if j < k - 1 {
                                    let i = choose|i: int| 0 <= i < acc.len() && acc[i].id == entries[j].file_name@;
                                    assert(v[i] == acc[i]);
                                } else {
                                    assert(v[acc.len() as int].id == e.file_name@);
                                }
                            }
                        },
                    }
                } else {
                    let v = acc;
                    assert forall|i: int| 0 <= i < v.len() implies exists|j: int|
                        0 <= j < k && entries[j].is_dir && entries[j].file_name@ == (#[trigger] v[i]).id by {
                        let j = choose|j: int|
                            0 <= j < k - 1 && entries[j].is_dir && entries[j].file_name@ == acc[i].id;
                        assert(0 <= j < k);
                    }
                }
            },
        }
    }
}

/// Some sub-folder among the entries is named `id`.
pub open spec fn names_a_folder(entries: Seq<ScannedEntry>, id: Seq<char>) -> bool {
    exists|j: int| 0 <= j < entries.len() && entries[j].is_dir && entries[j].file_name@ == id
}

proof fn lemma_found_mods_have_prefix(
    mods_path: Seq<char>,
    entries: Seq<ScannedEntry>,
    required_prefix: Option<&str>,
    metadata_file: Option<Seq<char>>,
    mods: Seq<ModInfo>,
)
    requires
        scan_directory_mods(
            mods_path,
            entries,
            match required_prefix {
                Some(p) => Some(p@),
                None => None,
            },
            metadata_file,
            entries.len() as int,
        ) == Ok::<Seq<ModInfoView>, Seq<char>>(mods_view(mods)),
    ensures
        forall|i: int| 0 <= i < mods.len() ==> names_a_folder(entries, (#[trigger] mods[i]).id@),
        forall|i: int|
            0 <= i < mods.len() ==> match required_prefix {
                Some(p) => p@.len() <= (#[trigger] mods[i]).id@.len() && mods[i].id@.subrange(0, p@.len() as int)
                    == p@,
                None => true,
            },
        forall|j: int|
            0 <= j < entries.len() && (#[trigger] entries[j]).is_dir && match required_prefix {
                Some(p) => p@.len() <= entries[j].file_name@.len() && entries[j].file_name@.subrange(
                    0,
                    p@.len() as int,
                ) == p@,
                None => true,
            } ==> has_id(mods, entries[j].file_name@),
{
    let prefix = match required_prefix {
        Some(p) => Some(p@),
        None => None,
    };
    lemma_directory_mods_have_prefix(mods_path, entries, prefix, metadata_file, entries.len() as int);
    let v = mods_view(mods);
    assert forall|i: int| 0 <= i < mods.len() implies names_a_folder(entries, (#[trigger] mods[i]).id@) by {
        assert(v[i].id == mods[i].id@);
        let j = choose|j: int| 0 <= j < entries.len() && entries[j].is_dir && entries[j].file_name@ == v[i].id;
        assert(0 <= j < entries.len() && entries[j].is_dir && entries[j].file_name@ == mods[i].id@);
    }
    assert forall|i: int| 0 <= i < mods.len() implies match required_prefix {
        Some(p) => p@.len() <= (#[trigger] mods[i]).id@.len() && mods[i].id@.subrange(0, p@.len() as int) == p@,
        None => true,
    } by {
        assert(v[i].id == mods[i].id@);
    }
    assert forall|j: int|
        0 <= j < entries.len() && (#[trigger] entries[j]).is_dir && match required_prefix {
            Some(p) => p@.len() <= entries[j].file_name@.len() && entries[j].file_name@.subrange(
                0,
                p@.len() as int,
            ) == p@,
            None => true,
        } implies has_id(mods, entries[j].file_name@) by {
        let i = choose|i: int| 0 <= i < v.len() && v[i].id == entries[j].file_name@;
        assert(v[i].id == mods[i].id@);
        assert(0 <= i < mods.len() && mods[i].id@ == entries[j].file_name@);
    }
}

proof fn lemma_scan_error_persists(
    mods_path: Seq<char>,
    entries: Seq<ScannedEntry>,
    prefix: Option<Seq<char>>,
    metadata_file: Option<Seq<char>>,
    k: int,
    n: int,
)
    requires
        1 <= k <= n,
        scan_directory_mods(mods_path, entries, prefix, metadata_file, k) is Err,
    ensures
        scan_directory_mods(mods_path, entries, prefix, metadata_file, n) == scan_directory_mods(
            mods_path,
            entries,
            prefix,
            metadata_file,
            k,
        ),
    decreases n - k,
{
    if k < n {
        lemma_scan_error_persists(mods_path, entries, prefix, metadata_file, k + 1, n);
    }
}


fn member_or(text: &str, key: &str, default: &str, path: &str) -> (r: Result<String, String>)
    ensures
        match json_string_member(text@, key@) {
            Err(e) => r matches Err(m) && m@ == msg_bad_metadata(path@, e),
            Ok(o) => r matches Ok(s) && s@ == or_default(o, default@),
        },
{
    match json_str_member(text, key) {
        Ok(Some(s)) => Ok(s),
        Ok(None) => Ok(String::from_str(default)),
        Err(e) => {
            let mut m = String::from_str("Failed to parse mod metadata '");
            m.append(path);
            m.append("': ");
            m.append(e.as_str());
            Err(m)
        },
    }
}


/// Whether a sub-folder name passes the required prefix.
pub fn has_required_prefix(name: &str, required_prefix: Option<&str>) -> (r: bool)
    ensures
        r == match required_prefix {
            None => true,
            Some(p) => p@.len() <= name@.len() && name@.subrange(0, p@.len() as int) == p@,
        },
{
    match required_prefix {
        None => true,
        Some(p) => str_starts_with(name, p),
    }
}


fn strip_dots_lower(v: &Vec<char>) -> (r: Vec<char>)
    ensures
        r@ == normalized_extension(v@),
{
    let mut a: usize = 0;
    assert(v@.subrange(0, v@.len() as int) =~= v@);
    while a < v.len() && v[a] == '.'
        invariant
            a <= v@.len(),
            strip_leading_dots(v@) == strip_leading_dots(v@.subrange(a as int, v@.len() as int)),
        decreases v.len() - a,
    {
        proof {
            let s = v@.subrange(a as int, v@.len() as int);
            assert(s.drop_first() =~= v@.subrange(a + 1, v@.len() as int));
        }
        a = a + 1;
    }
    proof {
        let s = v@.subrange(a as int, v@.len() as int);
        assert(strip_leading_dots(s) == s);
    }
    lower_from(v, a)
}

fn lower_from(v: &Vec<char>, a: usize) -> (r: Vec<char>)
    requires
        a <= v@.len(),
    ensures
        r@ == ascii_lower_seq(v@.subrange(a as int, v@.len() as int)),
{
    let mut out: Vec<char> = Vec::new();
    let mut i: usize = a;
    while i < v.len()
        invariant
            a <= i <= v@.len(),
            out@ == ascii_lower_seq(v@.subrange(a as int, i as int)),
        decreases v.len() - i,
    {
        out.push(char_ascii_lower(v[i]));
        i = i + 1;
        assert(out@ =~= ascii_lower_seq(v@.subrange(a as int, i as int)));
    }
    out
}

fn in_list(list: &Vec<String>, name: &str) -> (r: bool)
    ensures
        r == exists|i: int| 0 <= i < list@.len() && #[trigger] list@[i]@ == name@,
{
    let mut i: usize = 0;
    while i < list.len()
        invariant
            i <= list@.len(),
            forall|j: int| 0 <= j < i ==> list@[j]@ != name@,
        decreases list.len() - i,
    {
        if str_eq(list[i].as_str(), name) {
            assert(list@[i as int]@ == name@);
            return true;
        }
        i = i + 1;
    }
    false
}

/// The extension of file name `v` (as characters) and its position, by `file_extension`.
fn split_extension(v: &Vec<char>) -> (r: Option<usize>)
    ensures
        match r {
            Some(k) => file_extension(v@) == Some(v@.subrange(k + 1, v@.len() as int))
                && file_stem(v@) == v@.subrange(0, k as int) && k < v@.len(),
            None => file_extension(v@) is None && file_stem(v@) == v@,
        },
{
    proof {
        lemma_last_index_of_bounds(v@, '.');
        reveal_strlit("..");
    }
    let is_dotdot = v.len() == 2 && v[0] == '.' && v[1] == '.';
    assert(is_dotdot == (v@ == ".."@)) by {
        if v@ == ".."@ {
            assert(v@[0] == ".."@[0]);
        }
        if is_dotdot {
            assert(v@ =~= ".."@);
        }
    }
    match chars_last_index_of(v, '.') {
        Some(k) => {
            if is_dotdot || k == 0 {
                None
            } else {
                Some(k)
            }
        },
        None => None,
    }
}


pub open spec fn msg_unconfigured_discovery_root(root_id: Seq<char>, pid: Seq<char>) -> Seq<char> {
    "No path configured for root '"@ + root_id + "' in plugin '"@ + pid + "'"@
}

impl ModManager {
    /// The mods among the entries of the discovery folder `mods_path`, as the
    /// discovery mode recognises them.
    pub fn discover_mods(mods_path: &str, entries: &Vec<ScannedEntry>, mode: &ModDiscoveryMode) -> (r: Result<
        Vec<ModInfo>,
        String,
    >)
        ensures
            match mode {
                ModDiscoveryMode::DirectoryMods { required_prefix, metadata_file } => match scan_directory_mods(
                    mods_path@,
                    entries@,
                    match required_prefix {
                        Some(p) => Some(p@),
                        None => None,
                    },
                    match metadata_file {
                        Some(f) => Some(f@),
                        None => None,
                    },
                    entries@.len() as int,
                ) {
                    Err(e) => r matches Err(m) && m@ == e,
                    Ok(v) => r matches Ok(mods) && mods_view(mods@) == v,
                },
                ModDiscoveryMode::PluginFiles { extensions, excluded_files } => r matches Ok(mods)
                    && mods_view(mods@) == scan_plugin_files(
                    entries@,
                    extensions@,
                    excluded_files@,
                    entries@.len() as int,
                ),
            },
            distinct_names(entries@) ==> (r matches Ok(mods) ==> distinct_ids(mods@)),
            match discovery_result(mods_path@, entries@, *mode) {
                Err(e) => r matches Err(m) && m@ == e,
                Ok(v) => r matches Ok(mods) && mods_view(mods@) == v,
            },
    {
        match mode {
            ModDiscoveryMode::DirectoryMods { required_prefix, metadata_file } => {
                let prefix = match required_prefix {
                    Some(p) => Some(p.as_str()),
                    None => None,
                };
                let file = match metadata_file {
                    Some(f) => Some(f.as_str()),
                    None => None,
                };
                Self::discover_directory_mods(mods_path, entries, prefix, file)
            },
            ModDiscoveryMode::PluginFiles { extensions, excluded_files } => {
                Ok(Self::discover_plugin_files(entries, extensions, excluded_files))
            },
        }
    }

    /// The mods of a folder listing that may have stopped early: `entries` are
    /// the entries listed, and `unreadable` the error of the entry that could not
    /// be read after them, if any. The entries are taken in folder order, so an
    /// unreadable metadata file among them is the error reported; only when they
    /// all are read does the unreadable entry's error come out.
    pub fn discover_listed_mods(
        mods_path: &str,
        entries: &Vec<ScannedEntry>,
        mode: &ModDiscoveryMode,
        unreadable: Option<String>,
    ) -> (r: Result<Vec<ModInfo>, String>)
        ensures
            match discovery_result(mods_path@, entries@, *mode) {
                Err(e) => r matches Err(m) && m@ == e,
                Ok(v) => match unreadable {
                    Some(e) => r matches Err(m) && m == e,
                    None => r matches Ok(mods) && mods_view(mods@) == v,
                },
            },
            distinct_names(entries@) ==> (r matches Ok(mods) ==> distinct_ids(mods@)),
    {
        let found = Self::discover_mods(mods_path, entries, mode);
        match found {
            Err(m) => Err(m),
            Ok(mods) => match unreadable {
                Some(e) => Err(e),
                None => Ok(mods),
            },
        }
    }

    /// The folder in which the mods of plugin `plugin_id` are looked for: the
    /// discovery path joined onto the folder configured for the discovery root.
    pub fn mods_folder(plugin_id: &str, path_roots: &PathTable, discovery: &ModDiscovery) -> (r: Result<String, String>)
        ensures
            match lookup(table_view(path_roots@), discovery.root_id@) {
                None => r matches Err(e) && e@ == msg_unconfigured_discovery_root(discovery.root_id@, plugin_id@),
                Some(root) => match relative_path_check(discovery.relative_path@) {
                    Err(e) => r matches Err(m) && m@ == e,
                    Ok(_) => r matches Ok(p) && p@ == path_join(root, discovery.relative_path@),
                },
            },
    {
        match table_get(path_roots, discovery.root_id.as_str()) {
            None => {
                let mut m = String::from_str("No path configured for root '");
                m.append(discovery.root_id.as_str());
                m.append("' in plugin '");
                m.append(plugin_id);
                m.append("'");
                Err(m)
            },
            Some(root) => join_validated_plugin_path(root.as_str(), discovery.relative_path.as_str()),
        }
    }

    /// Name, version and description of a directory mod that has no metadata.
    pub fn directory_mod_defaults(mod_id: &str) -> (r: (String, String, String))
        ensures
            r.0@ == default_fields(mod_id@).0,
            r.1@ == default_fields(mod_id@).1,
            r.2@ == default_fields(mod_id@).2,
    {
        (String::from_str(mod_id), String::from_str("1.0"), String::from_str("Directory mod"))
    }

    /// Name, version and description of a directory mod from the contents of its
    /// metadata file at `metadata_path`.
    pub fn read_directory_mod_metadata(mod_id: &str, metadata_path: &str, content: &str) -> (r: Result<
        (String, String, String),
        String,
    >)
        ensures
            match metadata_fields(content@, mod_id@, metadata_path@) {
                Err(e) => r matches Err(m) && m@ == e,
                Ok(f) => r matches Ok(t) && t.0@ == f.0 && t.1@ == f.1 && t.2@ == f.2,
            },
    {
        let name = match member_or(content, "name", mod_id, metadata_path) {
            Ok(s) => s,
            Err(m) => {
                return Err(m);
            },
        };
        let version = match member_or(content, "version", "1.0", metadata_path) {
            Ok(s) => s,
            Err(m) => {
                return Err(m);
            },
        };
        let description = match member_or(content, "description", "", metadata_path) {
            Ok(s) => s,
            Err(m) => {
                return Err(m);
            },
        };
        Ok((name, version, description))
    }

    /// One mod per sub-folder of the discovery folder `mods_path` (with the
    /// required prefix, if any), in the order of the entries, enabled, numbered from 0.
    pub fn discover_directory_mods(
        mods_path: &str,
        entries: &Vec<ScannedEntry>,
        required_prefix: Option<&str>,
        metadata_file: Option<&str>,
    ) -> (r: Result<Vec<ModInfo>, String>)
        ensures
            match scan_directory_mods(
                mods_path@,
                entries@,
                match required_prefix {
                    Some(p) => Some(p@),
                    None => None,
                },
                match metadata_file {
                    Some(f) => Some(f@),
                    None => None,
                },
                entries@.len() as int,
            ) {
                Err(e) => r matches Err(m) && m@ == e,
                Ok(v) => r matches Ok(mods) && mods_view(mods@) == v,
            },
            distinct_names(entries@) ==> (r matches Ok(mods) ==> distinct_ids(mods@)),
            r matches Ok(mods) ==> forall|i: int|
                0 <= i < mods@.len() ==> names_a_folder(entries@, (#[trigger] mods@[i]).id@),
            r matches Ok(mods) ==> forall|i: int|
                0 <= i < mods@.len() ==> match required_prefix {
                    Some(p) => p@.len() <= (#[trigger] mods@[i]).id@.len() && mods@[i].id@.subrange(
                        0,
                        p@.len() as int,
                    ) == p@,
                    None => true,
                },
            r matches Ok(mods) ==> forall|j: int|
                0 <= j < entries@.len() && (#[trigger] entries@[j]).is_dir && match required_prefix {
                    Some(p) => p@.len() <= entries@[j].file_name@.len()
                        && entries@[j].file_name@.subrange(0, p@.len() as int) == p@,
                    None => true,
                } ==> has_id(mods@, entries@[j].file_name@),
    {
        proof {
            if distinct_names(entries@) {
                lemma_directory_mods_distinct(
                    mods_path@,
                    entries@,
                    match required_prefix {
                        Some(p) => Some(p@),
                        None => None,
                    },
                    match metadata_file {
                        Some(f) => Some(f@),
                        None => None,
                    },
                    entries@.len() as int,
                );
            }
        }
        let ghost prefix = match required_prefix {
            Some(p) => Some(p@),
            None => None,
        };
        let ghost mf = match metadata_file {
            Some(f) => Some(f@),
            None => None,
        };
        let mut out: Vec<ModInfo> = Vec::new();
        assert(mods_view(out@) =~= Seq::<ModInfoView>::empty());
        let mut k: usize = 0;
        while k < entries.len()
            invariant
                k <= entries@.len(),
                prefix == match required_prefix {
                    Some(p) => Some(p@),
                    None => None::<Seq<char>>,
                },
                mf == match metadata_file {
                    Some(f) => Some(f@),
                    None => None::<Seq<char>>,
                },
                scan_directory_mods(mods_path@, entries@, prefix, mf, k as int) == Ok::<
                    Seq<ModInfoView>,
                    Seq<char>,
                >(mods_view(out@)),
            decreases entries.len() - k,
        {
            let e = &entries[k];
            if e.is_dir && has_required_prefix(e.file_name.as_str(), required_prefix) {
                let fields = match (metadata_file, &e.metadata_json) {
                    (Some(f), Some(text)) => {
                        let dir = join_path(mods_path, e.file_name.as_str());
                        let path = join_path(dir.as_str(), f);
                        match Self::read_directory_mod_metadata(e.file_name.as_str(), path.as_str(), text.as_str()) {
                            Ok(t) => t,
                            Err(m) => {
                                proof {
                                    lemma_scan_error_persists(
                                        mods_path@,
                                        entries@,
                                        prefix,
                                        mf,
                                        k + 1,
                                        entries@.len() as int,
                                    );
                                }
                                return Err(m);
                            },
                        }
                    },
                    _ => Self::directory_mod_defaults(e.file_name.as_str()),
                };
                let ghost before = out@;
                let priority = #[verifier::truncate] (out.len() as u32);
                out.push(
                    ModInfo {
                        id: e.file_name.clone(),
                        name: fields.0,
                        version: fields.1,
                        description: fields.2,
                        enabled: true,
                        priority,
                    },
                );
                assert(mods_view(out@) =~= mods_view(before).push(out@.last()@));
            }
            k = k + 1;
        }
        proof {
            if distinct_names(entries@) {
                lemma_view_ids_distinct(out@);
            }
            lemma_found_mods_have_prefix(mods_path@, entries@, required_prefix, mf, out@);
        }
        Ok(out)
    }

    /// One mod per file of the discovery folder whose extension (ignoring ASCII case)
    /// is one of `extensions` (given with or without leading dots) and whose name is
    /// not among `excluded_files`, in the order of the entries, enabled, numbered from 0.
    pub fn discover_plugin_files(
        entries: &Vec<ScannedEntry>,
        extensions: &Vec<String>,
        excluded_files: &Vec<String>,
    ) -> (r: Vec<ModInfo>)
        ensures
            mods_view(r@) == scan_plugin_files(
                entries@,
                extensions@,
                excluded_files@,
                entries@.len() as int,
            ),
            distinct_names(entries@) ==> distinct_ids(r@),
    {
        proof {
            if distinct_names(entries@) {
                lemma_plugin_files_distinct(entries@, extensions@, excluded_files@, entries@.len() as int);
            }
        }
        let mut allowed: Vec<Vec<char>> = Vec::new();
        let mut i: usize = 0;
        while i < extensions.len()
            invariant
                i <= extensions@.len(),
                allowed@.len() == i,
                forall|j: int|
                    0 <= j < i ==> (#[trigger] allowed@[j])@ == normalized_extension(extensions@[j]@),
            decreases extensions.len() - i,
        {
            let chars = chars_of(extensions[i].as_str());
            allowed.push(strip_dots_lower(&chars));
            i = i + 1;
        }
        let mut out: Vec<ModInfo> = Vec::new();
        let mut k: usize = 0;
        while k < entries.len()
            invariant
                k <= entries@.len(),
                allowed@.len() == extensions@.len(),
                forall|j: int|
                    0 <= j < allowed@.len() ==> (#[trigger] allowed@[j])@ == normalized_extension(
                        extensions@[j]@,
                    ),
                mods_view(out@) == scan_plugin_files(entries@, extensions@, excluded_files@, k as int),
            decreases entries.len() - k,
        {
            let e = &entries[k];
            if e.is_file && !in_list(excluded_files, e.file_name.as_str()) {
                let name = chars_of(e.file_name.as_str());
                let split = split_extension(&name);
                let ext_chars: Vec<char> = match split {
                    Some(d) => {
                        assert(d < name.len());
                        let mut t: Vec<char> = Vec::new();
                        let mut q: usize = d + 1;
                        while q < name.len()
                            invariant
                                d < name@.len(),
                                d + 1 <= q <= name@.len(),
                                t@ == name@.subrange(d + 1, q as int),
                            decreases name.len() - q,
                        {
                            t.push(name[q]);
                            q = q + 1;
                            assert(t@ =~= name@.subrange(d + 1, q as int));
                        }
                        t
                    },
                    None => Vec::new(),
                };
                let lowered = lower_from(&ext_chars, 0);
                assert(ext_chars@.subrange(0, ext_chars@.len() as int) =~= ext_chars@);
                assert(ext_chars@ == or_default(file_extension(e.file_name@), ""@)) by {
                    reveal_strlit("");
                    if split is None {
                        assert(ext_chars@ =~= ""@);
                    }
                }
                let mut found = false;
                let mut j: usize = 0;
                while j < allowed.len()
                    invariant
                        j <= allowed@.len(),
                        allowed@.len() == extensions@.len(),
                        forall|t: int|
                            0 <= t < allowed@.len() ==> (#[trigger] allowed@[t])@
                                == normalized_extension(extensions@[t]@),
                        !found ==> forall|t: int|
                            0 <= t < j ==> !((#[trigger] allowed@[t])@.len() > 0 && allowed@[t]@
                                == lowered@),
                        found ==> extension_allowed(extensions@, lowered@),
                    decreases allowed.len() - j,
                {
                    if !found && allowed[j].len() > 0 && chars_eq(&allowed[j], &lowered) {
                        assert(normalized_extension(extensions@[j as int]@) == lowered@);
                        found = true;
                    }
                    j = j + 1;
                }
                assert(found == extension_allowed(extensions@, lowered@)) by {
                    if !found && extension_allowed(extensions@, lowered@) {
                        let t = choose|t: int|
                            0 <= t < extensions@.len() && normalized_extension(extensions@[t]@).len()
                                > 0 && #[trigger] normalized_extension(extensions@[t]@) == lowered@;
                        assert(allowed@[t]@ == normalized_extension(extensions@[t]@));
                    }
                }
                if found {
                    let file_name = e.file_name.as_str();
                    let stem = match split {
                        Some(d) => String::from_str(file_name.substring_char(0, d)),
                        None => String::from_str(file_name),
                    };
                    let mut description = String::from_str(".");
                    let ext_str = match split {
                        Some(d) => file_name.substring_char(d + 1, name.len()),
                        None => "",
                    };
                    description.append(ext_str);
                    description.append(" plugin");
                    proof {
                        reveal_strlit("");
                        if split is None {
                            assert(ext_str@ =~= or_default(file_extension(e.file_name@), ""@));
                        }
                    }
                    let ghost before = out@;
                    let priority = #[verifier::truncate] (out.len() as u32);
                    out.push(
                        ModInfo {
                            id: e.file_name.clone(),
                            name: stem,
                            version: String::from_str("1.0"),
                            description,
                            enabled: true,
                            priority,
                        },
                    );
                    assert(mods_view(out@) =~= mods_view(before).push(out@.last()@));
                }
            }
            k = k + 1;
        }
        proof {
            if distinct_names(entries@) {
                lemma_view_ids_distinct(out@);
            }
        }
        out
    }
}

} // verus!
