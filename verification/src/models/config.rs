//! The user's settings: active plugin, active theme and the folders configured
//! for each plugin's path roots.
use vstd::prelude::*;
use vstd::string::*;

use super::plugin_api::{GameMetadata, GamePathRoot, GAME_INSTALL_PATH_ROOT_ID};
use super::table::{
    key_index,
    distinct_keys, find_key, has_key, is_first_key, lemma_insert_keeps_keys_distinct,
    lemma_key_index, lemma_table_insert,
    lemma_table_insert_absent, lookup, table_insert, table_insert_absent, table_view, PathTable,
    TableView,
};
use crate::text::{is_blank, str_is_blank};

verus! {

/// For each plugin id, the folder configured for each of its path roots.
pub type PluginPathConfig = Vec<(String, PathTable)>;

/// The settings as plain values: plugin id to (root id to folder).
pub type ConfigView = Seq<(Seq<char>, TableView)>;

pub open spec fn config_view(c: Seq<(String, PathTable)>) -> ConfigView {
    c.map_values(|e: (String, PathTable)| (e.0@, table_view(e.1@)))
}

/// The table of `pid`, or the empty table.
pub open spec fn table_or_empty(c: ConfigView, pid: Seq<char>) -> TableView {
    match lookup(c, pid) {
        Some(t) => t,
        None => Seq::empty(),
    }
}

/// No plugin id occurs twice, and no root id twice in a plugin's table, as in
/// nested `HashMap`s.
pub open spec fn config_keys_distinct(c: ConfigView) -> bool {
    &&& distinct_keys(c)
    &&& forall|i: int| 0 <= i < c.len() ==> distinct_keys(#[trigger] c[i].1)
}

/// Setting a folder keeps the plugin ids and the root ids distinct.
pub proof fn lemma_config_insert_keeps_keys_distinct(c: ConfigView, pid: Seq<char>, t: TableView)
    requires
        config_keys_distinct(c),
        distinct_keys(t),
    ensures
        config_keys_distinct(table_insert(c, pid, t)),
{
    lemma_insert_keeps_keys_distinct(c, pid, t);
    lemma_key_index(c, pid);
    let r = table_insert(c, pid, t);
    assert forall|i: int| 0 <= i < r.len() implies distinct_keys(#[trigger] r[i].1) by {
        if has_key(c, pid) {
            if i != key_index(c, pid) {
                assert(r[i] == c[i]);
            }
        } else if i < c.len() {
            assert(r[i] == c[i]);
        }
    }
}

/// The table of `pid` has distinct root ids when the settings do.
pub proof fn lemma_table_of_keys_distinct(c: ConfigView, pid: Seq<char>)
    requires
        config_keys_distinct(c),
    ensures
        distinct_keys(table_or_empty(c, pid)),
{
    lemma_key_index(c, pid);
    if has_key(c, pid) {
        assert(distinct_keys(c[key_index(c, pid)].1));
    }
}

/// `plugin_paths.entry(pid).or_default().insert(rid, path)`.
pub open spec fn config_set(c: ConfigView, pid: Seq<char>, rid: Seq<char>, path: Seq<char>) -> ConfigView {
    table_insert(c, pid, table_insert(table_or_empty(c, pid), rid, path))
}

/// `plugin_paths.entry(pid).or_default().entry("game").or_insert(path)`.
pub open spec fn migrate_game_path(c: ConfigView, pid: Seq<char>, path: Seq<char>) -> ConfigView {
    table_insert(c, pid, table_insert_absent(table_or_empty(c, pid), "game"@, path))
}

/// The settings after moving the first `k` old per-plugin game folders into the
/// `game` root of each plugin.
pub open spec fn migrate_game_paths(c: ConfigView, game_paths: TableView, k: int) -> ConfigView
    decreases k,
{
    if k <= 0 || k > game_paths.len() {
        c
    } else {
        let prev = migrate_game_paths(c, game_paths, k - 1);
        migrate_game_path(prev, game_paths[k - 1].0, game_paths[k - 1].1)
    }
}

/// A declared root without a configured, non-blank folder.
pub open spec fn root_unconfigured(table: TableView, root: GamePathRoot) -> bool {
    match lookup(table, root.id@) {
        None => true,
        Some(p) => is_blank(p),
    }
}

pub open spec fn msg_no_plugin_paths(pid: Seq<char>) -> Seq<char> {
    "No paths configured for '"@ + pid + "'"@
}

pub open spec fn msg_no_root_path(root: GamePathRoot, pid: Seq<char>) -> Seq<char> {
    "No path configured for '"@ + root.name@ + "' ("@ + root.id@ + ") in plugin '"@ + pid
        + "'"@
}

/// The configured folder of each declared root, in the order of the roots.
pub open spec fn configured_roots_view(table: TableView, roots: Seq<GamePathRoot>) -> TableView {
    roots.map_values(|r: GamePathRoot| (r.id@, lookup(table, r.id@)->Some_0))
}

/// The user's settings.
#[derive(Debug, Clone, PartialEq, Eq)]
pub struct AppConfig {
    pub active_plugin: Option<String>,
    pub active_theme: String,
    pub plugin_paths: PluginPathConfig,
}

/// A theme as the front end lists it.
#[derive(Debug, Clone, PartialEq, Eq)]
pub struct ThemeInfo {
    pub name: String,
    pub is_active: bool,
}

/// Look up `key` in a table of folders.
pub fn table_get<'a>(t: &'a PathTable, key: &str) -> (r: Option<&'a String>)
    ensures
        match r {
            Some(v) => lookup(table_view(t@), key@) == Some(v@),
            None => lookup(table_view(t@), key@) is None,
        },
{
    let ghost tv = table_view(t@);
    proof {
        lemma_key_index(tv, key@);
    }
    match find_key(t, key) {
        Some(i) => {
            assert(is_first_key(tv, key@, i as int));
            Some(&t[i].1)
        },
        None => {
            assert(!has_key(tv, key@)) by {
                if has_key(tv, key@) {
                    let w = choose|w: int| 0 <= w < tv.len() && tv[w].0 == key@;
                    assert(t@[w].0@ == key@);
                }
            }
            None
        },
    }
}

/// Look up the folders of plugin `key`.
pub fn config_get<'a>(c: &'a PluginPathConfig, key: &str) -> (r: Option<&'a PathTable>)
    ensures
        match r {
            Some(v) => lookup(config_view(c@), key@) == Some(table_view(v@)),
            None => lookup(config_view(c@), key@) is None,
        },
{
    let ghost cv = config_view(c@);
    proof {
        lemma_key_index(cv, key@);
    }
    match find_key(c, key) {
        Some(i) => {
            assert(is_first_key(cv, key@, i as int));
            Some(&c[i].1)
        },
        None => {
            assert(!has_key(cv, key@)) by {
                if has_key(cv, key@) {
                    let w = choose|w: int| 0 <= w < cv.len() && cv[w].0 == key@;
                    assert(c@[w].0@ == key@);
                }
            }
            None
        },
    }
}

/// `t.insert(key, value)`.
pub fn table_set(t: &mut PathTable, key: String, value: String)
    ensures
        table_view(final(t)@) == table_insert(table_view(old(t)@), key@, value@),
        distinct_keys(table_view(old(t)@)) ==> distinct_keys(table_view(final(t)@)),
{
    let ghost tv = table_view(t@);
    proof {
        lemma_key_index(tv, key@);
        if distinct_keys(tv) {
            lemma_insert_keeps_keys_distinct(tv, key@, value@);
        }
    }
    match find_key(t, key.as_str()) {
        Some(i) => {
            assert(is_first_key(tv, key@, i as int));
            let k = t[i].0.clone();
            t.set(i, (k, value));
        },
        None => {
            assert(!has_key(tv, key@)) by {
                if has_key(tv, key@) {
                    let w = choose|w: int| 0 <= w < tv.len() && tv[w].0 == key@;
                    assert(t@[w].0@ == key@);
                }
            }
            t.push((key, value));
        },
    }
    assert(table_view(t@) =~= table_insert(tv, key@, value@));
}

/// `t.entry(key).or_insert(value)`.
pub fn table_set_absent(t: &mut PathTable, key: String, value: String)
    ensures
        table_view(final(t)@) == table_insert_absent(table_view(old(t)@), key@, value@),
        distinct_keys(table_view(old(t)@)) ==> distinct_keys(table_view(final(t)@)),
{
    let ghost tv = table_view(t@);
    proof {
        if distinct_keys(tv) {
            lemma_insert_keeps_keys_distinct(tv, key@, value@);
        }
    }
    match find_key(t, key.as_str()) {
        Some(i) => {
            assert(has_key(tv, key@)) by {
                assert(tv[i as int].0 == key@);
            }
        },
        None => {
            assert(!has_key(tv, key@)) by {
                if has_key(tv, key@) {
                    let w = choose|w: int| 0 <= w < tv.len() && tv[w].0 == key@;
                    assert(t@[w].0@ == key@);
                }
            }
            t.push((key, value));
            assert(table_view(t@) =~= table_insert_absent(tv, key@, value@));
        },
    }
}

/// Takes the table of `pid` out of the settings (an empty table when `pid` has
/// none) and tells where it stood, leaving an empty table there.
fn config_take_table(c: &mut PluginPathConfig, pid: &String) -> (r: (PathTable, Option<usize>))
    ensures
        table_view(r.0@) == table_or_empty(config_view(old(c)@), pid@),
        match r.1 {
            Some(i) => is_first_key(config_view(old(c)@), pid@, i as int) && i < old(c)@.len()
                && final(c)@.len() == old(c)@.len() && forall|j: int|
                0 <= j < old(c)@.len() && j != i ==> final(c)@[j] == old(c)@[j],
            None => !has_key(config_view(old(c)@), pid@) && final(c)@ == old(c)@,
        },
        match r.1 {
            Some(i) => final(c)@[i as int].0@ == pid@,
            None => true,
        },
{
    let ghost cv = config_view(c@);
    proof {
        lemma_key_index(cv, pid@);
    }
    match find_key(c, pid.as_str()) {
        Some(i) => {
            assert(is_first_key(cv, pid@, i as int));
            let mut slot: (String, PathTable) = (c[i].0.clone(), Vec::new());
            c.set_and_swap(i, &mut slot);
            (slot.1, Some(i))
        },
        None => {
            assert(!has_key(cv, pid@)) by {
                if has_key(cv, pid@) {
                    let w = choose|w: int| 0 <= w < cv.len() && cv[w].0 == pid@;
                    assert(c@[w].0@ == pid@);
                }
            }
            let empty: PathTable = Vec::new();
            assert(table_view(empty@) =~= Seq::<(Seq<char>, Seq<char>)>::empty());
            (empty, None)
        },
    }
}

/// Puts back the table taken by `config_take_table`.
fn config_put_table(c: &mut PluginPathConfig, pid: String, slot: Option<usize>, table: PathTable)
    requires
        match slot {
            Some(i) => i < old(c)@.len() && old(c)@[i as int].0@ == pid@,
            None => true,
        },
    ensures
        match slot {
            Some(i) => final(c)@ == old(c)@.update(i as int, (old(c)@[i as int].0, table)),
            None => final(c)@ == old(c)@.push((pid, table)),
        },
{
    match slot {
        Some(i) => {
            let k = c[i].0.clone();
            c.set(i, (k, table));
        },
        None => {
            c.push((pid, table));
        },
    }
}

impl Default for AppConfig {
    /// No active plugin, no theme and no folders.
    fn default() -> (r: AppConfig)
        ensures
            r.active_plugin is None,
            r.active_theme@ == Seq::<char>::empty(),
            r.plugin_paths@.len() == 0,
            config_keys_distinct(r.paths_view()),
    {
        AppConfig { active_plugin: None, active_theme: String::new(), plugin_paths: Vec::new() }
    }
}

impl AppConfig {
    /// The configured folders as plain values.
    pub open spec fn paths_view(&self) -> ConfigView {
        config_view(self.plugin_paths@)
    }

    /// The settings read from a file, with the folders of the older per-plugin
    /// `game_paths` setting moved into each plugin's `game` root, unless that
    /// root already has a folder.
    pub fn from_stored(
        active_plugin: Option<String>,
        active_theme: String,
        plugin_paths: PluginPathConfig,
        game_paths: PathTable,
    ) -> (r: AppConfig)
        ensures
            r.active_plugin == active_plugin,
            r.active_theme == active_theme,
            r.paths_view() == migrate_game_paths(
                config_view(plugin_paths@),
                table_view(game_paths@),
                game_paths@.len() as int,
            ),
            config_keys_distinct(config_view(plugin_paths@)) ==> config_keys_distinct(r.paths_view()),
    {
        let mut paths = plugin_paths;
        let ghost c0 = config_view(paths@);
        let ghost gv = table_view(game_paths@);
        let mut k: usize = 0;
        while k < game_paths.len()
            invariant
                k <= game_paths@.len(),
                gv == table_view(game_paths@),
                config_view(paths@) == migrate_game_paths(c0, gv, k as int),
                config_keys_distinct(c0) ==> config_keys_distinct(config_view(paths@)),
            decreases game_paths.len() - k,
        {
            let pid = game_paths[k].0.clone();
            let path = game_paths[k].1.clone();
            let ghost before = config_view(paths@);
            let (mut table, slot) = config_take_table(&mut paths, &pid);
            table_set_absent(&mut table, String::from_str(GAME_INSTALL_PATH_ROOT_ID), path);
            let ghost mid = paths@;
            config_put_table(&mut paths, pid, slot, table);
            proof {
                lemma_key_index(before, game_paths@[k as int].0@);
                let newt = table_insert_absent(table_or_empty(before, pid@), "game"@, path@);
                assert(table_view(table@) == newt);
                match slot {
                    Some(i) => {
                        assert(config_view(paths@) =~= before.update(i as int, (pid@, newt)));
                    },
                    None => {
                        assert(config_view(paths@) =~= before.push((pid@, newt)));
                    },
                }
                assert(config_view(paths@) == migrate_game_path(before, pid@, path@));
                if config_keys_distinct(before) {
                    lemma_table_of_keys_distinct(before, pid@);
                    lemma_insert_keeps_keys_distinct(table_or_empty(before, pid@), "game"@, path@);
                    lemma_config_insert_keeps_keys_distinct(before, pid@, newt);
                }
            }
            k = k + 1;
        }
        AppConfig { active_plugin, active_theme, plugin_paths: paths }
    }

    /// Remembers `plugin_id` as the plugin to load at the next start.
    pub fn set_active_plugin(&mut self, plugin_id: String)
        ensures
            final(self).active_plugin == Some(plugin_id),
            final(self).active_theme == old(self).active_theme,
            final(self).paths_view() == old(self).paths_view(),
    {
        self.active_plugin = Some(plugin_id);
    }

    /// Remembers `name` as the active theme (empty for none).
    pub fn set_active_theme(&mut self, name: String)
        ensures
            final(self).active_theme == name,
            final(self).active_plugin == old(self).active_plugin,
            final(self).paths_view() == old(self).paths_view(),
    {
        self.active_theme = name;
    }

    /// Sets the folder of root `root_id` of plugin `plugin_id`.
    pub fn set_plugin_path(&mut self, plugin_id: String, root_id: String, path: String)
        ensures
            final(self).active_plugin == old(self).active_plugin,
            final(self).active_theme == old(self).active_theme,
            final(self).paths_view() == config_set(old(self).paths_view(), plugin_id@, root_id@, path@),
            config_keys_distinct(old(self).paths_view()) ==> config_keys_distinct(final(self).paths_view()),
    {
        let ghost before = self.paths_view();
        proof {
            if config_keys_distinct(before) {
                lemma_table_of_keys_distinct(before, plugin_id@);
                lemma_insert_keeps_keys_distinct(table_or_empty(before, plugin_id@), root_id@, path@);
                lemma_config_insert_keeps_keys_distinct(
                    before,
                    plugin_id@,
                    table_insert(table_or_empty(before, plugin_id@), root_id@, path@),
                );
            }
        }
        let (mut table, slot) = config_take_table(&mut self.plugin_paths, &plugin_id);
        table_set(&mut table, root_id, path);
        let ghost newt = table_view(table@);
        config_put_table(&mut self.plugin_paths, plugin_id, slot, table);
        proof {
            lemma_key_index(before, plugin_id@);
            match slot {
                Some(i) => {
                    assert(self.paths_view() =~= before.update(i as int, (plugin_id@, newt)));
                },
                None => {
                    assert(self.paths_view() =~= before.push((plugin_id@, newt)));
                },
            }
        }
    }

    /// The configured folder of every root that `metadata` declares, in the order
    /// of the declaration; an error names the plugin without folders or the first
    /// root without a non-blank folder.
    pub fn configured_path_roots(&self, plugin_id: &str, metadata: &GameMetadata) -> (r: Result<
        PathTable,
        String,
    >)
        ensures
            match lookup(self.paths_view(), plugin_id@) {
                None => r matches Err(e) && e@ == msg_no_plugin_paths(plugin_id@),
                Some(table) => match r {
                    Ok(v) => (forall|i: int|
                        0 <= i < metadata.path_roots@.len() ==> !root_unconfigured(
                            table,
                            #[trigger] metadata.path_roots@[i],
                        )) && table_view(v@) == configured_roots_view(
                        table,
                        metadata.path_roots@,
                    ),
                    Err(e) => exists|i: int|
                        0 <= i < metadata.path_roots@.len() && root_unconfigured(
                            table,
                            #[trigger] metadata.path_roots@[i],
                        ) && (forall|j: int|
                            0 <= j < i ==> !root_unconfigured(table, metadata.path_roots@[j]))
                            && e@ == msg_no_root_path(metadata.path_roots@[i], plugin_id@),
                },
            },
    {
        let configured = match config_get(&self.plugin_paths, plugin_id) {
            Some(t) => t,
            None => {
                let mut msg = String::from_str("No paths configured for '");
                msg.append(plugin_id);
                msg.append("'");
                return Err(msg);
            },
        };
        let ghost table = table_view(configured@);
        let roots = &metadata.path_roots;
        let mut out: PathTable = Vec::new();
        let mut i: usize = 0;
        while i < roots.len()
            invariant
                table == table_view(configured@),
                lookup(self.paths_view(), plugin_id@) == Some(table),
                roots@ == metadata.path_roots@,
                i <= roots@.len(),
                forall|j: int| 0 <= j < i ==> !root_unconfigured(table, #[trigger] roots@[j]),
                table_view(out@) == configured_roots_view(table, roots@.subrange(0, i as int)),
            decreases roots.len() - i,
        {
            let root = &roots[i];
            match table_get(configured, root.id.as_str()) {
                Some(p) => {
                    if str_is_blank(p.as_str()) {
                        let mut msg = String::from_str("No path configured for '");
                        msg.append(root.name.as_str());
                        msg.append("' (");
                        msg.append(root.id.as_str());
                        msg.append(") in plugin '");
                        msg.append(plugin_id);
                        msg.append("'");
                        assert(root_unconfigured(table, roots@[i as int]));
                        return Err(msg);
                    }
                    let ghost old_out = out@;
                    out.push((root.id.clone(), p.clone()));
                    proof {
                        let pre = roots@.subrange(0, i as int);
                        assert(table_view(out@) =~= table_view(old_out).push((root.id@, p@)));
                        assert(roots@.subrange(0, i + 1) =~= pre.push(roots@[i as int]));
                        assert(configured_roots_view(table, pre.push(roots@[i as int]))
                            =~= configured_roots_view(table, pre).push((root.id@, p@)));
                    }
                },
                None => {
                    let mut msg = String::from_str("No path configured for '");
                    msg.append(root.name.as_str());
                    msg.append("' (");
                    msg.append(root.id.as_str());
                    msg.append(") in plugin '");
                    msg.append(plugin_id);
                    msg.append("'");
                    assert(root_unconfigured(table, roots@[i as int]));
                    return Err(msg);
                },
            }
            i = i + 1;
        }
        assert(roots@.subrange(0, i as int) =~= roots@);
        Ok(out)
    }
}

/// Setting a folder and reading it back gives that folder; the folders of other
/// roots and of other plugins are unchanged.
pub proof fn lemma_set_plugin_path_read_back(
    c: ConfigView,
    pid: Seq<char>,
    rid: Seq<char>,
    path: Seq<char>,
    other_pid: Seq<char>,
    other_rid: Seq<char>,
)
    requires
        other_pid != pid,
        other_rid != rid,
    ensures
        lookup(table_or_empty(config_set(c, pid, rid, path), pid), rid) == Some(path),
        lookup(table_or_empty(config_set(c, pid, rid, path), pid), other_rid) == lookup(
            table_or_empty(c, pid),
            other_rid,
        ),
        lookup(config_set(c, pid, rid, path), other_pid) == lookup(c, other_pid),
{
    let t = table_insert(table_or_empty(c, pid), rid, path);
    lemma_table_insert(c, pid, t, other_pid);
    lemma_table_insert(table_or_empty(c, pid), rid, path, other_rid);
}

/// Moving an old game folder into a plugin's `game` root keeps a folder that the
/// root already has, sets it otherwise, and leaves the other roots and plugins unchanged.
pub proof fn lemma_migrate_game_path(
    c: ConfigView,
    pid: Seq<char>,
    path: Seq<char>,
    other_pid: Seq<char>,
    other_rid: Seq<char>,
)
    requires
        other_pid != pid,
        other_rid != "game"@,
    ensures
        lookup(table_or_empty(migrate_game_path(c, pid, path), pid), "game"@) == if has_key(
            table_or_empty(c, pid),
            "game"@,
        ) {
            lookup(table_or_empty(c, pid), "game"@)
        } else {
            Some(path)
        },
        lookup(table_or_empty(migrate_game_path(c, pid, path), pid), other_rid) == lookup(
            table_or_empty(c, pid),
            other_rid,
        ),
        lookup(migrate_game_path(c, pid, path), other_pid) == lookup(c, other_pid),
{
    let t = table_insert_absent(table_or_empty(c, pid), "game"@, path);
    lemma_table_insert(c, pid, t, other_pid);
    lemma_table_insert_absent(table_or_empty(c, pid), "game"@, path, other_rid);
}

} // verus!
