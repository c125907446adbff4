//! The Witcher 3 plugin: its game description (directory mods under `mods` in
//! the game folder, the load order in `mods.settings` in the documents folder),
//! the `mods.settings` text for a load order, and reading a line-based order.
use vstd::prelude::*;
use vstd::string::*;

use super::load_order_text::{entry_priorities, join_lines, kept_lines, non_blank_lines, split_lines, strings_view};
use crate::models::game_mod::ModEntry;
use crate::models::plugin_api::{
    BuildLoadOrderInput, BuildLoadOrderOutput, GameFileWrite, GameMetadata, GamePathRoot,
    LoadOrderWriteTarget, ModDiscovery, ModDiscoveryMode,
};
use crate::ordering::{is_stable_order, stable_priority_order};
use crate::services::plugin_manager::metadata_check;
use crate::text::{append_decimal, decimal};

verus! {

/// The game's display name.
pub fn get_game_name() -> (r: String)
    ensures
        r@ == "The Witcher 3: Wild Hunt"@,
{
    String::from_str("The Witcher 3: Wild Hunt")
}

/// The game this plugin declares: a `game` root and a `documents` root, mods as
/// folders named `mod...` in `mods` under the game folder, and the load order in
/// `mods.settings` under the documents folder.
pub fn get_game_metadata() -> (r: GameMetadata)
    ensures
        r.api_version == 2,
        r.name@ == "The Witcher 3: Wild Hunt"@,
        r.executable@ == "witcher3.exe"@,
        r.path_roots@.len() == 2,
        r.path_roots@[0].id@ == "game"@,
        r.path_roots@[0].name@ == "Witcher 3 game folder"@,
        r.path_roots@[0].description@ == "Folder that contains the game executable and the mods folder."@,
        r.path_roots@[1].id@ == "documents"@,
        r.path_roots@[1].name@ == "Witcher 3 documents folder"@,
        r.path_roots@[1].description@ == "Documents/The Witcher 3 folder that holds mods.settings."@,
        r.mod_discovery.root_id@ == "game"@,
        r.mod_discovery.relative_path@ == "mods"@,
        r.mod_discovery.mode matches ModDiscoveryMode::DirectoryMods { required_prefix, metadata_file }
            && metadata_file is None && required_prefix is Some && required_prefix->0@ == "mod"@,
        r.load_order_writes@.len() == 1,
        r.load_order_writes@[0].root_id@ == "documents"@,
        r.load_order_writes@[0].relative_path@ == "mods.settings"@,
        forall|pid: Seq<char>| #[trigger] metadata_check(pid, r) is Ok,
{
    proof {
        reveal_strlit("game");
        reveal_strlit("documents");
        reveal_strlit("Witcher 3 game folder");
        reveal_strlit("Witcher 3 documents folder");
        reveal_strlit("mods");
        reveal_strlit("mods.settings");
    }
    let r = GameMetadata {
        api_version: 2,
        name: String::from_str("The Witcher 3: Wild Hunt"),
        executable: String::from_str("witcher3.exe"),
        path_roots: vec![
            GamePathRoot {
                id: String::from_str("game"),
                name: String::from_str("Witcher 3 game folder"),
                description: String::from_str("Folder that contains the game executable and the mods folder."),
            },
            GamePathRoot {
                id: String::from_str("documents"),
                name: String::from_str("Witcher 3 documents folder"),
                description: String::from_str("Documents/The Witcher 3 folder that holds mods.settings."),
            },
        ],
        mod_discovery: ModDiscovery {
            root_id: String::from_str("game"),
            relative_path: String::from_str("mods"),
            mode: ModDiscoveryMode::DirectoryMods {
                required_prefix: Some(String::from_str("mod")),
                metadata_file: None,
            },
        },
        load_order_writes: vec![
            LoadOrderWriteTarget {
                root_id: String::from_str("documents"),
                relative_path: String::from_str("mods.settings"),
            },
        ],
    };
    proof {
        assert(!crate::text::is_ws(r.path_roots@[0].id@[0]));
        assert(!crate::text::is_ws(r.path_roots@[0].name@[0]));
        assert(!crate::text::is_ws(r.path_roots@[1].id@[0]));
        assert(!crate::text::is_ws(r.path_roots@[1].name@[0]));
        assert(!crate::text::is_ws(r.mod_discovery.relative_path@[0]));
        assert(!crate::text::is_ws(r.load_order_writes@[0].relative_path@[0]));
        assert(r.path_roots@[0].id@ != r.path_roots@[1].id@) by {
            assert(r.path_roots@[0].id@[0] != r.path_roots@[1].id@[0]);
        }
        assert(crate::services::plugin_manager::root_declared(r.path_roots@, "game"@));
        assert(crate::services::plugin_manager::root_declared(r.path_roots@, "documents"@)) by {
            assert(r.path_roots@[1].id@ == "documents"@);
        }
        assert(!r.mod_discovery.relative_path@.contains('\\'));
        assert(!r.mod_discovery.relative_path@.contains(':'));
        assert(!r.load_order_writes@[0].relative_path@.contains('\\'));
        assert(!r.load_order_writes@[0].relative_path@.contains(':'));
        assert(!crate::services::path_safety::has_parent_segment(r.mod_discovery.relative_path@));
        assert(!crate::services::path_safety::has_parent_segment(r.load_order_writes@[0].relative_path@));
        assert forall|pid: Seq<char>| #[trigger] metadata_check(pid, r) is Ok by {
            assert(crate::services::plugin_manager::first_root_error(pid, r.path_roots@, 2) is None);
            assert(crate::services::plugin_manager::first_root_error(pid, r.path_roots@, 1) is None);
            assert(crate::services::plugin_manager::first_root_error(pid, r.path_roots@, 0) is None);
            assert(crate::services::plugin_manager::first_write_error(
                pid,
                r.path_roots@,
                r.load_order_writes@,
                1,
            ) is None);
        }
    }
    r
}

/// The `mods.settings` section of mod `m` at 1-based position `n`.
pub open spec fn settings_section(m: ModEntry, n: nat) -> Seq<char> {
    "["@ + m.id@ + "]\nEnabled="@ + (if m.enabled { "1"@ } else { "0"@ }) + "\nPriority="@
        + decimal(n) + "\n"@
}

/// The sections of the mods taken in `order`, numbered from 1.
pub open spec fn settings_sections(mods: Seq<ModEntry>, order: Seq<usize>) -> Seq<Seq<char>> {
    Seq::new(order.len(), |i: int| settings_section(mods[order[i] as int], (i + 1) as nat))
}

/// One file, `mods.settings` under the `documents` root: a section for every mod
/// (enabled or not), by priority with equal priorities in the order given,
/// separated by blank lines.
pub fn build_load_order(input: &BuildLoadOrderInput) -> (r: BuildLoadOrderOutput)
    ensures
        r.writes@.len() == 1,
        r.writes@[0].root_id@ == "documents"@,
        r.writes@[0].relative_path@ == "mods.settings"@,
        exists|order: Seq<usize>|
            is_stable_order(entry_priorities(input.mods@), order)
                && r.writes@[0].content@ == join_lines(settings_sections(input.mods@, order)),
{
    let mods = &input.mods;
    let mut p: Vec<u32> = Vec::new();
    let mut j: usize = 0;
    while j < mods.len()
        invariant
            j <= mods@.len(),
            p@ == entry_priorities(mods@).subrange(0, j as int),
        decreases mods.len() - j,
    {
        p.push(mods[j].priority);
        j = j + 1;
        assert(p@ =~= entry_priorities(mods@).subrange(0, j as int));
    }
    assert(p@ =~= entry_priorities(mods@));
    let order = stable_priority_order(&p);
    let ghost sections = settings_sections(mods@, order@);
    let mut content = String::new();
    let mut i: usize = 0;
    while i < order.len()
        invariant
            is_stable_order(entry_priorities(mods@), order@),
            sections == settings_sections(mods@, order@),
            i <= order@.len(),
            content@ == join_lines(sections.subrange(0, i as int)),
        decreases order.len() - i,
    {
        let k = order[i];
        assert(k < mods@.len()) by {
            assert(order@[i as int] < entry_priorities(mods@).len());
        }
        let ghost before = content@;
        proof {
            reveal_strlit("\n");
        }
        if i > 0 {
            content.append("\n");
        }
        let ghost sep = content@;
        let m = &mods[k];
        content.append("[");
        content.append(m.id.as_str());
        content.append("]\nEnabled=");
        if m.enabled {
            content.append("1");
        } else {
            content.append("0");
        }
        content.append("\nPriority=");
        append_decimal(&mut content, (i as u64) + 1);
        content.append("\n");
        proof {
            let prev = sections.subrange(0, i as int);
            let next = sections.subrange(0, i + 1);
            assert(next.drop_last() =~= prev);
            assert(next.last() == settings_section(mods@[k as int], (i + 1) as nat));
            assert(content@ =~= sep + settings_section(mods@[k as int], (i + 1) as nat));
            if i == 0 {
                assert(sep =~= Seq::<char>::empty());
                assert(content@ =~= next.last());
            } else {
                assert(sep =~= before + seq!['\n']);
                assert(join_lines(next) == join_lines(prev) + seq!['\n'] + next.last());
            }
        }
        i = i + 1;
    }
    assert(sections.subrange(0, order@.len() as int) =~= sections);
    BuildLoadOrderOutput {
        writes: vec![
            GameFileWrite {
                root_id: String::from_str("documents"),
                relative_path: String::from_str("mods.settings"),
                content,
            },
        ],
    }
}

/// The load order in a file: its non-blank lines, trimmed.
pub fn read_load_order(content: &str) -> (r: Vec<String>)
    ensures
        strings_view(r@) == kept_lines(split_lines(content@)),
{
    non_blank_lines(content)
}

} // verus!
