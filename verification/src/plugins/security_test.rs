//! The security-test plugin: a minimal game whose load order is the enabled
//! mods, one per line, and probes whose outcome reports what the sandbox allowed.
use vstd::prelude::*;
use vstd::string::*;

use super::load_order_text::{
    enabled_ids_in_order, join_lines, join_with_newlines, ordered_enabled_ids, strings_view,
};
use crate::models::plugin_api::{
    BuildLoadOrderInput, BuildLoadOrderOutput, GameFileWrite, GameMetadata, GamePathRoot,
    LoadOrderWriteTarget, ModDiscovery, ModDiscoveryMode,
};
use crate::services::plugin_manager::metadata_check;
use crate::text::{append_decimal, decimal};

verus! {

/// The outcome of one probe of the sandbox.
#[derive(Debug, Clone, PartialEq, Eq)]
pub struct ProbeResult {
    pub operation: String,
    pub success: bool,
    pub detail: String,
}

/// The outcomes of a set of probes.
#[derive(Debug, Clone, PartialEq, Eq)]
pub struct ProbeReport {
    pub results: Vec<ProbeResult>,
}

/// The outcome of probe `operation`: a success with the detail of `Ok`, or a
/// failure with the detail of `Err`.
pub fn probe_result(operation: &str, result: Result<String, String>) -> (r: ProbeResult)
    ensures
        r.operation@ == operation@,
        r.success == result is Ok,
        r.detail == match result {
            Ok(d) => d,
            Err(d) => d,
        },
{
    match result {
        Ok(detail) => ProbeResult { operation: String::from_str(operation), success: true, detail },
        Err(detail) => ProbeResult {
            operation: String::from_str(operation),
            success: false,
            detail,
        },
    }
}

/// The report of the HTTP probe: one GET request to `https://example.com`, which
/// the sandbox should refuse; `request` is what the request gave.
pub fn probe_http(request: Result<(), String>) -> (r: ProbeReport)
    ensures
        r.results@.len() == 1,
        r.results@[0].operation@ == "http_get_example"@,
        r.results@[0].success == request is Ok,
        r.results@[0].detail@ == match request {
            Ok(()) => "HTTP request unexpectedly succeeded"@,
            Err(e) => e@,
        },
{
    let outcome = match request {
        Ok(()) => Ok(String::from_str("HTTP request unexpectedly succeeded")),
        Err(e) => Err(e),
    };
    ProbeReport { results: vec![probe_result("http_get_example", outcome)] }
}

/// The file the file-system probe tries to create and delete.
pub const PROBE_FILE: &'static str = "plugin-security-created.txt";

/// The report of the file-system probe: listing the current folder (the number
/// of entries seen), creating the probe file and deleting it, each of which the
/// sandbox should refuse.
pub fn probe_filesystem(listed: Result<u64, String>, created: Result<(), String>, deleted: Result<(), String>) -> (r: ProbeReport)
    ensures
        r.results@.len() == 3,
        r.results@[0].operation@ == "list_current_directory"@,
        r.results@[0].success == listed is Ok,
        r.results@[0].detail@ == match listed {
            Ok(n) => "listed "@ + decimal(n as nat) + " visible entries"@,
            Err(e) => e@,
        },
        r.results@[1].operation@ == "create_file"@,
        r.results@[1].success == created is Ok,
        r.results@[1].detail@ == match created {
            Ok(()) => "created "@ + PROBE_FILE@,
            Err(e) => e@,
        },
        r.results@[2].operation@ == "delete_file"@,
        r.results@[2].success == deleted is Ok,
        r.results@[2].detail@ == match deleted {
            Ok(()) => "deleted "@ + PROBE_FILE@,
            Err(e) => e@,
        },
{
    let list_outcome = match listed {
        Ok(n) => {
            let mut d = String::from_str("listed ");
            append_decimal(&mut d, n);
            d.append(" visible entries");
            Ok(d)
        },
        Err(e) => Err(e),
    };
    let create_outcome = match created {
        Ok(()) => {
            let mut d = String::from_str("created ");
            d.append(PROBE_FILE);
            Ok(d)
        },
        Err(e) => Err(e),
    };
    let delete_outcome = match deleted {
        Ok(()) => {
            let mut d = String::from_str("deleted ");
            d.append(PROBE_FILE);
            Ok(d)
        },
        Err(e) => Err(e),
    };
    ProbeReport {
        results: vec![
            probe_result("list_current_directory", list_outcome),
            probe_result("create_file", create_outcome),
            probe_result("delete_file", delete_outcome),
        ],
    }
}

/// The load-order text: the lines, each followed by a line break (nothing for no line).
pub open spec fn lines_text(ids: Seq<Seq<char>>) -> Seq<char> {
    if join_lines(ids).len() > 0 {
        join_lines(ids) + seq!['\n']
    } else {
        join_lines(ids)
    }
}

/// The game this plugin declares: one `game` root, directory mods in `mods`, and
/// the load order in `security-loadorder.txt`.
pub fn get_game_metadata() -> (r: GameMetadata)
    ensures
        r.api_version == 2,
        r.name@ == "Security Test Plugin"@,
        r.executable@ == "security-test.exe"@,
        r.path_roots@.len() == 1,
        r.path_roots@[0].id@ == "game"@,
        r.path_roots@[0].name@ == "Security test game folder"@,
        r.path_roots@[0].description@ == "Folder used for security probe mod discovery."@,
        r.mod_discovery.mode == (ModDiscoveryMode::DirectoryMods {
            required_prefix: None,
            metadata_file: None,
        }),
        r.mod_discovery.root_id@ == "game"@,
        r.mod_discovery.relative_path@ == "mods"@,
        r.load_order_writes@.len() == 1,
        r.load_order_writes@[0].root_id@ == "game"@,
        r.load_order_writes@[0].relative_path@ == "security-loadorder.txt"@,
        forall|pid: Seq<char>| #[trigger] metadata_check(pid, r) is Ok,
{
    proof {
        reveal_strlit("game");
        reveal_strlit("Security test game folder");
        reveal_strlit("mods");
        reveal_strlit("security-loadorder.txt");
    }
    let r = GameMetadata {
        api_version: 2,
        name: String::from_str("Security Test Plugin"),
        executable: String::from_str("security-test.exe"),
        path_roots: vec![
            GamePathRoot {
                id: String::from_str("game"),
                name: String::from_str("Security test game folder"),
                description: String::from_str("Folder used for security probe mod discovery."),
            },
        ],
        mod_discovery: ModDiscovery {
            root_id: String::from_str("game"),
            relative_path: String::from_str("mods"),
            mode: ModDiscoveryMode::DirectoryMods { required_prefix: None, metadata_file: None },
        },
        load_order_writes: vec![
            LoadOrderWriteTarget {
                root_id: String::from_str("game"),
                relative_path: String::from_str("security-loadorder.txt"),
            },
        ],
    };
    proof {
        assert(!crate::text::is_ws(r.path_roots@[0].id@[0]));
        assert(!crate::text::is_ws(r.path_roots@[0].name@[0]));
        assert(!crate::text::is_ws(r.mod_discovery.relative_path@[0]));
        assert(!crate::text::is_ws(r.load_order_writes@[0].relative_path@[0]));
        assert(crate::services::plugin_manager::root_declared(r.path_roots@, "game"@));
        assert(!r.mod_discovery.relative_path@.contains('\\'));
        assert(!r.mod_discovery.relative_path@.contains(':'));
        assert(!r.load_order_writes@[0].relative_path@.contains('\\'));
        assert(!r.load_order_writes@[0].relative_path@.contains(':'));
        assert(!crate::services::path_safety::has_parent_segment(r.mod_discovery.relative_path@));
        assert(!crate::services::path_safety::has_parent_segment(r.load_order_writes@[0].relative_path@));
        assert forall|pid: Seq<char>| #[trigger] metadata_check(pid, r) is Ok by {
            assert(crate::services::plugin_manager::first_root_error(pid, r.path_roots@, 1) is None);
            assert(crate::services::plugin_manager::first_write_error(
                pid,
                r.path_roots@,
                r.load_order_writes@,
                1,
            ) is None);
        }
    }
    r
}

/// One file, `security-loadorder.txt` under the `game` root: the ids of the
/// enabled mods by priority, one per line.
pub fn build_load_order(input: &BuildLoadOrderInput) -> (r: BuildLoadOrderOutput)
    ensures
        r.writes@.len() == 1,
        r.writes@[0].root_id@ == "game"@,
        r.writes@[0].relative_path@ == "security-loadorder.txt"@,
        exists|ids: Seq<Seq<char>>|
            ordered_enabled_ids(input.mods@, ids) && r.writes@[0].content@ == lines_text(ids),
{
    let ids = enabled_ids_in_order(&input.mods);
    let mut content = join_with_newlines(&ids);
    if content.unicode_len() > 0 {
        content.append("\n");
        proof {
            reveal_strlit("\n");
        }
    }
    assert(content@ == lines_text(strings_view(ids@)));
    BuildLoadOrderOutput {
        writes: vec![
            GameFileWrite {
                root_id: String::from_str("game"),
                relative_path: String::from_str("security-loadorder.txt"),
                content,
            },
        ],
    }
}

} // verus!
