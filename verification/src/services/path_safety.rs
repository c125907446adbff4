//! Safety checks for paths that plugins hand back relative to a configured root.
//!
//! Paths use `/` as separator, as `std::path` does on Unix: a relative path is
//! accepted when it cannot leave the root it is joined to.
use vstd::prelude::*;
use vstd::string::*;

use crate::text::{chars_contain, chars_of, is_blank, str_is_blank};

verus! {

pub open spec fn msg_empty_relative_path() -> Seq<char> {
    "Plugin returned an empty relative_path"@
}

pub open spec fn msg_unsafe_relative_path(p: Seq<char>) -> Seq<char> {
    "Plugin returned unsafe relative_path: "@ + p
}

pub open spec fn msg_absolute_relative_path(p: Seq<char>) -> Seq<char> {
    "Plugin returned absolute relative_path: "@ + p
}

/// The path holds a Windows separator or a drive / stream colon.
pub open spec fn has_forbidden_char(s: Seq<char>) -> bool {
    s.contains('\\') || s.contains(':')
}

/// The path begins at the filesystem root.
pub open spec fn is_absolute(s: Seq<char>) -> bool {
    s.len() > 0 && s[0] == '/'
}

/// The first component is `.` (the path is `.` or starts with `./`).
pub open spec fn has_leading_cur_dir(s: Seq<char>) -> bool {
    s.len() > 0 && s[0] == '.' && (s.len() == 1 || s[1] == '/')
}

/// A `..` component starts at index `i`.
pub open spec fn parent_segment_at(s: Seq<char>, i: int) -> bool {
    &&& 0 <= i
    &&& i + 1 < s.len()
    &&& s[i] == '.'
    &&& s[i + 1] == '.'
    &&& (i == 0 || s[i - 1] == '/')
    &&& (i + 2 == s.len() || s[i + 2] == '/')
}

/// Some component of the path is `..`.
pub open spec fn has_parent_segment(s: Seq<char>) -> bool {
    exists|i: int| parent_segment_at(s, i)
}

/// What `validate_plugin_relative_path` returns for the path `s`.
pub open spec fn relative_path_check(s: Seq<char>) -> Result<(), Seq<char>> {
    if is_blank(s) {
        Err(msg_empty_relative_path())
    } else if has_forbidden_char(s) {
        Err(msg_unsafe_relative_path(s))
    } else if is_absolute(s) {
        Err(msg_absolute_relative_path(s))
    } else if has_leading_cur_dir(s) || has_parent_segment(s) {
        Err(msg_unsafe_relative_path(s))
    } else {
        Ok(())
    }
}

/// The path is accepted as a plugin-relative path.
pub open spec fn is_safe_relative_path(s: Seq<char>) -> bool {
    relative_path_check(s) is Ok
}

/// `PathBuf::join` on `/`-separated paths: an absolute `rel` replaces `base`;
/// otherwise a separator is put between them unless `base` is empty or ends in one.
pub open spec fn path_join(base: Seq<char>, rel: Seq<char>) -> Seq<char> {
    if is_absolute(rel) {
        rel
    } else if base.len() == 0 || base.last() == '/' {
        base + rel
    } else {
        base + seq!['/'] + rel
    }
}

fn find_parent_segment(v: &Vec<char>) -> (r: bool)
    ensures
        r == has_parent_segment(v@),
{
    let n = v.len();
    let mut i: usize = 0;
    while i < n && i + 1 < n
        invariant
            n == v@.len(),
            i <= n,
            forall|k: int| 0 <= k < i ==> !parent_segment_at(v@, k),
        decreases n - i,
    {
        if v[i] == '.' && v[i + 1] == '.' && (i == 0 || v[i - 1] == '/') && (i + 2 == n || v[i
            + 2] == '/') {
            assert(parent_segment_at(v@, i as int));
            return true;
        }
        i = i + 1;
    }
    assert forall|k: int| !parent_segment_at(v@, k) by {
        if 0 <= k && k >= i {
            assert(!(k + 1 < n as int));
        }
    }
    false
}

/// Checks that a path returned by a plugin is a non-empty relative path that
/// stays below the root it is joined to.
pub fn validate_plugin_relative_path(relative_path: &str) -> (r: Result<(), String>)
    ensures
        match r {
            Ok(()) => relative_path_check(relative_path@) is Ok,
            Err(e) => relative_path_check(relative_path@) == Err::<(), Seq<char>>(e@),
        },
{
    if str_is_blank(relative_path) {
        return Err(String::from_str("Plugin returned an empty relative_path"));
    }
    let v = chars_of(relative_path);
    if chars_contain(&v, '\\') || chars_contain(&v, ':') {
        let mut msg = String::from_str("Plugin returned unsafe relative_path: ");
        msg.append(relative_path);
        return Err(msg);
    }
    if v.len() > 0 && v[0] == '/' {
        let mut msg = String::from_str("Plugin returned absolute relative_path: ");
        msg.append(relative_path);
        return Err(msg);
    }
    let leading_cur_dir = v.len() > 0 && v[0] == '.' && (v.len() == 1 || v[1] == '/');
    if leading_cur_dir || find_parent_segment(&v) {
        let mut msg = String::from_str("Plugin returned unsafe relative_path: ");
        msg.append(relative_path);
        return Err(msg);
    }
    Ok(())
}

/// `base.join(rel)` on `/`-separated paths.
pub fn join_path(base: &str, rel: &str) -> (r: String)
    ensures
        r@ == path_join(base@, rel@),
{
    let b = chars_of(base);
    let v = chars_of(rel);
    if v.len() > 0 && v[0] == '/' {
        return String::from_str(rel);
    }
    let mut out = String::from_str(base);
    if !(b.len() == 0 || b[b.len() - 1] == '/') {
        out.append("/");
        proof {
            reveal_strlit("/");
        }
    }
    out.append(rel);
    out
}

/// Validates `relative_path` and joins it onto `root` without touching the filesystem.
pub fn join_validated_plugin_path(root: &str, relative_path: &str) -> (r: Result<String, String>)
    ensures
        match r {
            Ok(p) => relative_path_check(relative_path@) is Ok && p@ == path_join(
                root@,
                relative_path@,
            ),
            Err(e) => relative_path_check(relative_path@) == Err::<(), Seq<char>>(e@),
        },
{
    match validate_plugin_relative_path(relative_path) {
        Ok(()) => Ok(join_path(root, relative_path)),
        Err(e) => Err(e),
    }
}

/// A path accepted by `validate_plugin_relative_path` is non-blank, has no
/// separator other than `/`, no colon, does not start at the root, and has no `.`
/// as its first component and no `..` component anywhere: joined onto a root it
/// is the root, a separator where one is missing, and the path itself.
pub proof fn lemma_validated_path_stays_under_root(root: Seq<char>, rel: Seq<char>)
    requires
        is_safe_relative_path(rel),
    ensures
        !is_blank(rel),
        !rel.contains('\\') && !rel.contains(':'),
        !is_absolute(rel),
        !has_leading_cur_dir(rel),
        forall|i: int| !parent_segment_at(rel, i),
        path_join(root, rel) == if root.len() == 0 || root.last() == '/' {
            root + rel
        } else {
            root + seq!['/'] + rel
        },
        path_join(root, rel).subrange(0, root.len() as int) == root,
{
    let j = path_join(root, rel);
    assert(j.subrange(0, root.len() as int) =~= root);
}

} // verus!
