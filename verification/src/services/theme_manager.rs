//! The CSS themes in the themes folder and the active one.
use vstd::prelude::*;
use vstd::string::*;

use super::mod_discovery::{file_extension, file_stem};
use super::path_safety::{join_path, path_join};
use crate::models::config::ThemeInfo;
use crate::text::{chars_last_index_of, chars_of, lemma_last_index_of_bounds, str_eq};

verus! {

/// The themes among the first `k` folder entries: those with extension `css`,
/// named by their stem, marked active when the stem is the active theme.
pub open spec fn scan_themes(names: Seq<String>, active: Option<Seq<char>>, k: int) -> Seq<
    (Seq<char>, bool),
>
    decreases k,
{
    if k <= 0 {
        Seq::empty()
    } else {
        let acc = scan_themes(names, active, k - 1);
        let n = names[k - 1]@;
        if file_extension(n) == Some("css"@) {
            acc.push((file_stem(n), active == Some(file_stem(n))))
        } else {
            acc
        }
    }
}

/// A listed theme is marked active exactly when its name is the active theme's
/// name; so only themes of that one name are marked.
pub proof fn lemma_listed_theme_active_iff_named(names: Seq<String>, active: Option<Seq<char>>, k: int)
    ensures
        forall|i: int|
            0 <= i < scan_themes(names, active, k).len() ==> ((#[trigger] scan_themes(names, active, k)[i]).1
                <==> active == Some(scan_themes(names, active, k)[i].0)),
        forall|i: int, j: int|
            0 <= i < scan_themes(names, active, k).len() && 0 <= j < scan_themes(names, active, k).len()
                && (#[trigger] scan_themes(names, active, k)[i]).1 && (#[trigger] scan_themes(
                names,
                active,
                k,
            )[j]).1 ==> scan_themes(names, active, k)[i].0 == scan_themes(names, active, k)[j].0,
    decreases k,
{
    if k > 0 {
        lemma_listed_theme_active_iff_named(names, active, k - 1);
        let acc = scan_themes(names, active, k - 1);
        let cur = scan_themes(names, active, k);
        assert forall|i: int| 0 <= i < cur.len() implies ((#[trigger] cur[i]).1 <==> active == Some(cur[i].0)) by {
            if i < acc.len() {
                assert(cur[i] == acc[i]);
            }
        }
    }
}

pub open spec fn msg_theme_not_found(name: Seq<char>) -> Seq<char> {
    "Theme '"@ + name + "' not found"@
}

/// The active theme name `after` is what a call of `set_active_theme` with `name`,
/// successful or not (`ok`), leaves of the active theme name `before`.
pub open spec fn theme_step(before: Seq<char>, name: Seq<char>, ok: bool, after: Seq<char>) -> bool {
    if ok {
        after == name
    } else {
        after == before
    }
}

/// The name of the last successful call among `calls` (each a name and whether
/// the call succeeded), or `start` if none succeeded.
pub open spec fn last_set_theme(start: Seq<char>, calls: Seq<(Seq<char>, bool)>) -> Seq<char>
    decreases calls.len(),
{
    if calls.len() == 0 {
        start
    } else if calls.last().1 {
        calls.last().0
    } else {
        last_set_theme(start, calls.drop_last())
    }
}

/// After any calls of `set_active_theme`, the active theme is the name given to
/// the last call that succeeded (possibly empty), or the starting theme (the one
/// a `ThemeManager` was made with) when none did: `names[i + 1]` is what
/// `calls[i]` leaves of `names[i]`.
pub proof fn lemma_active_theme_is_last_set(names: Seq<Seq<char>>, calls: Seq<(Seq<char>, bool)>)
    requires
        names.len() == calls.len() + 1,
        forall|i: int|
            0 <= i < calls.len() ==> theme_step(names[i], (#[trigger] calls[i]).0, calls[i].1, names[i + 1]),
    ensures
        names.last() == last_set_theme(names[0], calls),
    decreases calls.len(),
{
    if calls.len() > 0 {
        let n = calls.len() - 1;
        assert forall|i: int| 0 <= i < calls.drop_last().len() implies theme_step(
            names.drop_last()[i],
            (#[trigger] calls.drop_last()[i]).0,
            calls.drop_last()[i].1,
            names.drop_last()[i + 1],
        ) by {
            assert(theme_step(names[i], calls[i].0, calls[i].1, names[i + 1]));
        }
        lemma_active_theme_is_last_set(names.drop_last(), calls.drop_last());
        assert(theme_step(names[n], calls[n].0, calls[n].1, names[n + 1]));
    }
}

fn theme_not_found(name: &str) -> (r: String)
    ensures
        r@ == msg_theme_not_found(name@),
{
    let mut m = String::from_str("Theme '");
    m.append(name);
    m.append("' not found");
    proof {
        reveal_strlit("Theme '");
        reveal_strlit("' not found");
    }
    m
}

/// The themes folder and the active theme.
pub struct ThemeManager {
    themes_dir: String,
    active_theme: Option<String>,
}

impl ThemeManager {
    pub closed spec fn spec_themes_dir(&self) -> Seq<char> {
        self.themes_dir@
    }

    pub closed spec fn spec_active_theme(&self) -> Option<Seq<char>> {
        match self.active_theme {
            Some(s) => Some(s@),
            None => None,
        }
    }

    /// The name of the active theme, or the empty string when there is none.
    pub open spec fn spec_active_theme_name(&self) -> Seq<char> {
        match self.spec_active_theme() {
            Some(s) => s,
            None => Seq::empty(),
        }
    }

    /// Themes are looked for in `data_dir/themes`; an empty `active_theme` means none.
    pub fn new(data_dir: &str, active_theme: &str) -> (r: ThemeManager)
        ensures
            r.spec_themes_dir() == path_join(data_dir@, "themes"@),
            r.spec_active_theme() == if active_theme@.len() == 0 {
                None
            } else {
                Some(active_theme@)
            },
            r.spec_active_theme_name() == active_theme@,
    {
        let active = if active_theme.unicode_len() == 0 {
            None
        } else {
            Some(String::from_str(active_theme))
        };
        ThemeManager { themes_dir: join_path(data_dir, "themes"), active_theme: active }
    }

    /// The themes folder.
    pub fn themes_dir(&self) -> (r: &str)
        ensures
            r@ == self.spec_themes_dir(),
    {
        self.themes_dir.as_str()
    }

    /// The themes among the names of the entries of the themes folder.
    pub fn themes_from_entries(&self, entry_names: &Vec<String>) -> (r: Vec<ThemeInfo>)
        ensures
            r@.map_values(|t: ThemeInfo| (t.name@, t.is_active)) == scan_themes(
                entry_names@,
                self.spec_active_theme(),
                entry_names@.len() as int,
            ),
            forall|i: int|
                0 <= i < r@.len() ==> ((#[trigger] r@[i]).is_active <==> self.spec_active_theme()
                    == Some(r@[i].name@)),
    {
        proof {
            lemma_listed_theme_active_iff_named(entry_names@, self.spec_active_theme(), entry_names@.len() as int);
        }
        let mut out: Vec<ThemeInfo> = Vec::new();
        let mut k: usize = 0;
        assert(out@.map_values(|t: ThemeInfo| (t.name@, t.is_active)) =~= Seq::<
            (Seq<char>, bool),
        >::empty());
        while k < entry_names.len()
            invariant
                k <= entry_names@.len(),
                out@.map_values(|t: ThemeInfo| (t.name@, t.is_active)) == scan_themes(
                    entry_names@,
                    self.spec_active_theme(),
                    k as int,
                ),
            decreases entry_names.len() - k,
        {
            let name = entry_names[k].as_str();
            let v = chars_of(name);
            proof {
                lemma_last_index_of_bounds(v@, '.');
                reveal_strlit("..");
                reveal_strlit("css");
            }
            let is_dotdot = v.len() == 2 && v[0] == '.' && v[1] == '.';
            assert(is_dotdot == (v@ == ".."@)) by {
                if v@ == ".."@ {
                    assert(v@[0] == ".."@[0]);
                }
                if is_dotdot {
                    assert(v@ =~= ".."@);
                }
            }
            match chars_last_index_of(&v, '.') {
                Some(d) => {
                    if !is_dotdot && d > 0 {
                        let ext = name.substring_char(d + 1, v.len());
                        if str_eq(ext, "css") {
                            let stem = String::from_str(name.substring_char(0, d));
                            let is_active = match &self.active_theme {
                                Some(a) => str_eq(a.as_str(), stem.as_str()),
                                None => false,
                            };
                            let ghost before = out@;
                            out.push(ThemeInfo { name: stem, is_active });
                            assert(out@.map_values(|t: ThemeInfo| (t.name@, t.is_active)) =~= before.map_values(
                                |t: ThemeInfo| (t.name@, t.is_active),
                            ).push((file_stem(entry_names@[k as int]@), is_active)));
                        }
                    }
                },
                None => {},
            }
            k = k + 1;
        }
        proof {
            let sc = scan_themes(entry_names@, self.spec_active_theme(), entry_names@.len() as int);
            assert forall|i: int| 0 <= i < out@.len() implies ((#[trigger] out@[i]).is_active
                <==> self.spec_active_theme() == Some(out@[i].name@)) by {
                assert(out@.map_values(|t: ThemeInfo| (t.name@, t.is_active))[i] == sc[i]);
            }
        }
        out
    }

    /// The CSS file of theme `name`; the empty name has none.
    pub fn theme_css_path(&self, name: &str) -> (r: Option<String>)
        ensures
            match r {
                None => name@.len() == 0,
                Some(p) => name@.len() > 0 && p@ == path_join(
                    self.spec_themes_dir(),
                    name@ + ".css"@,
                ),
            },
    {
        if name.unicode_len() == 0 {
            return None;
        }
        let mut file = String::from_str(name);
        file.append(".css");
        Some(join_path(self.themes_dir.as_str(), file.as_str()))
    }

    /// The CSS file to read for theme `name`, given whether that file exists:
    /// none for the empty name, which has no CSS, and an error for a missing file.
    pub fn theme_css_file(&self, name: &str, css_file_exists: bool) -> (r: Result<Option<String>, String>)
        ensures
            name@.len() == 0 ==> r matches Ok(None),
            name@.len() > 0 && css_file_exists ==> (r matches Ok(Some(p)) && p@ == path_join(
                self.spec_themes_dir(),
                name@ + ".css"@,
            )),
            name@.len() > 0 && !css_file_exists ==> (r matches Err(e) && e@ == msg_theme_not_found(name@)),
    {
        match self.theme_css_path(name) {
            None => Ok(None),
            Some(p) => {
                if css_file_exists {
                    Ok(Some(p))
                } else {
                    Err(theme_not_found(name))
                }
            },
        }
    }

    /// Makes `name` the active theme, given whether its CSS file exists; the
    /// empty name clears the active theme.
    pub fn set_active_theme(&mut self, name: &str, css_file_exists: bool) -> (r: Result<(), String>)
        ensures
            final(self).spec_themes_dir() == old(self).spec_themes_dir(),
            name@.len() == 0 ==> r is Ok && final(self).spec_active_theme() is None,
            name@.len() > 0 && css_file_exists ==> r is Ok && final(self).spec_active_theme()
                == Some(name@),
            name@.len() > 0 && !css_file_exists ==> (r matches Err(e) && e@
                == msg_theme_not_found(name@)) && final(self).spec_active_theme() == old(
                self,
            ).spec_active_theme(),
            r is Ok ==> final(self).spec_active_theme_name() == name@,
            theme_step(
                old(self).spec_active_theme_name(),
                name@,
                r is Ok,
                final(self).spec_active_theme_name(),
            ),
    {
        if name.unicode_len() == 0 {
            self.active_theme = None;
            return Ok(());
        }
        if !css_file_exists {
            return Err(theme_not_found(name));
        }
        self.active_theme = Some(String::from_str(name));
        Ok(())
    }

    /// The active theme, or the empty string.
    pub fn get_active_theme(&self) -> (r: &str)
        ensures
            r@ == self.spec_active_theme_name(),
    {
        match &self.active_theme {
            Some(s) => s.as_str(),
            None => {
                proof {
                    reveal_strlit("");
                }
                ""
            },
        }
    }
}

} // verus!
