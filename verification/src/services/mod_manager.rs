//! The mods of the active plugin: their order, enabled flags and saved state.
use vstd::prelude::*;
use vstd::string::*;

use super::path_safety::{join_path, path_join};
use crate::models::game_mod::{
    copy_mod_info, mod_priorities, mods_view, ModEntry, ModInfo, ModState,
};
use crate::ordering::{
    is_stable_order, lemma_stable_order_unique, occurs, priority_before, stable_priority_order,
};
use crate::text::str_eq;

verus! {

/// The position of the first mod with id `id`, if any.
pub open spec fn mod_index(mods: Seq<ModInfo>, id: Seq<char>) -> Option<int> {
    if exists|i: int| 0 <= i < mods.len() && mods[i].id@ == id {
        Some(
            choose|i: int|
                0 <= i < mods.len() && mods[i].id@ == id && forall|j: int|
                    0 <= j < i ==> mods[j].id@ != id,
        )
    } else {
        None
    }
}

/// `m` with its enabled flag set to `enabled`.
pub open spec fn with_enabled(m: ModInfo, enabled: bool) -> ModInfo {
    ModInfo {
        id: m.id,
        name: m.name,
        version: m.version,
        description: m.description,
        enabled: enabled,
        priority: m.priority,
    }
}

/// `m` with its priority set to `priority`.
pub open spec fn with_priority(m: ModInfo, priority: u32) -> ModInfo {
    ModInfo {
        id: m.id,
        name: m.name,
        version: m.version,
        description: m.description,
        enabled: m.enabled,
        priority: priority,
    }
}

/// `m` with the enabled flag and priority of a saved entry.
pub open spec fn with_saved(m: ModInfo, e: ModEntry) -> ModInfo {
    ModInfo {
        id: m.id,
        name: m.name,
        version: m.version,
        description: m.description,
        enabled: e.enabled,
        priority: e.priority,
    }
}

/// The mods named by the first `k` ids, each the first mod with that id, with
/// its position among the ids as priority; ids of no mod are skipped.
pub open spec fn reordered(mods: Seq<ModInfo>, ids: Seq<String>, k: int) -> Seq<ModInfo>
    decreases k,
{
    if k <= 0 {
        Seq::empty()
    } else {
        let prev = reordered(mods, ids, k - 1);
        match mod_index(mods, ids[k - 1]@) {
            Some(j) => prev.push(with_priority(mods[j], (k - 1) as u32)),
            None => prev,
        }
    }
}

/// The mods after applying the first `k` saved entries: each entry sets the
/// enabled flag and priority of the first mod with its id.
pub open spec fn apply_saved(mods: Seq<ModInfo>, saved: Seq<ModEntry>, k: int) -> Seq<ModInfo>
    decreases k,
{
    if k <= 0 {
        mods
    } else {
        let prev = apply_saved(mods, saved, k - 1);
        match mod_index(prev, saved[k - 1].id@) {
            Some(j) => prev.update(j, with_saved(prev[j], saved[k - 1])),
            None => prev,
        }
    }
}

/// `output` is `input` sorted stably by priority.
pub open spec fn sorted_by_priority(input: Seq<ModInfo>, output: Seq<ModInfo>) -> bool {
    exists|order: Seq<usize>|
        is_stable_order(mod_priorities(input), order) && output == order.map_values(
            |k: usize| input[k as int],
        )
}

/// The saved state of a list of mods.
pub open spec fn state_of(mods: Seq<ModInfo>) -> Seq<ModEntry> {
    mods.map_values(|m: ModInfo| ModEntry { id: m.id, enabled: m.enabled, priority: m.priority })
}

/// Position of the first mod with id `id`.
pub fn find_mod(mods: &Vec<ModInfo>, id: &str) -> (r: Option<usize>)
    ensures
        match r {
            Some(i) => mod_index(mods@, id@) == Some(i as int) && i < mods@.len(),
            None => mod_index(mods@, id@) is None,
        },
{
    let mut i: usize = 0;
    while i < mods.len()
        invariant
            i <= mods@.len(),
            forall|j: int| 0 <= j < i ==> mods@[j].id@ != id@,
        decreases mods.len() - i,
    {
        if str_eq(mods[i].id.as_str(), id) {
            proof {
                let ms = mods@;
                let k = choose|k: int|
                    0 <= k < ms.len() && ms[k].id@ == id@ && forall|j: int|
                        0 <= j < k ==> ms[j].id@ != id@;
                assert(k == i) by {
                    if k < i {
                        assert(ms[k].id@ != id@);
                    } else if i < k {
                        assert(ms[i as int].id@ == id@);
                    }
                }
            }
            return Some(i);
        }
        i = i + 1;
    }
    None
}

/// A copy of a list of mods.
pub fn copy_mods(mods: &Vec<ModInfo>) -> (r: Vec<ModInfo>)
    ensures
        r@ == mods@,
{
    let mut out: Vec<ModInfo> = Vec::new();
    let mut i: usize = 0;
    while i < mods.len()
        invariant
            i <= mods@.len(),
            out@ == mods@.subrange(0, i as int),
        decreases mods.len() - i,
    {
        out.push(copy_mod_info(&mods[i]));
        i = i + 1;
        assert(out@ =~= mods@.subrange(0, i as int));
    }
    assert(mods@.subrange(0, i as int) =~= mods@);
    out
}

/// `mods` with the saved entries applied in order.
pub fn apply_saved_state(mods: Vec<ModInfo>, saved: &ModState) -> (r: Vec<ModInfo>)
    ensures
        r@ == apply_saved(mods@, saved.mods@, saved.mods@.len() as int),
{
    let mut out = mods;
    let ghost start = out@;
    let mut k: usize = 0;
    while k < saved.mods.len()
        invariant
            k <= saved.mods@.len(),
            out@ == apply_saved(start, saved.mods@, k as int),
        decreases saved.mods.len() - k,
    {
        let e = &saved.mods[k];
        match find_mod(&out, e.id.as_str()) {
            Some(j) => {
                let m = &out[j];
                let updated = ModInfo {
                    id: m.id.clone(),
                    name: m.name.clone(),
                    version: m.version.clone(),
                    description: m.description.clone(),
                    enabled: e.enabled,
                    priority: e.priority,
                };
                out.set(j, updated);
            },
            None => {},
        }
        k = k + 1;
    }
    out
}

/// `mods` sorted stably by priority.
pub fn sort_by_priority(mods: Vec<ModInfo>) -> (r: Vec<ModInfo>)
    ensures
        sorted_by_priority(mods@, r@),
{
    let mut p: Vec<u32> = Vec::new();
    let mut i: usize = 0;
    while i < mods.len()
        invariant
            i <= mods@.len(),
            p@ == mod_priorities(mods@).subrange(0, i as int),
        decreases mods.len() - i,
    {
        p.push(mods[i].priority);
        i = i + 1;
        assert(p@ =~= mod_priorities(mods@).subrange(0, i as int));
    }
    assert(p@ =~= mod_priorities(mods@));
    let order = stable_priority_order(&p);
    let mut out: Vec<ModInfo> = Vec::new();
    let mut t: usize = 0;
    while t < order.len()
        invariant
            is_stable_order(mod_priorities(mods@), order@),
            t <= order@.len(),
            out@ == order@.subrange(0, t as int).map_values(|k: usize| mods@[k as int]),
        decreases order.len() - t,
    {
        let k = order[t];
        out.push(copy_mod_info(&mods[k]));
        t = t + 1;
        assert(out@ =~= order@.subrange(0, t as int).map_values(|k: usize| mods@[k as int]));
    }
    assert(order@.subrange(0, t as int) =~= order@);
    out
}

/// `i` is the first position of id `id`, so `mod_index` points there.
pub proof fn lemma_mod_index_at(mods: Seq<ModInfo>, id: Seq<char>, i: int)
    requires
        0 <= i < mods.len(),
        mods[i].id@ == id,
        forall|j: int| 0 <= j < i ==> mods[j].id@ != id,
    ensures
        mod_index(mods, id) == Some(i),
{
    let k = choose|k: int|
        0 <= k < mods.len() && mods[k].id@ == id && forall|j: int| 0 <= j < k ==> mods[j].id@ != id;
    assert(k == i) by {
        if k < i {
            assert(mods[k].id@ == id);
        } else if i < k {
            assert(mods[i].id@ == id);
        }
    }
}

/// `m` is one of `mods` with only its priority changed.
pub open spec fn is_reprioritized(mods: Seq<ModInfo>, m: ModInfo) -> bool {
    exists|j: int| 0 <= j < mods.len() && m == #[trigger] with_priority(mods[j], m.priority)
}

proof fn lemma_first_mod_below(mods: Seq<ModInfo>, id: Seq<char>, w: int) -> (i: int)
    requires
        0 <= w < mods.len(),
        mods[w].id@ == id,
    ensures
        0 <= i <= w,
        mods[i].id@ == id,
        forall|j: int| 0 <= j < i ==> mods[j].id@ != id,
    decreases w,
{
    if exists|j: int| 0 <= j < w && mods[j].id@ == id {
        let j = choose|j: int| 0 <= j < w && mods[j].id@ == id;
        lemma_first_mod_below(mods, id, j)
    } else {
        w
    }
}

/// `mod_index` points at the first mod with the id, when there is one.
pub proof fn lemma_mod_index(mods: Seq<ModInfo>, id: Seq<char>)
    ensures
        match mod_index(mods, id) {
            Some(i) => 0 <= i < mods.len() && mods[i].id@ == id && forall|j: int|
                0 <= j < i ==> mods[j].id@ != id,
            None => forall|j: int| 0 <= j < mods.len() ==> mods[j].id@ != id,
        },
{
    if exists|i: int| 0 <= i < mods.len() && mods[i].id@ == id {
        let w = choose|i: int| 0 <= i < mods.len() && mods[i].id@ == id;
        let _ = lemma_first_mod_below(mods, id, w);
    }
}

proof fn lemma_push_reprioritized(mods: Seq<ModInfo>, prev: Seq<ModInfo>, m: ModInfo, j: int)
    requires
        forall|i: int| 0 <= i < prev.len() ==> is_reprioritized(mods, #[trigger] prev[i]),
        0 <= j < mods.len(),
        m == with_priority(mods[j], m.priority),
    ensures
        forall|i: int| 0 <= i < prev.push(m).len() ==> is_reprioritized(mods, #[trigger] prev.push(m)[i]),
{
    assert forall|i: int| 0 <= i < prev.push(m).len() implies is_reprioritized(mods, #[trigger] prev.push(m)[i]) by {
        if i < prev.len() {
            assert(prev.push(m)[i] == prev[i]);
        } else {
            assert(prev.push(m)[i] == m);
            assert(m == with_priority(mods[j], m.priority));
        }
    }
}

/// After a reorder the mods are listed in strictly increasing priority, each
/// below the number of ids, and each is one of the mods before the reorder with
/// only its priority changed.
pub proof fn lemma_reordered_in_load_order(mods: Seq<ModInfo>, ids: Seq<String>, k: int)
    requires
        0 <= k <= ids.len(),
        ids.len() <= u32::MAX as int + 1,
    ensures
        forall|i: int, j: int|
            0 <= i < j < reordered(mods, ids, k).len() ==> (#[trigger] reordered(mods, ids, k)[i]).priority
                < (#[trigger] reordered(mods, ids, k)[j]).priority,
        forall|i: int|
            0 <= i < reordered(mods, ids, k).len() ==> (#[trigger] reordered(mods, ids, k)[i]).priority < k,
        forall|i: int|
            0 <= i < reordered(mods, ids, k).len() ==> is_reprioritized(mods, #[trigger] reordered(mods, ids, k)[i]),
    decreases k,
{
    if k > 0 {
        lemma_reordered_in_load_order(mods, ids, k - 1);
        let prev = reordered(mods, ids, k - 1);
        let cur = reordered(mods, ids, k);
        match mod_index(mods, ids[k - 1]@) {
            Some(j) => {
                lemma_mod_index(mods, ids[k - 1]@);
                assert(cur == prev.push(with_priority(mods[j], (k - 1) as u32)));
                assert(((k - 1) as u32) as int == k - 1);
                lemma_push_reprioritized(mods, prev, with_priority(mods[j], (k - 1) as u32), j);
                assert forall|i: int, t: int| 0 <= i < t < cur.len() implies (#[trigger] cur[i]).priority
                    < (#[trigger] cur[t]).priority by {
                    if t < prev.len() {
                        assert(cur[i] == prev[i] && cur[t] == prev[t]);
                    } else {
                        assert(cur[i] == prev[i]);
                    }
                }
            },
            None => {},
        }
    }
}

/// Applying the saved state of a list of mods with distinct ids to that same
/// list gives the list back: saving and loading keeps every enabled flag and priority.
pub proof fn lemma_saved_state_restores(mods: Seq<ModInfo>, k: int)
    requires
        0 <= k <= mods.len(),
        forall|i: int, j: int| 0 <= i < j < mods.len() ==> (#[trigger] mods[i]).id@ != (#[trigger] mods[j]).id@,
    ensures
        apply_saved(mods, state_of(mods), k) == mods,
    decreases k,
{
    if k > 0 {
        lemma_saved_state_restores(mods, k - 1);
        let e = state_of(mods)[k - 1];
        assert(e.id@ == mods[k - 1].id@);
        assert forall|j: int| 0 <= j < k - 1 implies mods[j].id@ != e.id@ by {
            assert(mods[j].id@ != mods[k - 1].id@);
        }
        lemma_mod_index_at(mods, e.id@, k - 1);
        assert(with_saved(mods[k - 1], e) == mods[k - 1]);
        assert(mods.update(k - 1, mods[k - 1]) =~= mods);
    }
}

/// Sorting mods that are already in priority order leaves them as they are.
pub proof fn lemma_sorted_input_unchanged(ms: Seq<ModInfo>, out: Seq<ModInfo>)
    requires
        ms.len() <= usize::MAX,
        forall|i: int, j: int| 0 <= i < j < ms.len() ==> (#[trigger] ms[i]).priority <= (#[trigger] ms[j]).priority,
        sorted_by_priority(ms, out),
    ensures
        out == ms,
{
    let p = mod_priorities(ms);
    let id = Seq::new(ms.len(), |i: int| i as usize);
    assert forall|x: int| 0 <= x < p.len() implies #[trigger] occurs(id, x) by {
        assert(id[x] == x);
    }
    assert forall|i: int, j: int| 0 <= i < j < id.len() implies priority_before(
        p,
        #[trigger] id[i] as int,
        #[trigger] id[j] as int,
    ) by {
        assert(ms[i].priority <= ms[j].priority);
    }
    assert(is_stable_order(p, id));
    let order = choose|order: Seq<usize>|
        is_stable_order(p, order) && out == order.map_values(|k: usize| ms[k as int]);
    lemma_stable_order_unique(p, order, id);
    assert(out =~= ms);
}

/// No two mods of the list share an id.
pub open spec fn distinct_ids(ms: Seq<ModInfo>) -> bool {
    forall|i: int, j: int| 0 <= i < j < ms.len() ==> (#[trigger] ms[i]).id@ != (#[trigger] ms[j]).id@
}

/// Some position of `ms` holds id `id`.
pub open spec fn has_id(ms: Seq<ModInfo>, id: Seq<char>) -> bool {
    exists|x: int| 0 <= x < ms.len() && (#[trigger] ms[x]).id@ == id
}

/// A position of `ms` that holds id `id`.
pub open spec fn position_of(ms: Seq<ModInfo>, id: Seq<char>) -> int {
    choose|x: int| 0 <= x < ms.len() && (#[trigger] ms[x]).id@ == id
}

proof fn lemma_position_of(ms: Seq<ModInfo>, id: Seq<char>, x: int)
    requires
        distinct_ids(ms),
        0 <= x < ms.len(),
        ms[x].id@ == id,
    ensures
        position_of(ms, id) == x,
{
    let y = position_of(ms, id);
    assert(0 <= y < ms.len() && ms[y].id@ == id);
    if y < x {
        assert(ms[y].id@ != ms[x].id@);
    } else if x < y {
        assert(ms[x].id@ != ms[y].id@);
    }
}

/// After applying the first `k` entries of the saved state of `m` to `d` (the
/// same mods, found again in any order), the mods of the first `k` entries carry
/// their saved enabled flag and priority and the others are as found.
proof fn lemma_apply_saved_of(m: Seq<ModInfo>, d: Seq<ModInfo>, k: int)
    requires
        0 <= k <= m.len(),
        m.len() == d.len(),
        distinct_ids(m),
        distinct_ids(d),
        forall|i: int| 0 <= i < m.len() ==> has_id(d, #[trigger] m[i].id@),
    ensures
        apply_saved(d, state_of(m), k).len() == d.len(),
        forall|x: int|
            0 <= x < d.len() ==> (#[trigger] apply_saved(d, state_of(m), k)[x]).id == d[x].id,
        forall|t: int|
            0 <= t < k ==> #[trigger] apply_saved(d, state_of(m), k)[position_of(d, m[t].id@)]
                == with_saved(d[position_of(d, m[t].id@)], state_of(m)[t]),
        forall|x: int|
            0 <= x < d.len() && (forall|t: int| 0 <= t < k ==> #[trigger] m[t].id@ != d[x].id@)
                ==> #[trigger] apply_saved(d, state_of(m), k)[x] == d[x],
    decreases k,
{
    if k > 0 {
        lemma_apply_saved_of(m, d, k - 1);
        let prev = apply_saved(d, state_of(m), k - 1);
        let cur = apply_saved(d, state_of(m), k);
        let e = state_of(m)[k - 1];
        assert(e.id == m[k - 1].id);
        assert(has_id(d, m[k - 1].id@));
        let xs = position_of(d, m[k - 1].id@);
        assert(0 <= xs < d.len() && d[xs].id@ == m[k - 1].id@);
        assert forall|j: int| 0 <= j < xs implies prev[j].id@ != e.id@ by {
            assert(prev[j].id == d[j].id);
            assert(d[j].id@ != d[xs].id@);
        }
        assert(prev[xs].id == d[xs].id);
        lemma_mod_index_at(prev, e.id@, xs);
        assert(cur == prev.update(xs, with_saved(prev[xs], e)));
        assert forall|t: int| 0 <= t < k - 1 implies m[t].id@ != d[xs].id@ by {
            assert(m[t].id@ != m[k - 1].id@);
        }
        assert(prev[xs] == d[xs]);
        assert forall|t: int| 0 <= t < k implies #[trigger] cur[position_of(d, m[t].id@)]
            == with_saved(d[position_of(d, m[t].id@)], state_of(m)[t]) by {
            if t < k - 1 {
                assert(has_id(d, m[t].id@));
                let xt = position_of(d, m[t].id@);
                assert(d[xt].id@ == m[t].id@);
                assert(m[t].id@ != m[k - 1].id@);
                assert(xt != xs);
            }
        }
    }
}

/// A reorder survives saving and loading: when the mods are found again (same
/// ids, in any order, with the same names, versions and descriptions), applying
/// the saved state of a list whose priorities strictly increase and sorting by
/// priority gives that list back.
pub proof fn lemma_reload_restores_order(m: Seq<ModInfo>, d: Seq<ModInfo>, out: Seq<ModInfo>)
    requires
        m.len() == d.len(),
        m.len() <= usize::MAX,
        distinct_ids(m),
        distinct_ids(d),
        forall|i: int| 0 <= i < m.len() ==> has_id(d, #[trigger] m[i].id@),
        forall|x: int| 0 <= x < d.len() ==> has_id(m, #[trigger] d[x].id@),
        forall|i: int, j: int|
            0 <= i < j < m.len() ==> (#[trigger] m[i]).priority < (#[trigger] m[j]).priority,
        forall|x: int, i: int|
            0 <= x < d.len() && 0 <= i < m.len() && (#[trigger] d[x]).id@ == (#[trigger] m[i]).id@
                ==> d[x].name@ == m[i].name@ && d[x].version@ == m[i].version@
                && d[x].description@ == m[i].description@,
        sorted_by_priority(apply_saved(d, state_of(m), m.len() as int), out),
    ensures
        mods_view(out) == mods_view(m),
{
    let n = m.len() as int;
    lemma_apply_saved_of(m, d, n);
    let a = apply_saved(d, state_of(m), n);
    let p = mod_priorities(a);
    let o = Seq::new(m.len(), |t: int| position_of(d, m[t].id@) as usize);
    assert forall|t: int| 0 <= t < n implies 0 <= position_of(d, m[t].id@) < d.len() && d[position_of(
        d,
        m[t].id@,
    )].id@ == m[t].id@ by {
        assert(has_id(d, m[t].id@));
    }
    assert forall|t: int| 0 <= t < n implies #[trigger] p[o[t] as int] == m[t].priority by {
        let xt = position_of(d, m[t].id@);
        assert(a[xt] == with_saved(d[xt], state_of(m)[t]));
    }
    assert forall|i: int| 0 <= i < o.len() implies #[trigger] o[i] < p.len() by {}
    assert forall|x: int| 0 <= x < p.len() implies #[trigger] occurs(o, x) by {
        assert(has_id(m, d[x].id@));
        let ix = choose|i: int| 0 <= i < m.len() && (#[trigger] m[i]).id@ == d[x].id@;
        lemma_position_of(d, m[ix].id@, x);
        assert(o[ix] == x);
    }
    assert forall|i: int, j: int| 0 <= i < j < o.len() implies priority_before(
        p,
        #[trigger] o[i] as int,
        #[trigger] o[j] as int,
    ) by {
        assert(p[o[i] as int] == m[i].priority);
        assert(p[o[j] as int] == m[j].priority);
    }
    assert(is_stable_order(p, o));
    let order = choose|order: Seq<usize>|
        is_stable_order(p, order) && out == order.map_values(|k: usize| a[k as int]);
    lemma_stable_order_unique(p, order, o);
    assert forall|t: int| 0 <= t < n implies #[trigger] out[t]@ == m[t]@ by {
        let xt = position_of(d, m[t].id@);
        assert(out[t] == a[xt]);
        assert(a[xt] == with_saved(d[xt], state_of(m)[t]));
    }
    assert(mods_view(out) =~= mods_view(m));
}

/// Every mod comes no later than the mods of higher priority: the list is in load order.
pub open spec fn priorities_sorted(ms: Seq<ModInfo>) -> bool {
    forall|i: int, j: int| 0 <= i < j < ms.len() ==> (#[trigger] ms[i]).priority <= (#[trigger] ms[j]).priority
}

/// A stable sort by priority puts the mods in load order.
pub proof fn lemma_sorted_by_priority_is_sorted(input: Seq<ModInfo>, output: Seq<ModInfo>)
    requires
        sorted_by_priority(input, output),
    ensures
        priorities_sorted(output),
        output.len() == input.len(),
{
    let p = mod_priorities(input);
    let order = choose|order: Seq<usize>|
        is_stable_order(p, order) && output == order.map_values(|k: usize| input[k as int]);
    assert forall|i: int, j: int| 0 <= i < j < output.len() implies (#[trigger] output[i]).priority
        <= (#[trigger] output[j]).priority by {
        assert(priority_before(p, order[i] as int, order[j] as int));
        assert(output[i] == input[order[i] as int]);
        assert(output[j] == input[order[j] as int]);
    }
}

/// The mods after enabling or disabling the first mod with id `id`, if any.
pub open spec fn toggled(ms: Seq<ModInfo>, id: Seq<char>, enabled: bool) -> Seq<ModInfo> {
    match mod_index(ms, id) {
        Some(i) => ms.update(i, with_enabled(ms[i], enabled)),
        None => ms,
    }
}

/// The discovered mods with a saved state applied, when there is one.
pub open spec fn loaded(found: Seq<ModInfo>, saved: Option<Seq<ModEntry>>) -> Seq<ModInfo> {
    match saved {
        Some(s) => apply_saved(found, s, s.len() as int),
        None => found,
    }
}

/// What a caller can do to the mod list of a `ModManager`.
pub enum ModCall {
    /// Mods found by a successful discovery, with the saved state of the plugin if any.
    Load { found: Seq<ModInfo>, saved: Option<Seq<ModEntry>> },
    /// Enable or disable a mod.
    Toggle { id: Seq<char>, enabled: bool },
    /// Put the mods in the order of a list of ids.
    Reorder { ids: Seq<String> },
}

/// The mod list `after` is what `call` makes of the mod list `before`.
pub open spec fn mod_step(before: Seq<ModInfo>, call: ModCall, after: Seq<ModInfo>) -> bool {
    match call {
        ModCall::Load { found, saved } => sorted_by_priority(loaded(found, saved), after),
        ModCall::Toggle { id, enabled } => after == toggled(before, id, enabled),
        ModCall::Reorder { ids } => after == reordered(before, ids, ids.len() as int),
    }
}

/// One call keeps the mod list in load order (a reorder with at most one id per
/// priority value of `u32`; beyond that the position taken as priority wraps).
pub proof fn lemma_mod_step_keeps_sorted(before: Seq<ModInfo>, call: ModCall, after: Seq<ModInfo>)
    requires
        priorities_sorted(before),
        mod_step(before, call, after),
        call matches ModCall::Reorder { ids } ==> ids.len() <= u32::MAX as int + 1,
    ensures
        priorities_sorted(after),
{
    match call {
        ModCall::Load { found, saved } => {
            lemma_sorted_by_priority_is_sorted(loaded(found, saved), after);
        },
        ModCall::Toggle { id, enabled } => {
            lemma_mod_index(before, id);
            match mod_index(before, id) {
                Some(k) => {
                    assert forall|i: int, j: int| 0 <= i < j < after.len() implies (#[trigger] after[i]).priority
                        <= (#[trigger] after[j]).priority by {
                        assert(after[i].priority == before[i].priority);
                        assert(after[j].priority == before[j].priority);
                    }
                },
                None => {},
            }
        },
        ModCall::Reorder { ids } => {
            lemma_reordered_in_load_order(before, ids, ids.len() as int);
        },
    }
}

/// Whatever loads, toggles and reorders follow one another, the mod list stays in
/// load order: `lists[i + 1]` is what `calls[i]` makes of `lists[i]`, and the
/// first list (that of a new `ModManager`, which is empty) is in load order.
/// A call that fails leaves the list as it is and is not counted as a step.
pub proof fn lemma_mods_stay_sorted(lists: Seq<Seq<ModInfo>>, calls: Seq<ModCall>)
    requires
        lists.len() == calls.len() + 1,
        priorities_sorted(lists[0]),
        forall|i: int| 0 <= i < calls.len() ==> mod_step(lists[i], #[trigger] calls[i], lists[i + 1]),
        forall|i: int|
            0 <= i < calls.len() ==> (#[trigger] calls[i] matches ModCall::Reorder { ids } ==> ids.len()
                <= u32::MAX as int + 1),
    ensures
        forall|i: int| 0 <= i < lists.len() ==> priorities_sorted(#[trigger] lists[i]),
    decreases calls.len(),
{
    if calls.len() > 0 {
        let n = calls.len() - 1;
        lemma_mods_stay_sorted(lists.drop_last(), calls.drop_last());
        assert(priorities_sorted(lists.drop_last()[n]));
        assert(mod_step(lists[n], calls[n], lists[n + 1]));
        lemma_mod_step_keeps_sorted(lists[n], calls[n], lists[n + 1]);
        assert forall|i: int| 0 <= i < lists.len() implies priorities_sorted(#[trigger] lists[i]) by {
            if i < lists.len() - 1 {
                assert(lists[i] == lists.drop_last()[i]);
            }
        }
    }
}

/// `j` is the first position of `mods` that holds id `id`.
pub open spec fn first_with_id(mods: Seq<ModInfo>, id: Seq<char>, j: int) -> bool {
    &&& 0 <= j < mods.len()
    &&& mods[j].id@ == id
    &&& forall|t: int| 0 <= t < j ==> mods[t].id@ != id
}

/// `a` and `b` agree in every field but the priority.
pub open spec fn same_but_priority(a: ModInfo, b: ModInfo) -> bool {
    &&& a.id == b.id
    &&& a.name == b.name
    &&& a.version == b.version
    &&& a.description == b.description
    &&& a.enabled == b.enabled
}

/// Toggling changes the enabled flag of the first mod with the id, and nothing
/// else: that mod keeps its id, name, version, description and priority, and
/// every other mod is unchanged.
pub proof fn lemma_toggle_changes_only_enabled(ms: Seq<ModInfo>, id: Seq<char>, enabled: bool)
    ensures
        toggled(ms, id, enabled).len() == ms.len(),
        forall|i: int|
            first_with_id(ms, id, i) ==> {
                let m = #[trigger] toggled(ms, id, enabled)[i];
                &&& m.id == ms[i].id
                &&& m.name == ms[i].name
                &&& m.version == ms[i].version
                &&& m.description == ms[i].description
                &&& m.priority == ms[i].priority
                &&& m.enabled == enabled
            },
        forall|i: int|
            0 <= i < ms.len() && !first_with_id(ms, id, i) ==> #[trigger] toggled(ms, id, enabled)[i] == ms[i],
{
    lemma_mod_index(ms, id);
    match mod_index(ms, id) {
        Some(k) => {
            assert forall|i: int| first_with_id(ms, id, i) implies i == k by {
                if i < k {
                    assert(ms[i].id@ != id);
                } else if k < i {
                    assert(ms[k].id@ != id);
                }
            }
        },
        None => {},
    }
}

proof fn lemma_first_with_id_unique(mods: Seq<ModInfo>, id: Seq<char>, a: int, b: int)
    requires
        first_with_id(mods, id, a),
        first_with_id(mods, id, b),
    ensures
        a == b,
{
    if a < b {
        assert(mods[a].id@ != id);
    } else if b < a {
        assert(mods[b].id@ != id);
    }
}

/// Reordering changes only priorities: each mod of the result has the id of a
/// mod of the old list and is, in every field but its priority, the first mod of
/// the old list with that id; its priority is a position of its id among the
/// first `k` ids (as a `u32`); and each of those ids that names a mod gives a mod of the
/// result with that position as priority.
pub proof fn lemma_reorder_changes_only_priorities(mods: Seq<ModInfo>, ids: Seq<String>, k: int)
    requires
        0 <= k <= ids.len(),
    ensures
        forall|i: int|
            0 <= i < reordered(mods, ids, k).len() ==> has_id(mods, (#[trigger] reordered(mods, ids, k)[i]).id@),
        forall|i: int, j: int|
            #![trigger reordered(mods, ids, k)[i], mods[j]]
            0 <= i < reordered(mods, ids, k).len() && first_with_id(mods, reordered(mods, ids, k)[i].id@, j)
                ==> same_but_priority(reordered(mods, ids, k)[i], mods[j]),
        forall|i: int|
            0 <= i < reordered(mods, ids, k).len() ==> exists|q: int|
                0 <= q < k && ids[q]@ == (#[trigger] reordered(mods, ids, k)[i]).id@
                    && reordered(mods, ids, k)[i].priority == q as u32,
        forall|q: int|
            0 <= q < k && has_id(mods, (#[trigger] ids[q])@) ==> exists|i: int|
                0 <= i < reordered(mods, ids, k).len() && reordered(mods, ids, k)[i].id@ == ids[q]@
                    && reordered(mods, ids, k)[i].priority == q as u32,
    decreases k,
{
    if k > 0 {
        lemma_reorder_changes_only_priorities(mods, ids, k - 1);
        let prev = reordered(mods, ids, k - 1);
        let cur = reordered(mods, ids, k);
        lemma_mod_index(mods, ids[k - 1]@);
        match mod_index(mods, ids[k - 1]@) {
            Some(j) => {
                let m = with_priority(mods[j], (k - 1) as u32);
                assert(cur == prev.push(m));
                assert(first_with_id(mods, ids[k - 1]@, j));
                assert forall|i: int| 0 <= i < cur.len() implies has_id(mods, (#[trigger] cur[i]).id@) by {
                    if i < prev.len() {
                        assert(cur[i] == prev[i]);
                    } else {
                        assert(cur[i] == m);
                        assert(mods[j].id@ == cur[i].id@);
                    }
                }
                assert forall|i: int, j2: int|
                    #![trigger cur[i], mods[j2]]
                    0 <= i < cur.len() && first_with_id(mods, cur[i].id@, j2) implies same_but_priority(
                        cur[i],
                        mods[j2],
                    ) by {
                    if i < prev.len() {
                        assert(cur[i] == prev[i]);
                        assert(same_but_priority(prev[i], mods[j2]));
                    } else {
                        assert(cur[i] == m);
                        lemma_first_with_id_unique(mods, ids[k - 1]@, j, j2);
                    }
                }
                assert forall|i: int| 0 <= i < cur.len() implies exists|q: int|
                    0 <= q < k && ids[q]@ == (#[trigger] cur[i]).id@ && cur[i].priority == q as u32 by {
                    if i < prev.len() {
                        assert(cur[i] == prev[i]);
                        let q = choose|q: int| 0 <= q < k - 1 && ids[q]@ == prev[i].id@ && prev[i].priority == q as u32;
                        assert(0 <= q < k && ids[q]@ == cur[i].id@ && cur[i].priority == q as u32);
                    } else {
                        assert(cur[i] == m);
                    }
                }
                assert forall|q: int| 0 <= q < k && has_id(mods, (#[trigger] ids[q])@) implies exists|i: int|
                    0 <= i < cur.len() && cur[i].id@ == ids[q]@ && cur[i].priority == q as u32 by {
                    if q < k - 1 {
                        let i = choose|i: int|
                            0 <= i < prev.len() && prev[i].id@ == ids[q]@ && prev[i].priority == q as u32;
                        assert(cur[i] == prev[i]);
                    } else {
                        assert(cur[prev.len() as int] == m);
                    }
                }
            },
            None => {
                assert(cur == prev);
                assert forall|q: int| 0 <= q < k && has_id(mods, (#[trigger] ids[q])@) implies exists|i: int|
                    0 <= i < cur.len() && cur[i].id@ == ids[q]@ && cur[i].priority == q as u32 by {
                    if q == k - 1 {
                        let x = choose|x: int| 0 <= x < mods.len() && (#[trigger] mods[x]).id@ == ids[q]@;
                        assert(mods[x].id@ != ids[k - 1]@);
                    }
                }
            },
        }
    }
}

/// No two saved entries share an id.
pub open spec fn distinct_entry_ids(s: Seq<ModEntry>) -> bool {
    forall|i: int, j: int| 0 <= i < j < s.len() ==> (#[trigger] s[i]).id@ != (#[trigger] s[j]).id@
}

/// Mod `m` as the saved entries leave it: with the enabled flag and priority of
/// the entry with its id, or as it is when no entry has its id.
pub open spec fn with_saved_state(m: ModInfo, saved: Seq<ModEntry>) -> ModInfo {
    if exists|t: int| 0 <= t < saved.len() && (#[trigger] saved[t]).id@ == m.id@ {
        with_saved(m, saved[choose|t: int| 0 <= t < saved.len() && (#[trigger] saved[t]).id@ == m.id@])
    } else {
        m
    }
}

proof fn lemma_apply_saved_prefix(d: Seq<ModInfo>, s: Seq<ModEntry>, k: int)
    requires
        0 <= k <= s.len(),
        distinct_ids(d),
        distinct_entry_ids(s),
    ensures
        apply_saved(d, s, k).len() == d.len(),
        forall|x: int|
            0 <= x < d.len() ==> (#[trigger] apply_saved(d, s, k)[x]) == if exists|t: int|
                0 <= t < k && (#[trigger] s[t]).id@ == d[x].id@ {
                with_saved(d[x], s[choose|t: int| 0 <= t < k && (#[trigger] s[t]).id@ == d[x].id@])
            } else {
                d[x]
            },
    decreases k,
{
    if k > 0 {
        lemma_apply_saved_prefix(d, s, k - 1);
        let prev = apply_saved(d, s, k - 1);
        let cur = apply_saved(d, s, k);
        let e = s[k - 1];
        assert forall|x: int| 0 <= x < d.len() implies (#[trigger] prev[x]).id == d[x].id by {
            if exists|t: int| 0 <= t < k - 1 && (#[trigger] s[t]).id@ == d[x].id@ {
                let t = choose|t: int| 0 <= t < k - 1 && (#[trigger] s[t]).id@ == d[x].id@;
                assert(prev[x] == with_saved(d[x], s[t]));
            }
        }
        lemma_mod_index(prev, e.id@);
        assert forall|x: int| 0 <= x < d.len() implies (#[trigger] cur[x]) == if exists|t: int|
            0 <= t < k && (#[trigger] s[t]).id@ == d[x].id@ {
            with_saved(d[x], s[choose|t: int| 0 <= t < k && (#[trigger] s[t]).id@ == d[x].id@])
        } else {
            d[x]
        } by {
            if d[x].id@ == e.id@ {
                assert(s[k - 1].id@ == d[x].id@);
                assert forall|t: int| 0 <= t < k - 1 implies (#[trigger] s[t]).id@ != d[x].id@ by {
                    assert(s[t].id@ != s[k - 1].id@);
                }
                let c = choose|t: int| 0 <= t < k && (#[trigger] s[t]).id@ == d[x].id@;
                assert(c == k - 1) by {
                    if c < k - 1 {
                        assert(s[c].id@ != s[k - 1].id@);
                    }
                }
                assert(prev[x] == d[x]);
                match mod_index(prev, e.id@) {
                    Some(j) => {
                        if j != x {
                            if j < x {
                                assert(d[j].id@ != d[x].id@);
                            } else {
                                assert(prev[x].id@ == e.id@);
                            }
                        }
                        assert(j == x);
                        assert(cur == prev.update(x, with_saved(prev[x], e)));
                    },
                    None => {
                        assert(prev[x].id@ == e.id@);
                    },
                }
            } else {
                match mod_index(prev, e.id@) {
                    Some(j) => {
                        assert(cur == prev.update(j, with_saved(prev[j], e)));
                        assert(j != x) by {
                            assert(prev[j].id@ == e.id@);
                        }
                    },
                    None => {},
                }
                if exists|t: int| 0 <= t < k && (#[trigger] s[t]).id@ == d[x].id@ {
                    let w = choose|t: int| 0 <= t < k && (#[trigger] s[t]).id@ == d[x].id@;
                    assert(w < k - 1);
                    assert(exists|t: int| 0 <= t < k - 1 && (#[trigger] s[t]).id@ == d[x].id@);
                    let c1 = choose|t: int| 0 <= t < k - 1 && (#[trigger] s[t]).id@ == d[x].id@;
                    assert(c1 == w) by {
                        if c1 < w {
                            assert(s[c1].id@ != s[w].id@);
                        } else if w < c1 {
                            assert(s[w].id@ != s[c1].id@);
                        }
                    }
                } else {
                    assert(!exists|t: int| 0 <= t < k - 1 && (#[trigger] s[t]).id@ == d[x].id@) by {
                        if exists|t: int| 0 <= t < k - 1 && (#[trigger] s[t]).id@ == d[x].id@ {
                            let t = choose|t: int| 0 <= t < k - 1 && (#[trigger] s[t]).id@ == d[x].id@;
                            assert(0 <= t < k && s[t].id@ == d[x].id@);
                        }
                    }
                }
            }
        }
    }
}

/// Loading a saved state, mod by mod: when neither the found mods nor the saved
/// entries repeat an id, each found mod takes the enabled flag and priority of the
/// entry with its id, mods without an entry stay as found, and entries without a
/// found mod are ignored.
pub proof fn lemma_saved_state_per_mod(found: Seq<ModInfo>, saved: Seq<ModEntry>)
    requires
        distinct_ids(found),
        distinct_entry_ids(saved),
    ensures
        apply_saved(found, saved, saved.len() as int) == found.map_values(
            |m: ModInfo| with_saved_state(m, saved),
        ),
{
    let n = saved.len() as int;
    lemma_apply_saved_prefix(found, saved, n);
    let a = apply_saved(found, saved, n);
    let b = found.map_values(|m: ModInfo| with_saved_state(m, saved));
    assert forall|x: int| 0 <= x < found.len() implies a[x] == b[x] by {
        assert(b[x] == with_saved_state(found[x], saved));
    }
    assert(a =~= b);
}

/// The mods of the active plugin and where their state is saved.
pub struct ModManager {
    mods: Vec<ModInfo>,
    profile_dir: String,
    current_plugin: Option<String>,
}

impl ModManager {
    pub closed spec fn spec_mods(&self) -> Seq<ModInfo> {
        self.mods@
    }

    pub closed spec fn spec_profile_dir(&self) -> Seq<char> {
        self.profile_dir@
    }

    pub closed spec fn spec_current_plugin(&self) -> Option<Seq<char>> {
        match self.current_plugin {
            Some(s) => Some(s@),
            None => None,
        }
    }

    /// No mods and no plugin; states are saved under `data_dir/profiles`.
    pub fn new(data_dir: &str) -> (r: ModManager)
        ensures
            r.spec_mods().len() == 0,
            priorities_sorted(r.spec_mods()),
            r.spec_profile_dir() == path_join(data_dir@, "profiles"@),
            r.spec_current_plugin() is None,
    {
        ModManager {
            mods: Vec::new(),
            profile_dir: join_path(data_dir, "profiles"),
            current_plugin: None,
        }
    }

    /// The mods, in load order.
    pub fn list_mods(&self) -> (r: Vec<ModInfo>)
        ensures
            r@ == self.spec_mods(),
    {
        copy_mods(&self.mods)
    }

    /// Enables or disables the first mod with id `mod_id`; returns whether there
    /// is such a mod (and so whether the state has to be saved).
    pub fn toggle_mod(&mut self, mod_id: &str, enabled: bool) -> (found: bool)
        ensures
            final(self).spec_profile_dir() == old(self).spec_profile_dir(),
            final(self).spec_current_plugin() == old(self).spec_current_plugin(),
            match mod_index(old(self).spec_mods(), mod_id@) {
                Some(i) => found && final(self).spec_mods() == old(self).spec_mods().update(
                    i,
                    with_enabled(old(self).spec_mods()[i], enabled),
                ),
                None => !found && final(self).spec_mods() == old(self).spec_mods(),
            },
            mod_step(old(self).spec_mods(), ModCall::Toggle { id: mod_id@, enabled }, final(self).spec_mods()),
            priorities_sorted(old(self).spec_mods()) ==> priorities_sorted(final(self).spec_mods()),
            final(self).spec_mods().len() == old(self).spec_mods().len(),
            found == has_id(old(self).spec_mods(), mod_id@),
            forall|i: int|
                first_with_id(old(self).spec_mods(), mod_id@, i) ==> {
                    let m = #[trigger] final(self).spec_mods()[i];
                    let o = old(self).spec_mods()[i];
                    &&& m.id == o.id
                    &&& m.name == o.name
                    &&& m.version == o.version
                    &&& m.description == o.description
                    &&& m.priority == o.priority
                    &&& m.enabled == enabled
                },
            forall|i: int|
                0 <= i < old(self).spec_mods().len() && !first_with_id(old(self).spec_mods(), mod_id@, i)
                    ==> #[trigger] final(self).spec_mods()[i] == old(self).spec_mods()[i],
    {
        proof {
            lemma_toggle_changes_only_enabled(self.mods@, mod_id@, enabled);
            lemma_mod_index(self.mods@, mod_id@);
            if priorities_sorted(self.mods@) {
                lemma_mod_step_keeps_sorted(
                    self.mods@,
                    ModCall::Toggle { id: mod_id@, enabled },
                    toggled(self.mods@, mod_id@, enabled),
                );
            }
        }
        match find_mod(&self.mods, mod_id) {
            Some(i) => {
                let m = &self.mods[i];
                let updated = ModInfo {
                    id: m.id.clone(),
                    name: m.name.clone(),
                    version: m.version.clone(),
                    description: m.description.clone(),
                    enabled,
                    priority: m.priority,
                };
                self.mods.set(i, updated);
                true
            },
            None => false,
        }
    }

    /// Puts the mods in the order of `mod_ids`: each id takes the first mod with
    /// that id, with the id's position as its priority; ids of no mod are
    /// skipped and mods whose id is not listed are dropped.
    pub fn reorder_mods(&mut self, mod_ids: Vec<String>)
        ensures
            final(self).spec_profile_dir() == old(self).spec_profile_dir(),
            final(self).spec_current_plugin() == old(self).spec_current_plugin(),
            final(self).spec_mods() == reordered(
                old(self).spec_mods(),
                mod_ids@,
                mod_ids@.len() as int,
            ),
            mod_step(old(self).spec_mods(), ModCall::Reorder { ids: mod_ids@ }, final(self).spec_mods()),
            mod_ids@.len() <= u32::MAX as int + 1 ==> priorities_sorted(final(self).spec_mods()),
            forall|i: int|
                0 <= i < final(self).spec_mods().len() ==> has_id(
                    old(self).spec_mods(),
                    (#[trigger] final(self).spec_mods()[i]).id@,
                ),
            forall|i: int, j: int|
                #![trigger final(self).spec_mods()[i], old(self).spec_mods()[j]]
                0 <= i < final(self).spec_mods().len() && first_with_id(
                    old(self).spec_mods(),
                    final(self).spec_mods()[i].id@,
                    j,
                ) ==> same_but_priority(final(self).spec_mods()[i], old(self).spec_mods()[j]),
            forall|i: int|
                0 <= i < final(self).spec_mods().len() ==> exists|q: int|
                    0 <= q < mod_ids@.len() && mod_ids@[q]@ == (#[trigger] final(self).spec_mods()[i]).id@
                        && final(self).spec_mods()[i].priority == q as u32,
            forall|q: int|
                0 <= q < mod_ids@.len() && has_id(old(self).spec_mods(), (#[trigger] mod_ids@[q])@)
                    ==> exists|i: int|
                    0 <= i < final(self).spec_mods().len() && final(self).spec_mods()[i].id@ == mod_ids@[q]@
                        && final(self).spec_mods()[i].priority == q as u32,
    {
        let ghost before = self.mods@;
        let mut out: Vec<ModInfo> = Vec::new();
        let mut i: usize = 0;
        while i < mod_ids.len()
            invariant
                i <= mod_ids@.len(),
                out@ == reordered(self.mods@, mod_ids@, i as int),
            decreases mod_ids.len() - i,
        {
            match find_mod(&self.mods, mod_ids[i].as_str()) {
                Some(j) => {
                    let m = &self.mods[j];
                    out.push(
                        ModInfo {
                            id: m.id.clone(),
                            name: m.name.clone(),
                            version: m.version.clone(),
                            description: m.description.clone(),
                            enabled: m.enabled,
                            priority: i as u32,
                        },
                    );
                },
                None => {},
            }
            i = i + 1;
        }
        self.mods = out;
        proof {
            lemma_reorder_changes_only_priorities(before, mod_ids@, mod_ids@.len() as int);
            if mod_ids@.len() <= u32::MAX as int + 1 {
                lemma_reordered_in_load_order(before, mod_ids@, mod_ids@.len() as int);
            }
        }
    }

    /// Starts loading the mods of plugin `plugin_id`.
    pub fn set_current_plugin(&mut self, plugin_id: &str)
        ensures
            final(self).spec_mods() == old(self).spec_mods(),
            final(self).spec_profile_dir() == old(self).spec_profile_dir(),
            final(self).spec_current_plugin() == Some(plugin_id@),
    {
        self.current_plugin = Some(String::from_str(plugin_id));
    }

    /// Takes the discovered mods, applies the saved state if there is one, and
    /// puts them in stable priority order.
    pub fn set_loaded_mods(&mut self, discovered: Vec<ModInfo>, saved: Option<&ModState>)
        ensures
            final(self).spec_profile_dir() == old(self).spec_profile_dir(),
            final(self).spec_current_plugin() == old(self).spec_current_plugin(),
            sorted_by_priority(
                match saved {
                    Some(s) => apply_saved(discovered@, s.mods@, s.mods@.len() as int),
                    None => discovered@,
                },
                final(self).spec_mods(),
            ),
            mod_step(
                old(self).spec_mods(),
                ModCall::Load {
                    found: discovered@,
                    saved: match saved {
                        Some(s) => Some(s.mods@),
                        None => None,
                    },
                },
                final(self).spec_mods(),
            ),
            priorities_sorted(final(self).spec_mods()),
            match saved {
                Some(s) => distinct_ids(discovered@) && distinct_entry_ids(s.mods@)
                    ==> sorted_by_priority(
                    discovered@.map_values(|m: ModInfo| with_saved_state(m, s.mods@)),
                    final(self).spec_mods(),
                ),
                None => true,
            },
    {
        proof {
            match saved {
                Some(s) => {
                    if distinct_ids(discovered@) && distinct_entry_ids(s.mods@) {
                        lemma_saved_state_per_mod(discovered@, s.mods@);
                    }
                },
                None => {},
            }
        }
        let applied = match saved {
            Some(s) => apply_saved_state(discovered, s),
            None => discovered,
        };
        self.mods = sort_by_priority(applied);
        proof {
            lemma_sorted_by_priority_is_sorted(applied@, self.mods@);
        }
    }

    /// The file that holds the saved state of plugin `plugin_id`.
    pub fn state_file(&self, plugin_id: &str) -> (r: String)
        ensures
            r@ == path_join(path_join(self.spec_profile_dir(), plugin_id@), "modstate.json"@),
    {
        let dir = join_path(self.profile_dir.as_str(), plugin_id);
        join_path(dir.as_str(), "modstate.json")
    }

    /// Where and what to save: the folder of the current plugin and the state of
    /// the mods; nothing is saved while no plugin is loaded.
    pub fn save_target(&self) -> (r: Option<(String, ModState)>)
        ensures
            match self.spec_current_plugin() {
                None => r is None,
                Some(pid) => r matches Some(t) && t.0@ == path_join(self.spec_profile_dir(), pid)
                    && t.1.mods@ == state_of(self.spec_mods()),
            },
    {
        match &self.current_plugin {
            None => None,
            Some(pid) => {
                let dir = join_path(self.profile_dir.as_str(), pid.as_str());
                let mut entries: Vec<ModEntry> = Vec::new();
                let mut i: usize = 0;
                while i < self.mods.len()
                    invariant
                        i <= self.mods@.len(),
                        entries@ == state_of(self.mods@.subrange(0, i as int)),
                    decreases self.mods.len() - i,
                {
                    let m = &self.mods[i];
                    entries.push(ModEntry { id: m.id.clone(), enabled: m.enabled, priority: m.priority });
                    i = i + 1;
                    assert(entries@ =~= state_of(self.mods@.subrange(0, i as int)));
                }
                assert(self.mods@.subrange(0, i as int) =~= self.mods@);
                Some((dir, ModState { mods: entries }))
            },
        }
    }
}

} // verus!
