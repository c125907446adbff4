//! Load orders as text: the ids of the enabled mods, by priority, one per line.
use vstd::prelude::*;
use vstd::string::*;

use crate::models::game_mod::{copy_mod_entry, ModEntry};
use crate::ordering::{is_stable_order, stable_priority_order};
use crate::text::{
    chars_of, last_index_of, lemma_last_index_of, lemma_trim_empty_iff_blank, trim,
    trim_string,
};

verus! {

/// The enabled entries, in their order.
pub open spec fn enabled_entries(mods: Seq<ModEntry>) -> Seq<ModEntry>
    decreases mods.len(),
{
    if mods.len() == 0 {
        Seq::empty()
    } else {
        let prev = enabled_entries(mods.drop_last());
        if mods.last().enabled {
            prev.push(mods.last())
        } else {
            prev
        }
    }
}

pub open spec fn entry_priorities(s: Seq<ModEntry>) -> Seq<u32> {
    s.map_values(|e: ModEntry| e.priority)
}

/// `ids` are the ids of the enabled entries sorted stably by priority.
pub open spec fn ordered_enabled_ids(mods: Seq<ModEntry>, ids: Seq<Seq<char>>) -> bool {
    let en = enabled_entries(mods);
    exists|order: Seq<usize>|
        is_stable_order(entry_priorities(en), order) && ids == order.map_values(
            |k: usize| en[k as int].id@,
        )
}

/// The lines joined with `\n` between them (`[..].join("\n")`).
pub open spec fn join_lines(lines: Seq<Seq<char>>) -> Seq<char>
    decreases lines.len(),
{
    if lines.len() == 0 {
        Seq::empty()
    } else if lines.len() == 1 {
        lines[0]
    } else {
        join_lines(lines.drop_last()) + seq!['\n'] + lines.last()
    }
}

/// The text split at every `\n`.
pub open spec fn split_lines(s: Seq<char>) -> Seq<Seq<char>>
    decreases s.len(),
{
    let k = last_index_of(s, '\n');
    if 0 <= k < s.len() {
        split_lines(s.subrange(0, k)) + seq![s.subrange(k + 1, s.len() as int)]
    } else {
        seq![s]
    }
}

/// The non-blank lines, trimmed.
pub open spec fn kept_lines(lines: Seq<Seq<char>>) -> Seq<Seq<char>>
    decreases lines.len(),
{
    if lines.len() == 0 {
        Seq::empty()
    } else {
        let prev = kept_lines(lines.drop_last());
        let t = trim(lines.last());
        if t.len() > 0 {
            prev.push(t)
        } else {
            prev
        }
    }
}

pub open spec fn strings_view(s: Seq<String>) -> Seq<Seq<char>> {
    s.map_values(|x: String| x@)
}

/// The ids of the enabled mods, lowest priority first, equal priorities in
/// the order they were given.
pub fn enabled_ids_in_order(mods: &Vec<ModEntry>) -> (ids: Vec<String>)
    ensures
        ordered_enabled_ids(mods@, strings_view(ids@)),
{
    let mut en: Vec<ModEntry> = Vec::new();
    let mut i: usize = 0;
    while i < mods.len()
        invariant
            i <= mods@.len(),
            en@ == enabled_entries(mods@.subrange(0, i as int)),
        decreases mods.len() - i,
    {
        assert(mods@.subrange(0, i + 1).drop_last() =~= mods@.subrange(0, i as int));
        if mods[i].enabled {
            en.push(copy_mod_entry(&mods[i]));
        }
        i = i + 1;
    }
    assert(mods@.subrange(0, i as int) =~= mods@);
    let mut p: Vec<u32> = Vec::new();
    let mut j: usize = 0;
    while j < en.len()
        invariant
            j <= en@.len(),
            p@ == entry_priorities(en@).subrange(0, j as int),
        decreases en.len() - j,
    {
        p.push(en[j].priority);
        j = j + 1;
        assert(p@ =~= entry_priorities(en@).subrange(0, j as int));
    }
    assert(p@ =~= entry_priorities(en@));
    let order = stable_priority_order(&p);
    let mut ids: Vec<String> = Vec::new();
    let mut t: usize = 0;
    while t < order.len()
        invariant
            is_stable_order(entry_priorities(en@), order@),
            t <= order@.len(),
            strings_view(ids@) == order@.subrange(0, t as int).map_values(
                |k: usize| en@[k as int].id@,
            ),
        decreases order.len() - t,
    {
        let k = order[t];
        assert(k < en@.len()) by {
            assert(order@[t as int] < entry_priorities(en@).len());
        }
        let ghost before = ids@;
        ids.push(en[k].id.clone());
        proof {
            let f = |k: usize| en@[k as int].id@;
            assert(strings_view(ids@) =~= strings_view(before).push(en@[k as int].id@));
            assert(order@.subrange(0, t + 1) =~= order@.subrange(0, t as int).push(k));
            assert(order@.subrange(0, t + 1).map_values(f) =~= order@.subrange(0, t as int).map_values(f).push(f(k)));
        }
        t = t + 1;
    }
    assert(order@.subrange(0, t as int) =~= order@);
    ids
}

/// The lines joined with `\n` between them.
pub fn join_with_newlines(lines: &Vec<String>) -> (r: String)
    ensures
        r@ == join_lines(strings_view(lines@)),
{
    let mut out = String::new();
    let mut i: usize = 0;
    proof {
        reveal_strlit("\n");
    }
    while i < lines.len()
        invariant
            i <= lines@.len(),
            out@ == join_lines(strings_view(lines@).subrange(0, i as int)),
        decreases lines.len() - i,
    {
        let ghost pre = strings_view(lines@).subrange(0, i as int);
        let ghost next = strings_view(lines@).subrange(0, i + 1);
        assert(next.drop_last() =~= pre);
        proof {
            reveal_strlit("\n");
        }
        if i > 0 {
            out.append("\n");
        }
        out.append(lines[i].as_str());
        i = i + 1;
        assert(out@ =~= join_lines(next));
    }
    assert(strings_view(lines@).subrange(0, i as int) =~= strings_view(lines@));
    out
}

proof fn lemma_split_push_newline(p: Seq<char>)
    ensures
        split_lines(p.push('\n')) == split_lines(p) + seq![Seq::<char>::empty()],
{
    let t = p.push('\n');
    lemma_last_index_of(t, '\n', p.len() as int);
    assert(t.subrange(0, p.len() as int) =~= p);
    assert(t.subrange(p.len() as int + 1, t.len() as int) =~= Seq::<char>::empty());
}

proof fn lemma_split_push_other(p: Seq<char>, c: char)
    requires
        c != '\n',
        split_lines(p).len() > 0,
    ensures
        split_lines(p.push(c)) == split_lines(p).update(
            split_lines(p).len() - 1,
            split_lines(p).last().push(c),
        ),
        split_lines(p.push(c)).len() == split_lines(p).len(),
{
    let t = p.push(c);
    assert(t.drop_last() =~= p);
    let k = last_index_of(p, '\n');
    assert(last_index_of(t, '\n') == k);
    crate::text::lemma_last_index_of_bounds(p, '\n');
    if 0 <= k {
        assert(t.subrange(0, k) =~= p.subrange(0, k));
        assert(t.subrange(k + 1, t.len() as int) =~= p.subrange(k + 1, p.len() as int).push(c));
        assert(split_lines(t) =~= split_lines(p).update(
            split_lines(p).len() - 1,
            split_lines(p).last().push(c),
        ));
    } else {
        assert(split_lines(t) =~= split_lines(p).update(
            split_lines(p).len() - 1,
            split_lines(p).last().push(c),
        ));
    }
}

proof fn lemma_split_nonempty(p: Seq<char>)
    ensures
        split_lines(p).len() > 0,
    decreases p.len(),
{
    let k = last_index_of(p, '\n');
    if 0 <= k < p.len() {
        lemma_split_nonempty(p.subrange(0, k));
    }
}

proof fn lemma_kept_push(lines: Seq<Seq<char>>, x: Seq<char>)
    ensures
        kept_lines(lines.push(x)) == if trim(x).len() > 0 {
            kept_lines(lines).push(trim(x))
        } else {
            kept_lines(lines)
        },
{
    assert(lines.push(x).drop_last() =~= lines);
}

/// The non-blank lines of `content`, trimmed (`lines()`, `trim`, filter).
pub fn non_blank_lines(content: &str) -> (r: Vec<String>)
    ensures
        strings_view(r@) == kept_lines(split_lines(content@)),
{
    let v = chars_of(content);
    let n = v.len();
    let mut out: Vec<String> = Vec::new();
    let ghost mut done: Seq<Seq<char>> = Seq::empty();
    let mut start: usize = 0;
    let mut i: usize = 0;
    proof {
        assert(content@.subrange(0, 0) =~= Seq::<char>::empty());
        lemma_last_index_of(Seq::<char>::empty(), '\n', -1);
        assert(split_lines(Seq::<char>::empty()) =~= seq![Seq::<char>::empty()]);
        assert(done.push(content@.subrange(0, 0)) =~= seq![Seq::<char>::empty()]);
    }
    while i < n
        invariant
            v@ == content@,
            n == v@.len(),
            start <= i <= n,
            split_lines(content@.subrange(0, i as int)) == done.push(
                content@.subrange(start as int, i as int),
            ),
            strings_view(out@) == kept_lines(done),
        decreases n - i,
    {
        let ghost pre = content@.subrange(0, i as int);
        assert(content@.subrange(0, i + 1) =~= pre.push(v@[i as int]));
        if v[i] == '\n' {
            let seg = trim_string(content.substring_char(start, i));
            proof {
                lemma_split_push_newline(pre);
                lemma_kept_push(done, content@.subrange(start as int, i as int));
            }
            let ghost seg_view = content@.subrange(start as int, i as int);
            if seg.unicode_len() > 0 {
                let ghost before = out@;
                out.push(seg);
                assert(strings_view(out@) =~= strings_view(before).push(trim(seg_view)));
            }
            proof {
                done = done.push(seg_view);
                assert(content@.subrange((i + 1) as int, (i + 1) as int) =~= Seq::<char>::empty());
            }
            start = i + 1;
        } else {
            proof {
                lemma_split_nonempty(pre);
                lemma_split_push_other(pre, v@[i as int]);
                assert(content@.subrange(start as int, i + 1) =~= content@.subrange(
                    start as int,
                    i as int,
                ).push(v@[i as int]));
                assert(split_lines(content@.subrange(0, i + 1)) =~= done.push(
                    content@.subrange(start as int, i + 1),
                ));
            }
        }
        i = i + 1;
    }
    assert(content@.subrange(0, n as int) =~= content@);
    let last = trim_string(content.substring_char(start, n));
    proof {
        lemma_kept_push(done, content@.subrange(start as int, n as int));
    }
    if last.unicode_len() > 0 {
        let ghost before = out@;
        out.push(last);
        assert(strings_view(out@) =~= strings_view(before).push(
            trim(content@.subrange(start as int, n as int)),
        ));
    }
    out
}

/// Reading back a load order that was written as lines gives the ids back, when
/// each id is non-empty, holds no line break and has no surrounding whitespace.
pub proof fn lemma_read_after_write(ids: Seq<Seq<char>>)
    requires
        forall|i: int|
            0 <= i < ids.len() ==> (#[trigger] ids[i]).len() > 0 && !ids[i].contains('\n')
                && trim(ids[i]) == ids[i],
    ensures
        kept_lines(split_lines(join_lines(ids))) == ids,
    decreases ids.len(),
{
    if ids.len() == 0 {
        lemma_last_index_of(Seq::<char>::empty(), '\n', -1);
        assert(split_lines(Seq::<char>::empty()) =~= seq![Seq::<char>::empty()]);
        lemma_trim_empty_iff_blank(Seq::<char>::empty());
        lemma_kept_push(Seq::empty(), Seq::<char>::empty());
        assert(seq![Seq::<char>::empty()] =~= Seq::<Seq<char>>::empty().push(Seq::<char>::empty()));
    } else if ids.len() == 1 {
        let x = ids[0];
        lemma_last_index_of(x, '\n', -1);
        assert(seq![x] =~= Seq::<Seq<char>>::empty().push(x));
        lemma_kept_push(Seq::empty(), x);
        assert(ids =~= seq![x]);
    } else {
        let init = ids.drop_last();
        let x = ids.last();
        lemma_read_after_write(init);
        let j = join_lines(init);
        let s = join_lines(ids);
        assert(s == j + seq!['\n'] + x);
        assert forall|t: int| j.len() < t < s.len() implies s[t] != '\n' by {
            assert(s[t] == x[t - j.len() - 1]);
        }
        lemma_last_index_of(s, '\n', j.len() as int);
        assert(s.subrange(0, j.len() as int) =~= j);
        assert(s.subrange(j.len() as int + 1, s.len() as int) =~= x);
        assert(split_lines(s) == split_lines(j).push(x));
        lemma_kept_push(split_lines(j), x);
        assert(ids =~= init.push(x));
    }
}

} // verus!
