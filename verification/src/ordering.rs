//! Stable ordering by priority, as `sort_by_key(|m| m.priority)` orders mods:
//! lower priority first, equal priorities in the order they were given.
use vstd::prelude::*;

verus! {

/// Position `a` comes before position `b`: lower priority, or equal priority and earlier.
pub open spec fn priority_before(p: Seq<u32>, a: int, b: int) -> bool {
    p[a] < p[b] || (p[a] == p[b] && a < b)
}

/// `x` is one of the positions in `order`.
pub open spec fn occurs(order: Seq<usize>, x: int) -> bool {
    exists|i: int| 0 <= i < order.len() && order[i] == x
}

/// `order` lists every position of `p` once, lowest priority first and equal
/// priorities in the order they were given.
pub open spec fn is_stable_order(p: Seq<u32>, order: Seq<usize>) -> bool {
    &&& order.len() == p.len()
    &&& forall|i: int| 0 <= i < order.len() ==> #[trigger] order[i] < p.len()
    &&& forall|x: int| 0 <= x < p.len() ==> #[trigger] occurs(order, x)
    &&& forall|i: int, j: int|
        0 <= i < j < order.len() ==> priority_before(p, #[trigger] order[i] as int, #[trigger] order[j] as int)
}

/// The positions of `p` in stable priority order.
pub fn stable_priority_order(p: &Vec<u32>) -> (order: Vec<usize>)
    ensures
        is_stable_order(p@, order@),
{
    let n = p.len();
    let mut order: Vec<usize> = Vec::new();
    let mut k: usize = 0;
    while k < n
        invariant
            n == p@.len(),
            k <= n,
            order@.len() == k,
            forall|i: int| 0 <= i < order@.len() ==> #[trigger] order@[i] < k,
            forall|x: int| 0 <= x < k ==> #[trigger] occurs(order@, x),
            forall|i: int, j: int|
                0 <= i < j < order@.len() ==> priority_before(
                    p@,
                    #[trigger] order@[i] as int,
                    #[trigger] order@[j] as int,
                ),
        decreases n - k,
    {
        let pk = p[k];
        let mut pos: usize = 0;
        while pos < order.len() && p[order[pos]] <= pk
            invariant
                n == p@.len(),
                k < n,
                pk == p@[k as int],
                pos <= order@.len(),
                forall|i: int| 0 <= i < order@.len() ==> #[trigger] order@[i] < k,
                forall|t: int| 0 <= t < pos ==> p@[#[trigger] order@[t] as int] <= pk,
            decreases order.len() - pos,
        {
            pos = pos + 1;
        }
        let ghost old_order = order@;
        proof {
            assert forall|t: int| pos <= t < old_order.len() implies pk < p@[#[trigger] old_order[t] as int] by {
                if t > pos {
                    assert(priority_before(p@, old_order[pos as int] as int, old_order[t] as int));
                }
            }
        }
        order.insert(pos, k);
        proof {
            assert forall|i: int| 0 <= i < order@.len() implies #[trigger] order@[i] < k + 1 by {
                if i < pos {
                    assert(order@[i] == old_order[i]);
                } else if i > pos {
                    assert(order@[i] == old_order[i - 1]);
                }
            }
            assert forall|x: int| 0 <= x < k + 1 implies #[trigger] occurs(order@, x) by {
                if x == k {
                    assert(order@[pos as int] == k);
                } else {
                    assert(occurs(old_order, x));
                    let i0 = choose|i: int| 0 <= i < old_order.len() && old_order[i] == x;
                    if i0 < pos {
                        assert(order@[i0] == x);
                    } else {
                        assert(order@[i0 + 1] == x);
                    }
                }
            }
            assert forall|i: int, j: int| 0 <= i < j < order@.len() implies priority_before(
                p@,
                #[trigger] order@[i] as int,
                #[trigger] order@[j] as int,
            ) by {
                if j < pos {
                    assert(order@[i] == old_order[i] && order@[j] == old_order[j]);
                } else if j == pos {
                    assert(order@[i] == old_order[i]);
                    assert(p@[old_order[i] as int] <= pk);
                } else if i < pos {
                    assert(order@[i] == old_order[i] && order@[j] == old_order[j - 1]);
                } else if i == pos {
                    assert(order@[j] == old_order[j - 1]);
                    assert(pk < p@[old_order[j - 1] as int]);
                } else {
                    assert(order@[i] == old_order[i - 1] && order@[j] == old_order[j - 1]);
                }
            }
        }
        k = k + 1;
    }
    order
}

/// There is only one stable priority order of a sequence of priorities: sorting
/// by priority keeps equal priorities in the order they were given and so has one
/// possible outcome.
pub proof fn lemma_stable_order_unique(p: Seq<u32>, o1: Seq<usize>, o2: Seq<usize>)
    requires
        is_stable_order(p, o1),
        is_stable_order(p, o2),
    ensures
        o1 == o2,
{
    if o1 != o2 {
        assert(exists|i: int| 0 <= i < o1.len() && o1[i] != o2[i]) by {
            if forall|i: int| 0 <= i < o1.len() ==> o1[i] == o2[i] {
                assert(o1 =~= o2);
            }
        }
        let d = choose|i: int| 0 <= i < o1.len() && o1[i] != o2[i];
        let i = lemma_first_difference(o1, o2, d);
        let a = o1[i] as int;
        let b = o2[i] as int;
        assert(occurs(o2, a));
        assert(occurs(o1, b));
        let ja = choose|t: int| 0 <= t < o2.len() && o2[t] == a;
        let jb = choose|t: int| 0 <= t < o1.len() && o1[t] == b;
        if jb < i {
            assert(o2[jb] == b);
            assert(priority_before(p, o2[jb] as int, o2[i] as int));
        }
        if ja < i {
            assert(o1[ja] == a);
            assert(priority_before(p, o1[ja] as int, o1[i] as int));
        }
        assert(jb > i && ja > i);
        assert(priority_before(p, o1[i] as int, o1[jb] as int));
        assert(priority_before(p, o2[i] as int, o2[ja] as int));
    }
}

proof fn lemma_first_difference(o1: Seq<usize>, o2: Seq<usize>, d: int) -> (i: int)
    requires
        o1.len() == o2.len(),
        0 <= d < o1.len(),
        o1[d] != o2[d],
    ensures
        0 <= i <= d,
        o1[i] != o2[i],
        forall|t: int| 0 <= t < i ==> o1[t] == o2[t],
    decreases d,
{
    if exists|t: int| 0 <= t < d && o1[t] != o2[t] {
        let t = choose|t: int| 0 <= t < d && o1[t] != o2[t];
        lemma_first_difference(o1, o2, t)
    } else {
        d
    }
}

} // verus!
