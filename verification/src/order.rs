//! Sorting, with elements of equal keys left in their order.

use vstd::prelude::*;

verus! {

/// The element at `a` comes before the one at `b`: it has the smaller key, or the same key and
/// the smaller index.
pub open spec fn before(keys: Seq<i128>, a: int, b: int) -> bool {
    keys[a] < keys[b] || (keys[a] == keys[b] && a < b)
}

/// `order` lists the indices of all keys, each once, in the order in which they come when they
/// are sorted and equal keys are left in their order.
pub open spec fn stable_order_of(keys: Seq<i128>, order: Seq<usize>) -> bool {
    &&& order.len() == keys.len()
    &&& forall|i: int| 0 <= i < order.len() ==> (#[trigger] order[i]) < keys.len()
    &&& forall|i: int, j: int|
        0 <= i < j < order.len() ==> before(
            keys,
            (#[trigger] order[i]) as int,
            (#[trigger] order[j]) as int,
        )
    &&& forall|v: usize| v < keys.len() ==> #[trigger] order.contains(v)
}

/// There is only one such order.
pub proof fn law_stable_order_is_unique(keys: Seq<i128>, p: Seq<usize>, q: Seq<usize>)
    requires
        stable_order_of(keys, p),
        stable_order_of(keys, q),
    ensures
        p == q,
{
    assert forall|k: int| 0 <= k < p.len() implies p[k] == q[k] by {
        lemma_same_at(keys, p, q, k);
    }
    assert(p =~= q);
}

proof fn lemma_same_at(keys: Seq<i128>, p: Seq<usize>, q: Seq<usize>, k: int)
    requires
        stable_order_of(keys, p),
        stable_order_of(keys, q),
        0 <= k < p.len(),
    ensures
        p[k] == q[k],
    decreases k,
{
    assert forall|i: int| 0 <= i < k implies p[i] == q[i] by {
        lemma_same_at(keys, p, q, i);
    }
    if p[k] != q[k] {
        assert(q.contains(p[k]));
        let j = choose|j: int| 0 <= j < q.len() && q[j] == p[k];
        assert(p.contains(q[k]));
        let l = choose|l: int| 0 <= l < p.len() && p[l] == q[k];
        if j < k {
            assert(p[j] == q[j]);
            assert(before(keys, p[j] as int, p[k] as int));
        } else if l < k {
            assert(q[l] == p[l]);
            assert(before(keys, q[l] as int, q[k] as int));
        } else {
            assert(before(keys, q[k] as int, q[j] as int));
            assert(before(keys, p[k] as int, p[l] as int));
        }
    }
}

/// The order in which the keys come when they are sorted.
pub fn stable_order(keys: &Vec<i128>) -> (order: Vec<usize>)
    ensures
        stable_order_of(keys@, order@),
{
    let mut order: Vec<usize> = Vec::new();
    let mut i: usize = 0;
    while i < keys.len()
        invariant
            i <= keys.len(),
            order.len() == i,
            forall|k: int| 0 <= k < order.len() ==> (#[trigger] order@[k]) < i,
            forall|a: int, b: int|
                0 <= a < b < order.len() ==> before(
                    keys@,
                    (#[trigger] order@[a]) as int,
                    (#[trigger] order@[b]) as int,
                ),
            forall|v: usize| v < i ==> #[trigger] order@.contains(v),
        decreases keys.len() - i,
    {
        let mut at: usize = order.len();
        while at > 0 && keys[order[at - 1]] > keys[i]
            invariant
                i < keys.len(),
                at <= order.len(),
                order.len() == i,
                forall|k: int| 0 <= k < order.len() ==> (#[trigger] order@[k]) < i,
                forall|a: int, b: int|
                    0 <= a < b < order.len() ==> before(
                        keys@,
                        (#[trigger] order@[a]) as int,
                        (#[trigger] order@[b]) as int,
                    ),
                forall|k: int|
                    at <= k < order.len() ==> keys@[(#[trigger] order@[k]) as int] > keys@[i as int],
            decreases at,
        {
            at = at - 1;
        }
        let ghost old_order = order@;
        order.insert(at, i);
        proof {
            assert forall|v: usize| v < i + 1 implies #[trigger] order@.contains(v) by {
                if v == i {
                    assert(order@[at as int] == i);
                } else {
                    assert(old_order.contains(v));
                    let k = choose|k: int| 0 <= k < old_order.len() && old_order[k] == v;
                    if k < at {
                        assert(order@[k] == v);
                    } else {
                        assert(order@[k + 1] == v);
                    }
                }
            }
            assert forall|a: int, b: int| 0 <= a < b < order.len() implies before(
                keys@,
                (#[trigger] order@[a]) as int,
                (#[trigger] order@[b]) as int,
            ) by {
                let x = if a < at { a } else { a - 1 };
                let y = if b < at { b } else { b - 1 };
                if a == at {
                    assert(order@[b] == old_order[b - 1]);
                } else if b == at {
                    assert(order@[a] == old_order[a]);
                    if at > 0 {
                        assert(a == at - 1 || before(
                            keys@,
                            old_order[a] as int,
                            old_order[at - 1] as int,
                        ));
                    }
                } else {
                    assert(order@[a] == old_order[x]);
                    assert(order@[b] == old_order[y]);
                }
            }
        }
        i = i + 1;
    }
    order
}

} // verus!
