//! Stable ordering by an integer key, as `slice::sort_by_key` gives it.

use vstd::prelude::*;

verus! {

/// Whether item `a` comes before item `b` in a stable ordering by `keys`:
/// a smaller key, or the same key and an earlier position.
pub open spec fn comes_before(keys: Seq<u32>, a: int, b: int) -> bool {
    keys[a] < keys[b] || (keys[a] == keys[b] && a < b)
}

/// Whether `order` holds `v`.
pub open spec fn lists(order: Seq<usize>, v: int) -> bool {
    exists|i: int| 0 <= i < order.len() && order[i] == v
}

/// Whether `order` lists every position of `keys` once, stably sorted by key.
pub open spec fn is_stable_order(keys: Seq<u32>, order: Seq<usize>) -> bool {
    &&& order.len() == keys.len()
    &&& forall|i: int| 0 <= i < order.len() ==> order[i] < keys.len()
    &&& forall|v: int| 0 <= v < keys.len() ==> #[trigger] lists(order, v)
    &&& forall|i: int, j: int| 0 <= i < j < order.len() ==> comes_before(keys, order[i] as int, order[j] as int)
}

/// The positions of `keys` in stable order by key.
pub fn stable_order(keys: &Vec<u32>) -> (order: Vec<usize>)
    ensures
        is_stable_order(keys@, order@),
{
    let n = keys.len();
    let mut order: Vec<usize> = Vec::new();
    for i in 0..n
        invariant
            n == keys@.len(),
            order@.len() == i,
            forall|k: int| 0 <= k < order@.len() ==> order@[k] < i,
            forall|v: int| 0 <= v < i ==> #[trigger] lists(order@, v),
            forall|a: int, b: int| 0 <= a < b < order@.len() ==> comes_before(keys@, order@[a] as int, order@[b] as int),
    {
        let mut p: usize = 0;
        while p < order.len() && keys[order[p]] <= keys[i]
            invariant
                n == keys@.len(),
                i < n,
                p <= order@.len() == i,
                forall|k: int| 0 <= k < order@.len() ==> order@[k] < i,
                forall|k: int| 0 <= k < p ==> keys@[order@[k] as int] <= keys@[i as int],
            decreases order@.len() - p,
        {
            p += 1;
        }
        proof {
            assert forall|k: int| p <= k < order@.len() implies keys@[order@[k] as int] > keys@[i as int] by {
                if p < order@.len() {
                    assert(keys@[order@[p as int] as int] > keys@[i as int]);
                    if k > p {
                        assert(comes_before(keys@, order@[p as int] as int, order@[k] as int));
                    }
                }
            }
        }
        let ghost old_order = order@;
        order.insert(p, i);
        assert(order@ == old_order.insert(p as int, i));
        assert forall|v: int| 0 <= v < i + 1 implies #[trigger] lists(order@, v) by {
            if v == i {
                assert(order@[p as int] == i);
            } else {
                assert(lists(old_order, v));
                let k = choose|k: int| 0 <= k < old_order.len() && old_order[k] == v;
                if k < p {
                    assert(order@[k] == v);
                } else {
                    assert(order@[k + 1] == v);
                }
            }
        }
        assert forall|a: int, b: int| 0 <= a < b < order@.len() implies comes_before(
            keys@,
            order@[a] as int,
            order@[b] as int,
        ) by {
            if a < p && b < p {
                assert(order@[a] == old_order[a] && order@[b] == old_order[b]);
            } else if a < p && b == p {
                assert(order@[a] == old_order[a]);
            } else if a < p && b > p {
                assert(order@[a] == old_order[a] && order@[b] == old_order[b - 1]);
            } else if a == p {
                assert(order@[b] == old_order[b - 1]);
            } else {
                assert(order@[a] == old_order[a - 1] && order@[b] == old_order[b - 1]);
            }
        }
    }
    order
}


/// Two stable orders of the same keys agree up to position `i`.
proof fn lemma_orders_agree_upto(keys: Seq<u32>, a: Seq<usize>, b: Seq<usize>, i: int)
    requires
        is_stable_order(keys, a),
        is_stable_order(keys, b),
        0 <= i < a.len(),
    ensures
        forall|j: int| 0 <= j <= i ==> a[j] == b[j],
    decreases i,
{
    if i > 0 {
        lemma_orders_agree_upto(keys, a, b, i - 1);
    }
    let x = a[i] as int;
    let y = b[i] as int;
    if x != y {
        if comes_before(keys, x, y) {
            assert(lists(b, x));
            let j = choose|j: int| 0 <= j < b.len() && b[j] == x;
            if j < i {
                assert(a[j] == b[j]);
                assert(comes_before(keys, a[j] as int, a[i] as int));
            } else {
                assert(j != i);
                assert(comes_before(keys, b[i] as int, b[j] as int));
            }
        } else {
            assert(comes_before(keys, y, x));
            assert(lists(a, y));
            let k = choose|k: int| 0 <= k < a.len() && a[k] == y;
            if k < i {
                assert(a[k] == b[k]);
                assert(comes_before(keys, b[k] as int, b[i] as int));
            } else {
                assert(k != i);
                assert(comes_before(keys, a[i] as int, a[k] as int));
            }
        }
    }
}

/// The stable order of a list of keys is unique: any two orders that list
/// every position once, stably sorted by key, are the same.
pub proof fn lemma_stable_order_unique(keys: Seq<u32>, a: Seq<usize>, b: Seq<usize>)
    requires
        is_stable_order(keys, a),
        is_stable_order(keys, b),
    ensures
        a == b,
{
    if a.len() > 0 {
        lemma_orders_agree_upto(keys, a, b, a.len() - 1);
    }
    assert(a =~= b);
}

} // verus!
