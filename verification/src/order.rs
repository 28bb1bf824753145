//! Putting rows in order by a number each carries, the earlier row first
//! among equals, so an order never shuffles rows that tie.
use vstd::prelude::*;

verus! {

/// Whether row `a` comes before row `b`: a smaller key, or the same key and
/// an earlier place.
pub open spec fn precedes(keys: Seq<u64>, a: int, b: int) -> bool {
    keys[a] < keys[b] || (keys[a] == keys[b] && a < b)
}

/// No row is listed twice.
pub open spec fn no_repeats(s: Seq<usize>) -> bool {
    forall|a: int, b: int| 0 <= a < b < s.len() ==> s[a] != s[b]
}

/// Whether `order` lists every row of `keys` once, each before the rows it
/// precedes.
pub open spec fn is_key_order(keys: Seq<u64>, order: Seq<usize>) -> bool {
    &&& order.len() == keys.len()
    &&& forall|k: int| 0 <= k < order.len() ==> #[trigger] order[k] < keys.len()
    &&& no_repeats(order)
    &&& forall|a: int, b: int| 0 <= a < b < order.len() ==> precedes(keys, order[a] as int, order[b] as int)
}

/// The rows of `keys` in order: the smallest key first, and among equal
/// keys the earlier row first.
pub fn key_order(keys: &Vec<u64>) -> (order: Vec<usize>)
    ensures
        is_key_order(keys@, order@),
{
    let n = keys.len();
    let mut order: Vec<usize> = Vec::new();
    let mut i: usize = 0;
    while i < n
        invariant
            i <= n,
            n == keys@.len(),
            order@.len() == i,
            forall|k: int| 0 <= k < order@.len() ==> #[trigger] order@[k] < i,
            no_repeats(order@),
            forall|a: int, b: int| 0 <= a < b < order@.len() ==> precedes(keys@, order@[a] as int, order@[b] as int),
        decreases n - i,
    {
        let key = keys[i];
        let mut p: usize = 0;
        while p < order.len() && keys[order[p]] <= key
            invariant
                p <= order@.len(),
                i < n,
                n == keys@.len(),
                key == keys@[i as int],
                forall|k: int| 0 <= k < order@.len() ==> #[trigger] order@[k] < i,
                forall|q: int| 0 <= q < p ==> keys@[#[trigger] order@[q] as int] <= key,
            decreases order@.len() - p,
        {
            p = p + 1;
        }
        proof {
            // Every row from `p` on has a larger key than row `i`.
            assert forall|q: int| p <= q < order@.len() implies key < keys@[#[trigger] order@[q] as int] by {
                if q > p {
                    assert(precedes(keys@, order@[p as int] as int, order@[q] as int));
                }
            }
        }
        let ghost old_order = order@;
        order.insert(p, i);
        proof {
            assert forall|k: int| 0 <= k < order@.len() implies #[trigger] order@[k] < i + 1 by {
                if k < p {
                    assert(order@[k] == old_order[k]);
                } else if k > p {
                    assert(order@[k] == old_order[k - 1]);
                }
            }
            assert forall|a: int, b: int| 0 <= a < b < order@.len() implies order@[a] != order@[b] by {
                if a < p && b < p {
                    assert(old_order[a] != old_order[b]);
                } else if a < p && b > p {
                    assert(old_order[a] != old_order[b - 1]);
                } else if a > p {
                    assert(old_order[a - 1] != old_order[b - 1]);
                } else if a < p {
                    assert(old_order[a] < i);
                } else {
                    assert(old_order[b - 1] < i);
                }
            }
            assert forall|a: int, b: int| 0 <= a < b < order@.len() implies precedes(
                keys@,
                order@[a] as int,
                order@[b] as int,
            ) by {
                if a < p && b < p {
                    assert(precedes(keys@, old_order[a] as int, old_order[b] as int));
                } else if a < p && b == p {
                    assert(keys@[old_order[a] as int] <= key);
                    assert(old_order[a] < i);
                } else if a < p {
                    assert(precedes(keys@, old_order[a] as int, old_order[b - 1] as int));
                } else if a == p {
                    assert(key < keys@[old_order[b - 1] as int]);
                } else {
                    assert(precedes(keys@, old_order[a - 1] as int, old_order[b - 1] as int));
                }
            }
        }
        i = i + 1;
    }
    order
}

} // verus!
