//! Depth ordering of atoms.
//!
//! A depth is a single-precision value held as its IEEE 754 bit pattern.
//! Depths are compared by the IEEE 754 `totalOrder` predicate: negative
//! values first, `-0` before `+0`, NaNs at either end by their sign bit.
use vstd::prelude::*;

verus! {

/// Bit of a single-precision pattern that holds the sign.
pub const SIGN_BIT: u32 = 0x8000_0000;

/// Position of a single-precision bit pattern in the IEEE 754 total order,
/// as an integer: patterns with the sign bit clear keep their value, and
/// patterns with it set count down from -1 as their magnitude grows.
pub open spec fn total_rank(bits: u32) -> int {
    if bits < SIGN_BIT {
        bits as int
    } else {
        0x7fff_ffff - bits as int
    }
}

/// Integer key of a depth: comparing keys compares the depths in the
/// IEEE 754 total order.
pub fn depth_key(bits: u32) -> (k: i32)
    ensures
        k as int == total_rank(bits),
{
    if bits < SIGN_BIT {
        bits as i32
    } else {
        (0x7fff_ffffi64 - bits as i64) as i32
    }
}

/// Atom `i` is drawn before atom `j`: it lies deeper, or at the same depth
/// and earlier in the sequence.
pub open spec fn precedes(depths: Seq<u32>, i: int, j: int) -> bool {
    total_rank(depths[i]) < total_rank(depths[j]) || (total_rank(depths[i]) == total_rank(
        depths[j],
    ) && i < j)
}

/// `order` lists every index of `depths` once, sorted ascending by depth,
/// with equal depths kept in their original relative order.
pub open spec fn is_depth_order(depths: Seq<u32>, order: Seq<usize>) -> bool {
    &&& order.len() == depths.len()
    &&& forall|k: int| 0 <= k < order.len() ==> order[k] < depths.len()
    &&& forall|x: usize| x < depths.len() ==> #[trigger] order.contains(x)
    &&& forall|k: int, l: int|
        0 <= k < l < order.len() ==> #[trigger] precedes(depths, order[k] as int, order[l] as int)
}

/// Stable sort of the atoms by depth: returns the indices of `depths` in
/// the order in which the atoms are to be kept.
pub fn depth_order(depths: &Vec<u32>) -> (order: Vec<usize>)
    ensures
        is_depth_order(depths@, order@),
{
    let n = depths.len();
    let mut order: Vec<usize> = Vec::new();
    let mut i: usize = 0;
    while i < n
        invariant
            i <= n,
            n == depths@.len(),
            order@.len() == i,
            forall|k: int| 0 <= k < order@.len() ==> order@[k] < i,
            forall|x: usize| x < i ==> #[trigger] order@.contains(x),
            forall|k: int, l: int|
                0 <= k < l < order@.len() ==> #[trigger] precedes(
                    depths@,
                    order@[k] as int,
                    order@[l] as int,
                ),
        decreases n - i,
    {
        let key = depth_key(depths[i]);
        let mut p: usize = 0;
        while p < order.len() && depth_key(depths[order[p]]) <= key
            invariant
                p <= order@.len(),
                n == depths@.len(),
                forall|k: int| 0 <= k < order@.len() ==> order@[k] < i,
                key == total_rank(depths@[i as int]),
                i < n,
                forall|k: int|
                    0 <= k < p ==> total_rank(depths@[order@[k] as int]) <= key,
            decreases order@.len() - p,
        {
            p = p + 1;
        }
        let ghost prev = order@;
        proof {
            // Beyond `p` every depth lies strictly above the one inserted.
            assert forall|l: int| p <= l < prev.len() implies key < total_rank(
                depths@[prev[l] as int],
            ) by {
                if l > p {
                    assert(precedes(depths@, prev[p as int] as int, prev[l] as int));
                }
            }
        }
        order.insert(p, i);
        proof {
            let o = order@;
            assert(o == prev.insert(p as int, i));
            assert forall|x: usize| x < i + 1 implies #[trigger] o.contains(x) by {
                if x == i {
                    assert(o[p as int] == x);
                } else {
                    assert(prev.contains(x));
                    let k0 = choose|k: int| 0 <= k < prev.len() && prev[k] == x;
                    if k0 < p {
                        assert(o[k0] == x);
                    } else {
                        assert(o[k0 + 1] == x);
                    }
                }
            }
            assert forall|k: int, l: int| 0 <= k < l < o.len() implies #[trigger] precedes(
                depths@,
                o[k] as int,
                o[l] as int,
            ) by {
                if k < p && l == p {
                } else if k == p && l > p {
                    assert(key < total_rank(depths@[prev[l - 1] as int]));
                } else if k < p && l > p {
                    assert(precedes(depths@, prev[k] as int, prev[l - 1] as int));
                } else if l < p {
                    assert(precedes(depths@, prev[k] as int, prev[l] as int));
                } else {
                    assert(precedes(depths@, prev[k - 1] as int, prev[l - 1] as int));
                }
            }
        }
        i = i + 1;
    }
    order
}

/// Rearranges `items` into the given order: the `k`-th result is the item
/// at index `order[k]`.
pub fn reorder<T: Copy>(items: &Vec<T>, order: &Vec<usize>) -> (r: Vec<T>)
    requires
        forall|k: int| 0 <= k < order@.len() ==> order@[k] < items@.len(),
    ensures
        r@.len() == order@.len(),
        forall|k: int| 0 <= k < order@.len() ==> r@[k] == items@[order@[k] as int],
{
    let mut r: Vec<T> = Vec::with_capacity(order.len());
    let mut k: usize = 0;
    while k < order.len()
        invariant
            k <= order@.len(),
            forall|l: int| 0 <= l < order@.len() ==> order@[l] < items@.len(),
            r@.len() == k,
            forall|l: int| 0 <= l < k ==> r@[l] == items@[order@[l] as int],
        decreases order@.len() - k,
    {
        r.push(items[order[k]]);
        k = k + 1;
    }
    r
}

/// Stable sort of `items` by the depth given for each of them: the result
/// holds the items in the depth order of `depths`.
pub fn sort_by_depth<T: Copy>(items: &Vec<T>, depths: &Vec<u32>) -> (r: Vec<T>)
    requires
        items@.len() == depths@.len(),
    ensures
        exists|order: Seq<usize>|
            #![auto]
            is_depth_order(depths@, order) && r@.len() == order.len() && forall|k: int|
                0 <= k < order.len() ==> r@[k] == items@[order[k] as int],
{
    let order = depth_order(depths);
    let r = reorder(items, &order);
    assert(is_depth_order(depths@, order@) && r@.len() == order@.len() && forall|k: int|
        0 <= k < order@.len() ==> r@[k] == items@[order@[k] as int]);
    r
}

/// After a depth sort, every atom lies no higher than the one after it:
/// the depths read in order are non-decreasing in the total order.
pub proof fn lemma_depth_order_sorted(depths: Seq<u32>, order: Seq<usize>)
    requires
        is_depth_order(depths, order),
    ensures
        forall|k: int|
            0 <= k < order.len() - 1 ==> total_rank(depths[order[k] as int]) <= total_rank(
                #[trigger] depths[order[k + 1] as int],
            ),
{
    assert forall|k: int| 0 <= k < order.len() - 1 implies total_rank(depths[order[k] as int])
        <= total_rank(#[trigger] depths[order[k + 1] as int]) by {
        assert(precedes(depths, order[k] as int, order[k + 1] as int));
    }
}

/// The depth order is determined by the depths alone: any two orders that
/// both sort the same depths are the same sequence, so sorting identical
/// populations always yields identical results.
pub proof fn lemma_depth_order_unique(depths: Seq<u32>, o1: Seq<usize>, o2: Seq<usize>)
    requires
        is_depth_order(depths, o1),
        is_depth_order(depths, o2),
    ensures
        o1 == o2,
{
    lemma_depth_order_agree(depths, o1, o2, o1.len() as int);
    assert(o1 =~= o2);
}

proof fn lemma_depth_order_agree(depths: Seq<u32>, o1: Seq<usize>, o2: Seq<usize>, k: int)
    requires
        is_depth_order(depths, o1),
        is_depth_order(depths, o2),
        0 <= k <= o1.len(),
    ensures
        forall|i: int| 0 <= i < k ==> o1[i] == o2[i],
    decreases k,
{
    if k > 0 {
        let j = k - 1;
        lemma_depth_order_agree(depths, o1, o2, j);
        let a = o1[j];
        let b = o2[j];
        if a != b {
            assert(o1.contains(b));
            let i1 = choose|i: int| 0 <= i < o1.len() && o1[i] == b;
            assert(o2.contains(a));
            let i2 = choose|i: int| 0 <= i < o2.len() && o2[i] == a;
            if i1 < j {
                assert(precedes(depths, o2[i1] as int, o2[j] as int));
            } else if i2 < j {
                assert(precedes(depths, o1[i2] as int, o1[j] as int));
            } else {
                assert(precedes(depths, o1[j] as int, o1[i1] as int));
                assert(precedes(depths, o2[j] as int, o2[i2] as int));
            }
        }
    }
}

} // verus!
