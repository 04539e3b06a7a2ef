//! Schedule of pairwise interactions.
//!
//! Every atom feels every other atom, and never itself. The schedule lists
//! each ordered pair `(a, o)` with `a != o` exactly once, grouped by the atom
//! `a` that receives the force, with the partners `o` ascending.
use vstd::prelude::*;

verus! {

/// A pair in which atom `a` is acted upon by atom `o`, both among `count`.
pub open spec fn is_interaction(count: int, a: int, o: int) -> bool {
    0 <= a < count && 0 <= o < count && a != o
}

/// Place of the pair `(a, o)` in the schedule: the row of `a` holds
/// `count - 1` partners, skipping `a` itself.
pub open spec fn pair_slot(count: int, a: int, o: int) -> int {
    a * (count - 1) + if o < a {
        o
    } else {
        o - 1
    }
}

proof fn lemma_slot_in_row(n: int, a: int, o: int)
    requires
        is_interaction(n, a, o),
    ensures
        a * (n - 1) <= pair_slot(n, a, o) < (a + 1) * (n - 1),
{
    assert((a + 1) * (n - 1) == a * (n - 1) + n - 1) by (nonlinear_arith);
}

proof fn lemma_rows_before(n: int, x: int, a: int)
    requires
        0 <= x < a,
        n >= 1,
    ensures
        (x + 1) * (n - 1) <= a * (n - 1),
{
    assert((x + 1) * (n - 1) <= a * (n - 1)) by (nonlinear_arith)
        requires
            x + 1 <= a,
            n - 1 >= 0,
    ;
}

/// All ordered pairs of distinct atoms among `count`, in schedule order.
pub fn interaction_pairs(count: usize) -> (pairs: Vec<(usize, usize)>)
    requires
        count * (count - 1) <= usize::MAX,
    ensures
        pairs@.len() == count * (count - 1),
        forall|k: int|
            0 <= k < pairs@.len() ==> is_interaction(
                count as int,
                #[trigger] pairs@[k].0 as int,
                pairs@[k].1 as int,
            ) && pair_slot(count as int, pairs@[k].0 as int, pairs@[k].1 as int) == k,
        forall|a: int, o: int|
            is_interaction(count as int, a, o) ==> #[trigger] pairs@[pair_slot(count as int, a, o)]
                == (a as usize, o as usize),
{
    let mut pairs: Vec<(usize, usize)> = Vec::new();
    if count == 0 {
        return pairs;
    }
    let ghost n = count as int;
    let mut a: usize = 0;
    while a < count
        invariant
            n == count as int,
            count > 0,
            count * (count - 1) <= usize::MAX,
            a <= count,
            pairs@.len() == a * (n - 1),
            forall|k: int|
                0 <= k < pairs@.len() ==> is_interaction(
                    n,
                    #[trigger] pairs@[k].0 as int,
                    pairs@[k].1 as int,
                ) && pair_slot(n, pairs@[k].0 as int, pairs@[k].1 as int) == k,
            forall|x: int, y: int|
                is_interaction(n, x, y) && x < a ==> #[trigger] pairs@[pair_slot(n, x, y)] == (
                x as usize,
                y as usize,
            ),
        decreases count - a,
    {
        let mut o: usize = 0;
        while o < count
            invariant
                n == count as int,
                count > 0,
                count * (count - 1) <= usize::MAX,
                a < count,
                o <= count,
                pairs@.len() == a * (n - 1) + if o <= a {
                    o as int
                } else {
                    o - 1
                },
                forall|k: int|
                    0 <= k < pairs@.len() ==> is_interaction(
                        n,
                        #[trigger] pairs@[k].0 as int,
                        pairs@[k].1 as int,
                    ) && pair_slot(n, pairs@[k].0 as int, pairs@[k].1 as int) == k,
                forall|x: int, y: int|
                    is_interaction(n, x, y) && (x < a || (x == a && y < o)) ==> #[trigger] pairs@[pair_slot(
                        n,
                        x,
                        y,
                    )] == (x as usize, y as usize),
            decreases count - o,
        {
            if o != a {
                proof {
                    assert(a * (n - 1) + n - 1 <= n * (n - 1)) by (nonlinear_arith)
                        requires
                            a < n,
                    ;
                }
                let ghost prev = pairs@;
                pairs.push((a, o));
                proof {
                    assert forall|x: int, y: int|
                        is_interaction(n, x, y) && (x < a || (x == a && y < o + 1)) implies #[trigger] pairs@[pair_slot(
                        n,
                        x,
                        y,
                    )] == (x as usize, y as usize) by {
                        lemma_slot_in_row(n, x, y);
                        if x < a {
                            lemma_rows_before(n, x, a as int);
                            assert(pairs@[pair_slot(n, x, y)] == prev[pair_slot(n, x, y)]);
                        } else if y < o {
                            assert(pairs@[pair_slot(n, x, y)] == prev[pair_slot(n, x, y)]);
                        }
                    }
                }
            }
            o = o + 1;
        }
        proof {
            assert(a * (n - 1) + n - 1 == (a + 1) * (n - 1)) by (nonlinear_arith);
            assert forall|x: int, y: int| is_interaction(n, x, y) && x < a + 1 implies #[trigger] pairs@[pair_slot(
                n,
                x,
                y,
            )] == (x as usize, y as usize) by {
                lemma_slot_in_row(n, x, y);
                if x < a {
                    lemma_rows_before(n, x, a as int);
                }
            }
        }
        a = a + 1;
    }
    pairs
}

} // verus!
