//! Warping paths, and the proof that the cumulative-cost recurrence gives
//! the cheapest path's cost.
use vstd::prelude::*;
use crate::cost::{cell_cost, dtw, local_cost, min3};

verus! {

/// `q` follows `p` by one step right, down, or diagonally.
pub open spec fn is_step(p: (int, int), q: (int, int)) -> bool {
    ||| q.0 == p.0 + 1 && q.1 == p.1
    ||| q.0 == p.0 && q.1 == p.1 + 1
    ||| q.0 == p.0 + 1 && q.1 == p.1 + 1
}

/// `p` is a monotone, contiguous path of grid cells from `(0, 0)` to `(i, j)`.
pub open spec fn is_path(p: Seq<(int, int)>, i: int, j: int) -> bool {
    &&& p.len() >= 1
    &&& p[0] == (0int, 0int)
    &&& p.last() == (i, j)
    &&& forall|k: int| 0 <= k < p.len() ==> 0 <= #[trigger] p[k].0 && 0 <= p[k].1
    &&& forall|k: int| 0 <= k < p.len() - 1 ==> is_step(#[trigger] p[k], p[k + 1])
}

/// Sum of the local costs of the cells of `p`.
pub open spec fn path_cost(a: Seq<i32>, b: Seq<i32>, p: Seq<(int, int)>) -> int
    decreases p.len(),
{
    if p.len() == 0 {
        0
    } else {
        path_cost(a, b, p.drop_last()) + local_cost(a, b, p.last().0, p.last().1)
    }
}

/// A path to `(i, j)` that takes, at each cell, the cheapest predecessor.
pub open spec fn best_path(a: Seq<i32>, b: Seq<i32>, i: nat, j: nat) -> Seq<(int, int)>
    decreases i + j,
{
    if i == 0 && j == 0 {
        seq![(0int, 0int)]
    } else if i == 0 {
        best_path(a, b, 0, (j - 1) as nat).push((0int, j as int))
    } else if j == 0 {
        best_path(a, b, (i - 1) as nat, 0).push((i as int, 0int))
    } else {
        let d11 = cell_cost(a, b, (i - 1) as nat, (j - 1) as nat);
        let d01 = cell_cost(a, b, i, (j - 1) as nat);
        let d10 = cell_cost(a, b, (i - 1) as nat, j);
        let prev = if d11 == min3(d11, d01, d10) {
            best_path(a, b, (i - 1) as nat, (j - 1) as nat)
        } else if d01 == min3(d11, d01, d10) {
            best_path(a, b, i, (j - 1) as nat)
        } else {
            best_path(a, b, (i - 1) as nat, j)
        };
        prev.push((i as int, j as int))
    }
}

proof fn lemma_best_path(a: Seq<i32>, b: Seq<i32>, i: nat, j: nat)
    ensures
        is_path(best_path(a, b, i, j), i as int, j as int),
        path_cost(a, b, best_path(a, b, i, j)) == cell_cost(a, b, i, j),
    decreases i + j,
{
    let p = best_path(a, b, i, j);
    if i == 0 && j == 0 {
        assert(p.drop_last() =~= Seq::<(int, int)>::empty());
        assert(path_cost(a, b, p.drop_last()) == 0);
        assert(p.last() == (0int, 0int));
    } else {
        let (pi, pj) = if i == 0 {
            (0nat, (j - 1) as nat)
        } else if j == 0 {
            ((i - 1) as nat, 0nat)
        } else {
            let d11 = cell_cost(a, b, (i - 1) as nat, (j - 1) as nat);
            let d01 = cell_cost(a, b, i, (j - 1) as nat);
            let d10 = cell_cost(a, b, (i - 1) as nat, j);
            if d11 == min3(d11, d01, d10) {
                ((i - 1) as nat, (j - 1) as nat)
            } else if d01 == min3(d11, d01, d10) {
                (i, (j - 1) as nat)
            } else {
                ((i - 1) as nat, j)
            }
        };
        lemma_best_path(a, b, pi, pj);
        let q = best_path(a, b, pi, pj);
        assert(p == q.push((i as int, j as int)));
        assert(p.drop_last() =~= q);
        assert(p.last() == (i as int, j as int));
        assert(path_cost(a, b, p) == path_cost(a, b, q) + local_cost(a, b, i as int, j as int));
        if i > 0 && j > 0 {
            let d11 = cell_cost(a, b, (i - 1) as nat, (j - 1) as nat);
            let d01 = cell_cost(a, b, i, (j - 1) as nat);
            let d10 = cell_cost(a, b, (i - 1) as nat, j);
            assert(cell_cost(a, b, pi, pj) == min3(d11, d01, d10));
        }
        assert forall|k: int| 0 <= k < p.len() - 1 implies is_step(#[trigger] p[k], p[k + 1]) by {
            if k < p.len() - 2 {
                assert(p[k] == q[k] && p[k + 1] == q[k + 1]);
            }
        }
        assert forall|k: int| 0 <= k < p.len() implies 0 <= #[trigger] p[k].0 && 0 <= p[k].1 by {
            if k < p.len() - 1 {
                assert(p[k] == q[k]);
            }
        }
    }
}

proof fn lemma_path_lower_bound(a: Seq<i32>, b: Seq<i32>, p: Seq<(int, int)>, i: int, j: int)
    requires
        is_path(p, i, j),
    ensures
        path_cost(a, b, p) >= cell_cost(a, b, i as nat, j as nat),
    decreases p.len(),
{
    assert(p[p.len() - 1].0 >= 0 && p[p.len() - 1].1 >= 0);
    if p.len() == 1 {
        assert(p.drop_last() =~= Seq::<(int, int)>::empty());
        assert(path_cost(a, b, p.drop_last()) == 0);
        assert(i == 0 && j == 0);
    } else {
        let q = p.drop_last();
        let (pi, pj) = p[p.len() - 2];
        assert(is_step(p[p.len() - 2], p[p.len() - 1]));
        assert(q[0] == p[0]);
        assert forall|k: int| 0 <= k < q.len() implies 0 <= #[trigger] q[k].0 && 0 <= q[k].1 by {
            assert(q[k] == p[k]);
        }
        assert forall|k: int| 0 <= k < q.len() - 1 implies is_step(#[trigger] q[k], q[k + 1]) by {
            assert(q[k] == p[k] && q[k + 1] == p[k + 1]);
        }
        assert(is_path(q, pi, pj));
        lemma_path_lower_bound(a, b, q, pi, pj);
        assert(path_cost(a, b, p) == path_cost(a, b, q) + local_cost(a, b, i, j));
        assert(i + j >= 1);
        if i == 0 {
            assert(pi == 0 && pj == j - 1);
        } else if j == 0 {
            assert(pj == 0 && pi == i - 1);
        } else {
            assert(cell_cost(a, b, i as nat, j as nat) == min3(
                cell_cost(a, b, (i - 1) as nat, (j - 1) as nat),
                cell_cost(a, b, i as nat, (j - 1) as nat),
                cell_cost(a, b, (i - 1) as nat, j as nat),
            ) + local_cost(a, b, i, j));
        }
    }
}

/// The alignment cost is the least total local cost of a monotone,
/// contiguous path from `(0, 0)` to `(n - 1, n - 1)`: some path costs exactly
/// `dtw(a, b)`, and none costs less.
pub proof fn lemma_dtw_is_cheapest_path(a: Seq<i32>, b: Seq<i32>)
    requires
        a.len() >= 1,
        b.len() >= 1,
    ensures
        is_path(best_path(a, b, (a.len() - 1) as nat, (b.len() - 1) as nat), a.len() - 1, b.len() - 1),
        path_cost(a, b, best_path(a, b, (a.len() - 1) as nat, (b.len() - 1) as nat)) == dtw(a, b),
        forall|p: Seq<(int, int)>| #[trigger] is_path(p, a.len() - 1, b.len() - 1) ==> path_cost(a, b, p) >= dtw(a, b),
{
    lemma_best_path(a, b, (a.len() - 1) as nat, (b.len() - 1) as nat);
    assert forall|p: Seq<(int, int)>| #[trigger] is_path(p, a.len() - 1, b.len() - 1) implies path_cost(a, b, p) >= dtw(a, b) by {
        lemma_path_lower_bound(a, b, p, a.len() - 1, b.len() - 1);
    }
}

} // verus!
