//! The mathematical model of a DTW alignment: local cost, the cumulative
//! cost recurrence, and the laws that hold of it.
use vstd::prelude::*;

verus! {

/// Largest local cost between two `i32` samples: `(2^32 - 1)^2`.
pub open spec fn max_local() -> int {
    0xffff_fffe_0000_0001int
}

/// Squared difference between sample `i` of `a` and sample `j` of `b`.
pub open spec fn local_cost(a: Seq<i32>, b: Seq<i32>, i: int, j: int) -> int {
    (a[i] - b[j]) * (a[i] - b[j])
}

/// Smallest of three values.
pub open spec fn min3(x: int, y: int, z: int) -> int {
    if x <= y && x <= z {
        x
    } else if y <= z {
        y
    } else {
        z
    }
}

/// Cumulative cost of the cheapest monotone, contiguous path from cell
/// `(0, 0)` to cell `(i, j)` of the alignment grid.
pub open spec fn cell_cost(a: Seq<i32>, b: Seq<i32>, i: nat, j: nat) -> int
    decreases i + j,
{
    if i == 0 && j == 0 {
        local_cost(a, b, 0, 0)
    } else if i == 0 {
        cell_cost(a, b, 0, (j - 1) as nat) + local_cost(a, b, 0, j as int)
    } else if j == 0 {
        cell_cost(a, b, (i - 1) as nat, 0) + local_cost(a, b, i as int, 0)
    } else {
        min3(
            cell_cost(a, b, (i - 1) as nat, (j - 1) as nat),
            cell_cost(a, b, i, (j - 1) as nat),
            cell_cost(a, b, (i - 1) as nat, j),
        ) + local_cost(a, b, i as int, j as int)
    }
}

/// The DTW alignment cost of two non-empty sequences of equal length: the
/// cumulative cost of the last cell of the grid (no square root taken).
pub open spec fn dtw(a: Seq<i32>, b: Seq<i32>) -> int {
    cell_cost(a, b, (a.len() - 1) as nat, (b.len() - 1) as nat)
}

pub proof fn lemma_local_bounds(a: Seq<i32>, b: Seq<i32>, i: int, j: int)
    requires
        0 <= i < a.len(),
        0 <= j < b.len(),
    ensures
        0 <= local_cost(a, b, i, j) <= max_local(),
{
    let d = a[i] - b[j];
    assert(-0xffff_ffffint <= d <= 0xffff_ffffint);
    assert(0 <= d * d <= 0xffff_ffffint * 0xffff_ffffint) by (nonlinear_arith)
        requires
            -0xffff_ffffint <= d <= 0xffff_ffffint,
    ;
}

/// Every cumulative cost is non-negative, and bounded by the cost of a path
/// of `max(i, j) + 1` cells each at the largest local cost.
pub proof fn lemma_cell_bounds(a: Seq<i32>, b: Seq<i32>, i: nat, j: nat)
    requires
        i < a.len(),
        j < b.len(),
    ensures
        0 <= cell_cost(a, b, i, j),
        cell_cost(a, b, i, j) <= (if i >= j { i + 1 } else { j + 1 }) * max_local(),
    decreases i + j,
{
    lemma_local_bounds(a, b, i as int, j as int);
    if i == 0 && j == 0 {
    } else if i == 0 {
        lemma_cell_bounds(a, b, 0, (j - 1) as nat);
        assert((j as int) * max_local() + max_local() == (j + 1) * max_local()) by (nonlinear_arith);
    } else if j == 0 {
        lemma_cell_bounds(a, b, (i - 1) as nat, 0);
        assert((i as int) * max_local() + max_local() == (i + 1) * max_local()) by (nonlinear_arith);
    } else {
        lemma_cell_bounds(a, b, (i - 1) as nat, (j - 1) as nat);
        lemma_cell_bounds(a, b, i, (j - 1) as nat);
        lemma_cell_bounds(a, b, (i - 1) as nat, j);
        let m: int = if i >= j { i as int } else { j as int };
        assert(m * max_local() + max_local() == (m + 1) * max_local()) by (nonlinear_arith);
        assert((if i - 1 >= j - 1 { i - 1 + 1 } else { j - 1 + 1 }) == m);
    }
}

/// The alignment cost is never negative.
pub proof fn lemma_dtw_nonnegative(a: Seq<i32>, b: Seq<i32>)
    requires
        a.len() >= 1,
        b.len() >= 1,
    ensures
        dtw(a, b) >= 0,
{
    lemma_cell_bounds(a, b, (a.len() - 1) as nat, (b.len() - 1) as nat);
}

proof fn lemma_diagonal_zero(a: Seq<i32>, i: nat)
    requires
        i < a.len(),
    ensures
        cell_cost(a, a, i, i) == 0,
    decreases i,
{
    if i > 0 {
        lemma_diagonal_zero(a, (i - 1) as nat);
        lemma_cell_bounds(a, a, i, (i - 1) as nat);
        lemma_cell_bounds(a, a, (i - 1) as nat, i);
    }
}

/// A sequence aligned with itself costs nothing.
pub proof fn lemma_dtw_self_zero(a: Seq<i32>)
    requires
        a.len() >= 1,
    ensures
        dtw(a, a) == 0,
{
    lemma_diagonal_zero(a, (a.len() - 1) as nat);
}

proof fn lemma_cell_symmetric(a: Seq<i32>, b: Seq<i32>, i: nat, j: nat)
    ensures
        cell_cost(a, b, i, j) == cell_cost(b, a, j, i),
    decreases i + j,
{
    assert(local_cost(a, b, i as int, j as int) == local_cost(b, a, j as int, i as int)) by (nonlinear_arith);
    if i == 0 && j == 0 {
    } else if i == 0 {
        lemma_cell_symmetric(a, b, 0, (j - 1) as nat);
    } else if j == 0 {
        lemma_cell_symmetric(a, b, (i - 1) as nat, 0);
    } else {
        lemma_cell_symmetric(a, b, (i - 1) as nat, (j - 1) as nat);
        lemma_cell_symmetric(a, b, i, (j - 1) as nat);
        lemma_cell_symmetric(a, b, (i - 1) as nat, j);
    }
}

/// Swapping the two sequences leaves the alignment cost unchanged.
pub proof fn lemma_dtw_symmetric(a: Seq<i32>, b: Seq<i32>)
    ensures
        dtw(a, b) == dtw(b, a),
{
    lemma_cell_symmetric(a, b, (a.len() - 1) as nat, (b.len() - 1) as nat);
}

} // verus!
