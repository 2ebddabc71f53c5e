//! The DTW engine: two interchangeable strategies that compute the
//! cumulative-cost recurrence of `cost::cell_cost`.
use vstd::prelude::*;
use crate::cost::{cell_cost, dtw, lemma_cell_bounds, lemma_local_bounds, local_cost, max_local, min3};
use crate::matrix::CostMatrix;
use crate::series::Sequence;

verus! {

/// Every cumulative cost of two sequences whose length is a `usize` fits in
/// a `u128`.
proof fn lemma_cell_fits(a: Seq<i32>, b: Seq<i32>, i: nat, j: nat)
    requires
        i < a.len(),
        j < b.len(),
        a.len() <= usize::MAX,
        b.len() <= usize::MAX,
    ensures
        0 <= cell_cost(a, b, i, j) <= u128::MAX,
{
    lemma_cell_bounds(a, b, i, j);
    let k: int = if i >= j { (i + 1) as int } else { (j + 1) as int };
    assert(usize::MAX <= 0xffff_ffff_ffff_ffffint);
    assert(k * max_local() <= 0xffff_ffff_ffff_ffffint * max_local()) by (nonlinear_arith)
        requires
            0 <= k <= 0xffff_ffff_ffff_ffffint,
            max_local() >= 0,
    ;
}

/// Squared difference between `xs[xidx]` and `ys[yidx]`.
pub fn square_dist(xs: &[i32], xidx: usize, ys: &[i32], yidx: usize) -> (r: u128)
    requires
        xidx < xs@.len(),
        yidx < ys@.len(),
    ensures
        r == local_cost(xs@, ys@, xidx as int, yidx as int),
{
    proof {
        lemma_local_bounds(xs@, ys@, xidx as int, yidx as int);
    }
    let dif: i128 = xs[xidx] as i128 - ys[yidx] as i128;
    assert(dif * dif == local_cost(xs@, ys@, xidx as int, yidx as int));
    (dif * dif) as u128
}

/// Smallest of three costs.
pub fn min3_cost(x: u128, y: u128, z: u128) -> (r: u128)
    ensures
        r == min3(x as int, y as int, z as int),
{
    if x <= y && x <= z {
        x
    } else if y <= z {
        y
    } else {
        z
    }
}

/// DTW cost computed over the full `n` by `n` matrix `m`, which the call
/// overwrites: afterwards each cell holds its cumulative cost.
pub(crate) fn fill_full_matrix(xs: &[i32], ys: &[i32], m: &mut CostMatrix) -> (r: u128)
    requires
        xs@.len() >= 1,
        xs@.len() == ys@.len(),
        old(m).wf(),
        old(m).size() == xs@.len(),
    ensures
        r == dtw(xs@, ys@),
        final(m).wf(),
        final(m).size() == old(m).size(),
        forall|i: int, j: int|
            0 <= i < xs@.len() && 0 <= j < xs@.len() ==> #[trigger] final(m).cell(i, j)
                == cell_cost(xs@, ys@, i as nat, j as nat),
{
    let dim = xs.len();
    let ghost a = xs@;
    let ghost b = ys@;
    proof {
        lemma_cell_fits(a, b, 0, 0);
    }
    let first = square_dist(xs, 0, ys, 0);
    m.set(0, 0, first);
    let mut x: usize = 1;
    while x < dim
        invariant
            1 <= x <= dim,
            dim == a.len(),
            a.len() == b.len(),
            xs@ == a,
            ys@ == b,
            m.wf(),
            m.size() == dim,
            forall|k: int| 0 <= k < x ==> #[trigger] m.cell(0, k) == cell_cost(a, b, 0, k as nat),
            forall|k: int| 0 <= k < x ==> #[trigger] m.cell(k, 0) == cell_cost(a, b, k as nat, 0),
        decreases dim - x,
    {
        proof {
            lemma_cell_fits(a, b, 0, x as nat);
            lemma_cell_fits(a, b, x as nat, 0);
        }
        let line = m.get(0, x - 1) + square_dist(xs, 0, ys, x);
        m.set(0, x, line);
        let col = m.get(x - 1, 0) + square_dist(xs, x, ys, 0);
        m.set(x, 0, col);
        x = x + 1;
    }
    let mut idx_col: usize = 1;
    while idx_col < dim
        invariant
            1 <= idx_col <= dim,
            dim == a.len(),
            a.len() == b.len(),
            xs@ == a,
            ys@ == b,
            m.wf(),
            m.size() == dim,
            forall|i: int, j: int|
                0 <= i < dim && 0 <= j < dim && (i == 0 || j < idx_col) ==> #[trigger] m.cell(i, j)
                    == cell_cost(a, b, i as nat, j as nat),
        decreases dim - idx_col,
    {
        let mut idx_line: usize = 1;
        while idx_line < dim
            invariant
                1 <= idx_col < dim,
                1 <= idx_line <= dim,
                dim == a.len(),
                a.len() == b.len(),
                xs@ == a,
                ys@ == b,
                m.wf(),
                m.size() == dim,
                forall|i: int, j: int|
                    0 <= i < dim && 0 <= j < dim && (i == 0 || j < idx_col || (j == idx_col && i
                        < idx_line)) ==> #[trigger] m.cell(i, j) == cell_cost(a, b, i as nat, j as nat),
            decreases dim - idx_line,
        {
            let d11 = m.get(idx_line - 1, idx_col - 1);
            let d01 = m.get(idx_line, idx_col - 1);
            let d10 = m.get(idx_line - 1, idx_col);
            proof {
                lemma_cell_fits(a, b, idx_line as nat, idx_col as nat);
            }
            let v = min3_cost(d11, d01, d10) + square_dist(xs, idx_line, ys, idx_col);
            m.set(idx_line, idx_col, v);
            idx_line = idx_line + 1;
        }
        idx_col = idx_col + 1;
    }
    let last = dim - 1;
    m.get(last, last)
}

/// DTW cost computed with two rows of `n` costs, the previous and the
/// current one, swapped after each row.
pub fn align_rolling_row(xs: &[i32], ys: &[i32]) -> (r: u128)
    requires
        xs@.len() >= 1,
        xs@.len() == ys@.len(),
    ensures
        r == dtw(xs@, ys@),
{
    let n = xs.len();
    let ghost a = xs@;
    let ghost b = ys@;
    let mut curr: Vec<u128> = vec![0u128; n];
    let mut prev: Vec<u128> = vec![0u128; n];
    proof {
        lemma_cell_fits(a, b, 0, 0);
    }
    curr.set(0, square_dist(xs, 0, ys, 0));
    let mut i: usize = 1;
    while i < n
        invariant
            1 <= i <= n,
            n == a.len(),
            a.len() == b.len(),
            xs@ == a,
            ys@ == b,
            curr@.len() == n,
            prev@.len() == n,
            forall|k: int| 0 <= k < i ==> #[trigger] curr@[k] == cell_cost(a, b, 0, k as nat),
        decreases n - i,
    {
        proof {
            lemma_cell_fits(a, b, 0, i as nat);
        }
        let v = curr[i - 1] + square_dist(xs, 0, ys, i);
        curr.set(i, v);
        i = i + 1;
    }
    let mut idx_line: usize = 1;
    while idx_line < n
        invariant
            1 <= idx_line <= n,
            n == a.len(),
            a.len() == b.len(),
            xs@ == a,
            ys@ == b,
            curr@.len() == n,
            prev@.len() == n,
            forall|k: int| 0 <= k < n ==> #[trigger] curr@[k] == cell_cost(a, b, (idx_line - 1) as nat, k as nat),
        decreases n - idx_line,
    {
        std::mem::swap(&mut curr, &mut prev);
        proof {
            lemma_cell_fits(a, b, idx_line as nat, 0);
        }
        let head = prev[0] + square_dist(xs, idx_line, ys, 0);
        curr.set(0, head);
        let mut idx_col: usize = 1;
        while idx_col < n
            invariant
                1 <= idx_line < n,
                1 <= idx_col <= n,
                n == a.len(),
                a.len() == b.len(),
                xs@ == a,
                ys@ == b,
                curr@.len() == n,
                prev@.len() == n,
                forall|k: int| 0 <= k < n ==> #[trigger] prev@[k] == cell_cost(a, b, (idx_line - 1) as nat, k as nat),
                forall|k: int| 0 <= k < idx_col ==> #[trigger] curr@[k] == cell_cost(a, b, idx_line as nat, k as nat),
            decreases n - idx_col,
        {
            let d11 = prev[idx_col - 1];
            let d01 = curr[idx_col - 1];
            let d10 = prev[idx_col];
            proof {
                lemma_cell_fits(a, b, idx_line as nat, idx_col as nat);
            }
            let v = min3_cost(d11, d01, d10) + square_dist(xs, idx_line, ys, idx_col);
            curr.set(idx_col, v);
            idx_col = idx_col + 1;
        }
        idx_line = idx_line + 1;
    }
    curr[n - 1]
}

/// How the engine holds its cumulative costs. Both give the same cost.
#[derive(Clone, Copy, Debug, PartialEq, Eq)]
pub enum Strategy {
    /// An `n` by `n` matrix: `O(n^2)` space.
    FullMatrix,
    /// Two rows of `n` costs: `O(n)` space.
    RollingRow,
}

/// Why two sequences could not be aligned.
#[derive(Clone, Copy, Debug, PartialEq, Eq)]
pub enum AlignError {
    /// The two sequences have different lengths.
    LengthMismatch { left: usize, right: usize },
    /// An `n` by `n` matrix of `n` samples has more cells than `usize` counts.
    MatrixTooLarge { length: usize },
    /// A cost matrix of `buffer` rows was handed in for sequences of `length`
    /// samples.
    BufferSizeMismatch { buffer: usize, length: usize },
}

/// Whether the full matrix for sequences of `n` samples has more cells than
/// `usize` can count.
pub open spec fn matrix_too_large(n: nat) -> bool {
    n * n > usize::MAX
}

/// DTW cost of `xs` and `ys` computed in the caller's matrix `m`, which may
/// be reused from call to call. Sequences of different lengths, and a matrix
/// whose size is not their length, are rejected with `m` left as it was; on
/// success each cell of `m` holds its cumulative cost.
pub fn align_full_matrix(xs: &[i32], ys: &[i32], m: &mut CostMatrix) -> (r: Result<u128, AlignError>)
    requires
        xs@.len() >= 1,
        old(m).wf(),
    ensures
        final(m).wf(),
        final(m).size() == old(m).size(),
        xs@.len() != ys@.len() <==> r == Err::<u128, AlignError>(
            AlignError::LengthMismatch { left: xs@.len() as usize, right: ys@.len() as usize },
        ),
        xs@.len() == ys@.len() ==> (r is Err <==> old(m).size() != xs@.len()),
        xs@.len() == ys@.len() && r is Err ==> r == Err::<u128, AlignError>(
            AlignError::BufferSizeMismatch { buffer: old(m).size() as usize, length: xs@.len() as usize },
        ),
        r is Err ==> *final(m) == *old(m),
        r matches Ok(c) ==> c == dtw(xs@, ys@) && forall|i: int, j: int|
            0 <= i < xs@.len() && 0 <= j < xs@.len() ==> #[trigger] final(m).cell(i, j)
                == cell_cost(xs@, ys@, i as nat, j as nat),
{
    if xs.len() != ys.len() {
        return Err(AlignError::LengthMismatch { left: xs.len(), right: ys.len() });
    }
    let dim = m.dim();
    if dim != xs.len() {
        return Err(AlignError::BufferSizeMismatch { buffer: dim, length: xs.len() });
    }
    Ok(fill_full_matrix(xs, ys, m))
}

/// The DTW cost of aligning `a` with `b`, the same whichever `strategy`
/// computes it. Sequences of different lengths are rejected.
pub fn align(a: &Sequence, b: &Sequence, strategy: Strategy) -> (r: Result<u128, AlignError>)
    ensures
        a@.len() != b@.len() <==> r == Err::<u128, AlignError>(
            AlignError::LengthMismatch { left: a@.len() as usize, right: b@.len() as usize },
        ),
        a@.len() == b@.len() ==> (r is Err <==> strategy == Strategy::FullMatrix
            && matrix_too_large(a@.len())),
        a@.len() == b@.len() && r is Err ==> r == Err::<u128, AlignError>(
            AlignError::MatrixTooLarge { length: a@.len() as usize },
        ),
        r matches Ok(c) ==> c == dtw(a@, b@),
{
    let left = a.length();
    let right = b.length();
    if left != right {
        return Err(AlignError::LengthMismatch { left, right });
    }
    proof {
        crate::cost::lemma_dtw_nonnegative(a@, b@);
    }
    match strategy {
        Strategy::RollingRow => Ok(align_rolling_row(a.samples(), b.samples())),
        Strategy::FullMatrix => match CostMatrix::new(left) {
            None => Err(AlignError::MatrixTooLarge { length: left }),
            Some(m) => {
                let mut m = m;
                Ok(fill_full_matrix(a.samples(), b.samples(), &mut m))
            },
        },
    }
}

} // verus!
