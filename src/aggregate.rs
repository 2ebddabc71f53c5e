//! The pairwise aggregator: the sum of the DTW costs of every unordered pair
//! of a dataset, self-pairs included.
use vstd::prelude::*;
use crate::cost::{dtw, lemma_dtw_nonnegative, lemma_dtw_self_zero};
use crate::engine::{align_rolling_row, fill_full_matrix, matrix_too_large, Strategy};
use crate::matrix::CostMatrix;
use crate::series::Sequence;

verus! {

/// Why a dataset's total cost could not be computed.
#[derive(Clone, Copy, Debug, PartialEq, Eq)]
pub enum TotalError {
    /// Sequences `first` and `second` have different lengths.
    LengthMismatch { first: usize, second: usize },
    /// The full matrix for sequences of `length` samples has more cells than
    /// `usize` counts.
    MatrixTooLarge { length: usize },
    /// The total exceeds `u128::MAX`.
    Overflow,
}

/// The samples of each sequence of a dataset.
pub open spec fn samples_of(ds: Seq<Sequence>) -> Seq<Seq<i32>> {
    ds.map_values(|s: Sequence| s@)
}

/// Sum of `dtw(ds[i], ds[k])` for `k` from `i` up to `j - 1`.
pub open spec fn row_total(ds: Seq<Seq<i32>>, i: int, j: int) -> int
    decreases j - i,
{
    if j <= i {
        0
    } else {
        row_total(ds, i, j - 1) + dtw(ds[i], ds[j - 1])
    }
}

/// Sum of the costs of the pairs `(i, j)`, `i <= j`, whose first index is
/// below `k`.
pub open spec fn pairs_total(ds: Seq<Seq<i32>>, k: int) -> int
    decreases k,
{
    if k <= 0 {
        0
    } else {
        pairs_total(ds, k - 1) + row_total(ds, k - 1, ds.len() as int)
    }
}

/// Sum of `dtw(ds[i], ds[j])` over all `0 <= i <= j < ds.len()`.
pub open spec fn total(ds: Seq<Seq<i32>>) -> int {
    pairs_total(ds, ds.len() as int)
}

/// All sequences of the dataset have the length of the first one.
pub open spec fn uniform(ds: Seq<Seq<i32>>) -> bool {
    forall|k: int| 0 <= k < ds.len() ==> #[trigger] ds[k].len() == ds[0].len()
}

/// Every sequence of the dataset is non-empty.
pub open spec fn all_nonempty(ds: Seq<Seq<i32>>) -> bool {
    forall|k: int| 0 <= k < ds.len() ==> #[trigger] ds[k].len() >= 1
}

proof fn lemma_row_total_nonnegative(ds: Seq<Seq<i32>>, i: int, j: int)
    requires
        0 <= i < ds.len(),
        j <= ds.len(),
        uniform(ds),
        all_nonempty(ds),
    ensures
        0 <= row_total(ds, i, j),
    decreases j - i,
{
    if j > i {
        lemma_row_total_nonnegative(ds, i, j - 1);
        lemma_dtw_nonnegative(ds[i], ds[j - 1]);
    }
}

proof fn lemma_pairs_total_nonnegative(ds: Seq<Seq<i32>>, k: int)
    requires
        k <= ds.len(),
        uniform(ds),
        all_nonempty(ds),
    ensures
        0 <= pairs_total(ds, k),
    decreases k,
{
    if k > 0 {
        lemma_pairs_total_nonnegative(ds, k - 1);
        lemma_row_total_nonnegative(ds, k - 1, ds.len() as int);
    }
}

proof fn lemma_row_total_monotone(ds: Seq<Seq<i32>>, i: int, j: int, k: int)
    requires
        0 <= i < ds.len(),
        i <= j <= k <= ds.len(),
        uniform(ds),
        all_nonempty(ds),
    ensures
        0 <= row_total(ds, i, j) <= row_total(ds, i, k),
    decreases k - j,
{
    if j < k {
        lemma_row_total_monotone(ds, i, j, k - 1);
        lemma_dtw_nonnegative(ds[i], ds[k - 1]);
    } else {
        lemma_row_total_nonnegative(ds, i, j);
    }
}

proof fn lemma_pairs_total_monotone(ds: Seq<Seq<i32>>, j: int, k: int)
    requires
        0 <= j <= k <= ds.len(),
        uniform(ds),
        all_nonempty(ds),
    ensures
        0 <= pairs_total(ds, j) <= pairs_total(ds, k),
    decreases k - j,
{
    if j < k {
        lemma_pairs_total_monotone(ds, j, k - 1);
        lemma_row_total_monotone(ds, k - 1, k - 1, ds.len() as int);
    } else {
        lemma_pairs_total_nonnegative(ds, j);
    }
}

/// The running total after the pairs before `(i, j)` never exceeds the
/// total of the whole dataset.
proof fn lemma_partial_le_total(ds: Seq<Seq<i32>>, i: int, j: int)
    requires
        0 <= i < ds.len(),
        i <= j <= ds.len(),
        uniform(ds),
        all_nonempty(ds),
    ensures
        0 <= pairs_total(ds, i) + row_total(ds, i, j) <= total(ds),
{
    lemma_row_total_monotone(ds, i, j, ds.len() as int);
    lemma_pairs_total_monotone(ds, i, i + 1);
    lemma_pairs_total_monotone(ds, i + 1, ds.len() as int);
}

proof fn lemma_row_total_of_copies(ds: Seq<Seq<i32>>, i: int, j: int)
    requires
        0 <= i < ds.len(),
        j <= ds.len(),
        ds[0].len() >= 1,
        forall|k: int| 0 <= k < ds.len() ==> #[trigger] ds[k] == ds[0],
    ensures
        row_total(ds, i, j) == 0,
    decreases j - i,
{
    if j > i {
        lemma_row_total_of_copies(ds, i, j - 1);
        assert(ds[j - 1] == ds[0] && ds[i] == ds[0]);
        lemma_dtw_self_zero(ds[0]);
    }
}

/// In a dataset of copies of one sequence, of any size, every pair,
/// self-pairs included, contributes exactly zero, so the total is zero.
pub proof fn lemma_total_of_copies(ds: Seq<Seq<i32>>)
    requires
        ds.len() >= 1,
        ds[0].len() >= 1,
        forall|k: int| 0 <= k < ds.len() ==> #[trigger] ds[k] == ds[0],
    ensures
        forall|i: int| 0 <= i < ds.len() ==> dtw(#[trigger] ds[i], ds[i]) == 0,
        total(ds) == 0,
{
    assert forall|i: int| 0 <= i < ds.len() implies dtw(#[trigger] ds[i], ds[i]) == 0 by {
        assert(ds[i] == ds[0]);
        lemma_dtw_self_zero(ds[0]);
    }
    lemma_pairs_total_of_copies(ds, ds.len() as int);
}

proof fn lemma_pairs_total_of_copies(ds: Seq<Seq<i32>>, k: int)
    requires
        k <= ds.len(),
        ds.len() >= 1,
        ds[0].len() >= 1,
        forall|m: int| 0 <= m < ds.len() ==> #[trigger] ds[m] == ds[0],
    ensures
        pairs_total(ds, k) == 0,
    decreases k,
{
    if k > 0 {
        lemma_pairs_total_of_copies(ds, k - 1);
        lemma_row_total_of_copies(ds, k - 1, ds.len() as int);
    }
}

/// The first index whose sequence's length differs from the first
/// sequence's, or `ds.len()` on a dataset of uniform length.
fn first_mismatch(dataset: &[Sequence]) -> (r: usize)
    ensures
        r <= dataset@.len(),
        forall|k: int| 0 <= k < r ==> #[trigger] dataset@[k]@.len() == dataset@[0]@.len(),
        forall|k: int| 0 <= k < r ==> #[trigger] dataset@[k]@.len() >= 1,
        r < dataset@.len() ==> dataset@[r as int]@.len() != dataset@[0]@.len(),
{
    let mut k: usize = 0;
    while k < dataset.len()
        invariant
            k <= dataset@.len(),
            forall|m: int| 0 <= m < k ==> #[trigger] dataset@[m]@.len() == dataset@[0]@.len(),
            forall|m: int| 0 <= m < k ==> #[trigger] dataset@[m]@.len() >= 1,
        decreases dataset@.len() - k,
    {
        if dataset[k].length() != dataset[0].length() {
            return k;
        }
        k = k + 1;
    }
    k
}

/// Sum of the DTW costs of every pair `(i, j)` with `i <= j`, in the order
/// of `i`, then `j`. A dataset whose sequences differ in length is rejected
/// with the first such pair, which is `(0, j)` for the first `j` whose
/// length differs from that of sequence `0`.
pub fn total_cost(dataset: &[Sequence], strategy: Strategy) -> (r: Result<u128, TotalError>)
    ensures
        !uniform(samples_of(dataset@)) <==> r is Err && r->Err_0 is LengthMismatch,
        r matches Err(TotalError::LengthMismatch { first, second }) ==> {
            &&& first == 0
            &&& second < dataset@.len()
            &&& dataset@[second as int]@.len() != dataset@[0]@.len()
            &&& forall|k: int| 0 <= k < second ==> #[trigger] dataset@[k]@.len() == dataset@[0]@.len()
        },
        uniform(samples_of(dataset@)) ==> (r is Err && r->Err_0 is MatrixTooLarge
            <==> dataset@.len() >= 1 && strategy == Strategy::FullMatrix && matrix_too_large(
            dataset@[0]@.len(),
        )),
        r matches Err(TotalError::MatrixTooLarge { length }) ==> length == dataset@[0]@.len(),
        uniform(samples_of(dataset@)) && !(dataset@.len() >= 1 && strategy == Strategy::FullMatrix
            && matrix_too_large(dataset@[0]@.len())) ==> (r == Err::<u128, TotalError>(
            TotalError::Overflow,
        ) <==> total(samples_of(dataset@)) > u128::MAX),
        r matches Ok(t) ==> t == total(samples_of(dataset@)),
{
    let ghost ds = samples_of(dataset@);
    let bad = first_mismatch(dataset);
    if bad < dataset.len() {
        assert(ds[bad as int].len() != ds[0].len());
        return Err(TotalError::LengthMismatch { first: 0, second: bad });
    }
    assert(uniform(ds));
    assert(all_nonempty(ds));
    let count = dataset.len();
    if count == 0 {
        return Ok(0);
    }
    let n = dataset[0].length();
    let mut buffer = match strategy {
        Strategy::RollingRow => None,
        Strategy::FullMatrix => match CostMatrix::new(n) {
            None => {
                return Err(TotalError::MatrixTooLarge { length: n });
            },
            Some(m) => Some(m),
        },
    };
    let mut acc: u128 = 0;
    let mut i: usize = 0;
    while i < count
        invariant
            count == dataset@.len(),
            ds == samples_of(dataset@),
            uniform(ds),
            all_nonempty(ds),
            n == ds[0].len(),
            i <= count,
            acc == pairs_total(ds, i as int),
            buffer matches Some(m) ==> m.wf() && m.size() == n,
            strategy == Strategy::FullMatrix ==> !matrix_too_large(n as nat),
        decreases count - i,
    {
        let mut j: usize = i;
        while j < count
            invariant
                count == dataset@.len(),
                ds == samples_of(dataset@),
                uniform(ds),
                all_nonempty(ds),
                n == ds[0].len(),
                i < count,
                i <= j <= count,
                acc == pairs_total(ds, i as int) + row_total(ds, i as int, j as int),
                buffer matches Some(m) ==> m.wf() && m.size() == n,
                strategy == Strategy::FullMatrix ==> !matrix_too_large(n as nat),
            decreases count - j,
        {
            let xs = dataset[i].samples();
            let ys = dataset[j].samples();
            assert(xs@ == ds[i as int] && ys@ == ds[j as int]);
            let c = match &mut buffer {
                None => align_rolling_row(xs, ys),
                Some(m) => fill_full_matrix(xs, ys, m),
            };
            proof {
                lemma_partial_le_total(ds, i as int, j as int + 1);
            }
            match acc.checked_add(c) {
                None => {
                    return Err(TotalError::Overflow);
                },
                Some(s) => {
                    acc = s;
                },
            }
            j = j + 1;
        }
        i = i + 1;
    }
    Ok(acc)
}

} // verus!
