//! The form in which an alignment cost is reported: the accumulated squared
//! differences as they are, or their integer square root.
use vstd::prelude::*;
use crate::cost::dtw;
use crate::engine::{align, AlignError, Strategy};
use crate::series::Sequence;

verus! {

/// Which form of the alignment cost a caller asks for.
#[derive(Clone, Copy, Debug, PartialEq, Eq)]
pub enum Metric {
    /// The accumulated sum of squared differences (the engine's own result).
    Squared,
    /// The largest integer whose square does not exceed that sum.
    Rooted,
}

/// `r` is the integer square root of `c`, rounded down.
pub open spec fn is_floor_sqrt(c: int, r: int) -> bool {
    0 <= r && r * r <= c < (r + 1) * (r + 1)
}

/// The reported value of an alignment cost `c` under `metric`.
pub open spec fn reported(c: int, metric: Metric, r: int) -> bool {
    match metric {
        Metric::Squared => r == c,
        Metric::Rooted => is_floor_sqrt(c, r),
    }
}

/// The integer square root of `c`, rounded down.
pub fn floor_sqrt(c: u128) -> (r: u128)
    ensures
        is_floor_sqrt(c as int, r as int),
{
    let mut lo: u128 = 0;
    let mut hi: u128 = 0x1_0000_0000_0000_0000;
    assert(hi * hi == 0x1_0000_0000_0000_0000_0000_0000_0000_0000int) by (nonlinear_arith)
        requires
            hi == 0x1_0000_0000_0000_0000int,
    ;
    while hi - lo > 1
        invariant
            lo < hi <= 0x1_0000_0000_0000_0000int,
            lo * lo <= c,
            c < hi * hi,
        decreases hi - lo,
    {
        let mid = lo + (hi - lo) / 2;
        assert(mid * mid < 0x1_0000_0000_0000_0000_0000_0000_0000_0000int) by (nonlinear_arith)
            requires
                0 <= mid < 0x1_0000_0000_0000_0000int,
        ;
        if mid * mid <= c {
            lo = mid;
        } else {
            hi = mid;
        }
    }
    assert(hi == lo + 1);
    lo
}

/// `cost` in the form `metric` asks for.
pub fn apply_metric(cost: u128, metric: Metric) -> (r: u128)
    ensures
        reported(cost as int, metric, r as int),
{
    match metric {
        Metric::Squared => cost,
        Metric::Rooted => floor_sqrt(cost),
    }
}

/// The DTW cost of `a` and `b` in the form `metric` asks for; it fails as
/// `align` does.
pub fn align_with_metric(a: &Sequence, b: &Sequence, strategy: Strategy, metric: Metric) -> (r:
    Result<u128, AlignError>)
    ensures
        a@.len() != b@.len() <==> r == Err::<u128, AlignError>(
            AlignError::LengthMismatch { left: a@.len() as usize, right: b@.len() as usize },
        ),
        a@.len() == b@.len() ==> (r is Err <==> strategy == Strategy::FullMatrix
            && crate::engine::matrix_too_large(a@.len())),
        a@.len() == b@.len() && r is Err ==> r == Err::<u128, AlignError>(
            AlignError::MatrixTooLarge { length: a@.len() as usize },
        ),
        r matches Ok(v) ==> reported(dtw(a@, b@), metric, v as int),
{
    match align(a, b, strategy) {
        Err(e) => Err(e),
        Ok(c) => Ok(apply_metric(c, metric)),
    }
}

} // verus!
