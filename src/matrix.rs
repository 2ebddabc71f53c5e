//! A square grid of cumulative costs stored row-major in one flat buffer,
//! reached only through bounds-checked accessors.
use vstd::prelude::*;

verus! {

pub struct CostMatrix {
    dim: usize,
    cells: Vec<u128>,
}

proof fn lemma_flat_index(dim: int, i: int, j: int)
    requires
        0 <= i < dim,
        0 <= j < dim,
    ensures
        0 <= i * dim + j < dim * dim,
{
    assert(0 <= i * dim + j < dim * dim) by (nonlinear_arith)
        requires
            0 <= i < dim,
            0 <= j < dim,
    ;
}

proof fn lemma_flat_index_distinct(dim: int, i: int, j: int, r: int, c: int)
    requires
        0 <= i < dim,
        0 <= j < dim,
        0 <= r < dim,
        0 <= c < dim,
        !(i == r && j == c),
    ensures
        i * dim + j != r * dim + c,
{
    if i == r {
    } else if i < r {
        assert(i * dim + j < r * dim + c) by (nonlinear_arith)
            requires
                i < r,
                0 <= j < dim,
                0 <= c,
        ;
    } else {
        assert(r * dim + c < i * dim + j) by (nonlinear_arith)
            requires
                r < i,
                0 <= c < dim,
                0 <= j,
        ;
    }
}

impl CostMatrix {
    /// The buffer holds exactly `size() * size()` cells.
    pub closed spec fn wf(&self) -> bool {
        self.cells@.len() == self.dim * self.dim && self.dim * self.dim <= usize::MAX
    }

    /// Number of rows, which is also the number of columns.
    pub closed spec fn size(&self) -> nat {
        self.dim as nat
    }

    /// The value held in row `i`, column `j`.
    pub closed spec fn cell(&self, i: int, j: int) -> u128 {
        self.cells@[i * self.dim + j]
    }

    /// A `dim` by `dim` matrix of zeros; `None` when `dim * dim` does not fit
    /// in `usize`.
    pub fn new(dim: usize) -> (r: Option<CostMatrix>)
        ensures
            r is None <==> dim * dim > usize::MAX,
            r matches Some(m) ==> m.wf() && m.size() == dim && forall|i: int, j: int|
                0 <= i < dim && 0 <= j < dim ==> #[trigger] m.cell(i, j) == 0,
    {
        match dim.checked_mul(dim) {
            None => None,
            Some(total) => {
                let cells: Vec<u128> = vec![0u128; total];
                let m = CostMatrix { dim, cells };
                proof {
                    assert forall|i: int, j: int| 0 <= i < dim && 0 <= j < dim implies #[trigger] m.cell(i, j) == 0 by {
                        lemma_flat_index(dim as int, i, j);
                    }
                }
                Some(m)
            },
        }
    }

    pub fn dim(&self) -> (r: usize)
        ensures
            r == self.size(),
    {
        self.dim
    }

    /// The value in row `i`, column `j`.
    pub fn get(&self, i: usize, j: usize) -> (r: u128)
        requires
            self.wf(),
            i < self.size(),
            j < self.size(),
        ensures
            r == self.cell(i as int, j as int),
    {
        proof {
            lemma_flat_index(self.dim as int, i as int, j as int);
        }
        self.cells[i * self.dim + j]
    }

    /// Writes `v` in row `i`, column `j`, leaving every other cell as it was.
    pub fn set(&mut self, i: usize, j: usize, v: u128)
        requires
            old(self).wf(),
            i < old(self).size(),
            j < old(self).size(),
        ensures
            final(self).wf(),
            final(self).size() == old(self).size(),
            forall|r: int, c: int|
                0 <= r < old(self).size() && 0 <= c < old(self).size() ==> #[trigger] final(self).cell(r, c)
                    == if r == i && c == j {
                    v
                } else {
                    old(self).cell(r, c)
                },
    {
        proof {
            lemma_flat_index(self.dim as int, i as int, j as int);
        }
        let k = i * self.dim + j;
        self.cells.set(k, v);
        proof {
            assert forall|r: int, c: int|
                0 <= r < old(self).size() && 0 <= c < old(self).size() && !(r == i && c == j)
                implies #[trigger] self.cell(r, c) == old(self).cell(r, c) by {
                lemma_flat_index(self.dim as int, r, c);
                lemma_flat_index_distinct(self.dim as int, i as int, j as int, r, c);
            }
        }
    }
}

} // verus!
