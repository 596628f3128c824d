//! A rectangular matrix of scalars over a flat, row-major buffer.
//!
//! The buffer may be wider than the matrix: `stride` is the number of buffer
//! elements one logical row spans, so a matrix can be a copy of a narrow
//! window of a wider record (such as the input columns of a combined
//! input/output training row).

use vstd::prelude::*;
use vstd::arithmetic::mul::lemma_mul_inequality;
use crate::scalar::Scalar;
use crate::scalar::F_ZERO;
use crate::scalar::F_ONE;
use crate::scalar::add_bits;
use crate::scalar::mul_bits;
use crate::scalar::scalar_add;
use crate::scalar::scalar_mul;

verus! {

/// The single-precision dot product of row `i` of `a` and column `j` of `b`
/// over the first `k` terms, accumulated left to right from zero:
/// `(..((0 + a[i][0]*b[0][j]) + a[i][1]*b[1][j]) .. + a[i][k-1]*b[k-1][j])`,
/// each step rounded as single-precision arithmetic rounds it.
pub open spec fn dot_bits(a: Seq<Seq<u32>>, b: Seq<Seq<u32>>, i: int, j: int, k: nat) -> u32
    decreases k,
{
    if k == 0 {
        F_ZERO
    } else {
        add_bits(
            dot_bits(a, b, i, j, (k - 1) as nat),
            mul_bits(a[i][k - 1], b[k - 1][j]),
        )
    }
}

/// One random draw `u`, mapped onto `[min, max)`: the top 24 bits of the
/// draw are spread over the unit grid and then scaled,
/// `min + (u >> 8) * 2^-24 * (max - min)`, each step rounded as
/// single-precision arithmetic rounds it.
pub open spec fn uniform_mix_bits(min: u32, max: u32, u: u32) -> u32 {
    add_bits(
        min,
        mul_bits(
            mul_bits(crate::scalar::from_uint_bits((u >> 8) as u64), crate::scalar::F_TWO_POW_NEG_24),
            crate::scalar::sub_bits(max, min),
        ),
    )
}

/// `v` came from some draw mapped onto `[min, max)`.
pub open spec fn is_uniform_mix(min: u32, max: u32, v: u32) -> bool {
    exists|u: u32| v == uniform_mix_bits(min, max, u)
}

/// A row staged into row 0 of a matrix, as `copy_row_from` leaves it, reads
/// back — via `get_row`'s contract — as exactly the source row: the copy and
/// read round-trip loses nothing.
pub proof fn lemma_row_round_trip(m: NNMatrix, d: NNMatrix, row: int)
    requires
        m.spec_cols() == d.spec_cols(),
        m.spec_rows() >= 1,
        0 <= row < d.spec_rows(),
        forall|c: int| 0 <= c < m.spec_cols() ==> #[trigger] m.at(0, c) == d.at(row, c),
    ensures
        m.mseq()[0] == d.mseq()[row],
{
    assert(m.mseq()[0] =~= d.mseq()[row]);
}

pub struct NNMatrix {
    data_frame: Vec<Scalar>,
    rows: usize,
    cols: usize,
    stride: usize,
}

/// Row and column counts are machine words: non-negative and bounded.
pub broadcast proof fn lemma_mat_dims(m: NNMatrix)
    ensures
        0 <= #[trigger] m.spec_rows() <= usize::MAX,
        0 <= #[trigger] m.spec_cols() <= usize::MAX,
{
}

impl NNMatrix {
    /// Every cell's backing index lies inside the buffer.
    pub closed spec fn wf(self) -> bool {
        &&& self.cols <= self.stride
        &&& self.rows * self.stride <= self.data_frame@.len()
    }

    pub closed spec fn spec_rows(self) -> int {
        self.rows as int
    }

    pub closed spec fn spec_cols(self) -> int {
        self.cols as int
    }

    /// The scalar at row `r`, column `c`.
    pub closed spec fn at(self, r: int, c: int) -> u32 {
        self.data_frame@[r * self.stride + c]
    }

    /// The matrix's contents as a sequence of rows.
    pub open spec fn mseq(self) -> Seq<Seq<u32>> {
        Seq::new(self.spec_rows() as nat, |r: int| Seq::new(self.spec_cols() as nat, |c: int| self.at(r, c)))
    }


    /// The backing index of a cell in bounds lies strictly inside the buffer.
    proof fn lemma_flat_in_bounds(self, r: int, c: int)
        requires
            self.wf(),
            0 <= r < self.spec_rows(),
            0 <= c < self.spec_cols(),
        ensures
            0 <= r * self.stride + c < self.data_frame@.len(),
            r * self.stride + c < self.rows * self.stride,
            self.data_frame@.len() <= usize::MAX,
    {
        broadcast use vstd::std_specs::vec::axiom_spec_len;

        assert(vstd::std_specs::vec::spec_vec_len(&self.data_frame) <= usize::MAX);
        let s = self.stride as int;
        lemma_mul_inequality(r + 1, self.rows as int, s);
        assert((r + 1) * s == r * s + s) by (nonlinear_arith);
        assert(r * s >= 0) by (nonlinear_arith)
            requires r >= 0 && s >= 0;
    }

    /// Distinct cells have distinct backing indices.
    proof fn lemma_flat_injective(self, r1: int, c1: int, r2: int, c2: int)
        requires
            self.wf(),
            0 <= r1 < self.spec_rows(),
            0 <= c1 < self.spec_cols(),
            0 <= r2 < self.spec_rows(),
            0 <= c2 < self.spec_cols(),
            !(r1 == r2 && c1 == c2),
        ensures
            r1 * self.stride + c1 != r2 * self.stride + c2,
    {
        let s = self.stride as int;
        if r1 == r2 {
        } else if r1 < r2 {
            lemma_mul_inequality(r1 + 1, r2, s);
            assert((r1 + 1) * s == r1 * s + s) by (nonlinear_arith);
        } else {
            lemma_mul_inequality(r2 + 1, r1, s);
            assert((r2 + 1) * s == r2 * s + s) by (nonlinear_arith);
        }
    }

    /// The number of rows.
    pub fn rows(&self) -> (r: usize)
        ensures
            r as int == self.spec_rows(),
    {
        self.rows
    }

    /// The number of columns.
    pub fn cols(&self) -> (c: usize)
        ensures
            c as int == self.spec_cols(),
    {
        self.cols
    }

    /// A matrix of `rows` by `cols` cells over a fresh zero-filled buffer.
    pub fn empty(rows: usize, cols: usize) -> (m: NNMatrix)
        requires
            rows * cols <= usize::MAX,
        ensures
            m.wf(),
            m.spec_rows() == rows,
            m.spec_cols() == cols,
            forall|r: int, c: int| 0 <= r < rows && 0 <= c < cols ==> m.at(r, c) == F_ZERO,
    {
        let n = rows * cols;
        let data_frame: Vec<u32> = vec![F_ZERO; n];
        let m = NNMatrix { data_frame, rows, cols, stride: cols };
        proof {
            assert forall|r: int, c: int| 0 <= r < rows && 0 <= c < cols implies m.at(r, c) == F_ZERO by {
                m.lemma_flat_in_bounds(r, c);
            }
        }
        m
    }

    /// A matrix viewing a copy of an existing contiguous buffer, `stride`
    /// elements per row.
    pub fn new(df: Option<&[Scalar]>, rows: usize, cols: usize, stride: usize) -> (m: NNMatrix)
        requires
            match df {
                Some(d) => cols <= stride && rows * stride <= d@.len(),
                None => stride == cols && rows * cols <= usize::MAX,
            },
        ensures
            m.wf(),
            m.spec_rows() == rows,
            m.spec_cols() == cols,
            match df {
                Some(d) => forall|r: int, c: int|
                    0 <= r < rows && 0 <= c < cols ==> m.at(r, c) == d@[r * (stride as int) + c],
                None => forall|r: int, c: int|
                    0 <= r < rows && 0 <= c < cols ==> m.at(r, c) == F_ZERO,
            },
    {
        match df {
            Some(d) => {
                let data_frame = vstd::slice::slice_to_vec(d);
                let m = NNMatrix { data_frame, rows, cols, stride };
                proof {
                    assert forall|r: int, c: int| 0 <= r < rows && 0 <= c < cols implies
                        m.at(r, c) == d@[r * (stride as int) + c] by {
                        m.lemma_flat_in_bounds(r, c);
                    }
                }
                m
            }
            None => NNMatrix::empty(rows, cols),
        }
    }

    /// The scalar at (`row`, `col`).
    pub fn get_at(&self, row: usize, col: usize) -> (r: Scalar)
        requires
            self.wf(),
            row < self.spec_rows(),
            col < self.spec_cols(),
        ensures
            r == self.at(row as int, col as int),
    {
        proof {
            self.lemma_flat_in_bounds(row as int, col as int);
        }
        self.data_frame[row * self.stride + col]
    }

    /// Overwrite the scalar at (`row`, `col`); every other cell keeps its
    /// value.
    pub fn set_at(&mut self, row: usize, col: usize, value: Scalar)
        requires
            old(self).wf(),
            row < old(self).spec_rows(),
            col < old(self).spec_cols(),
        ensures
            final(self).wf(),
            final(self).spec_rows() == old(self).spec_rows(),
            final(self).spec_cols() == old(self).spec_cols(),
            final(self).at(row as int, col as int) == value,
            forall|r: int, c: int|
                0 <= r < old(self).spec_rows() && 0 <= c < old(self).spec_cols()
                    && !(r == row && c == col)
                    ==> final(self).at(r, c) == old(self).at(r, c),
    {
        proof {
            self.lemma_flat_in_bounds(row as int, col as int);
        }
        let k = row * self.stride + col;
        self.data_frame[k] = value;
        proof {
            assert forall|r: int, c: int|
                0 <= r < self.spec_rows() && 0 <= c < self.spec_cols()
                    && !(r == row && c == col)
                    implies self.at(r, c) == old(self).at(r, c) by {
                old(self).lemma_flat_injective(r, c, row as int, col as int);
                old(self).lemma_flat_in_bounds(r, c);
            }
        }
    }

    /// A mutable borrow of the scalar at (`row`, `col`); the matrix after the
    /// borrow expires holds whatever was written through it, and every other
    /// cell keeps its value.
    pub fn get_mut_at(&mut self, row: usize, col: usize) -> (element: &mut Scalar)
        requires
            old(self).wf(),
            row < old(self).spec_rows(),
            col < old(self).spec_cols(),
        ensures
            *element == old(self).at(row as int, col as int),
            final(self).wf(),
            final(self).spec_rows() == old(self).spec_rows(),
            final(self).spec_cols() == old(self).spec_cols(),
            final(self).at(row as int, col as int) == *final(element),
            forall|r: int, c: int|
                0 <= r < old(self).spec_rows() && 0 <= c < old(self).spec_cols()
                    && !(r == row && c == col)
                    ==> final(self).at(r, c) == old(self).at(r, c),
    {
        proof {
            self.lemma_flat_in_bounds(row as int, col as int);
            assert forall|r: int, c: int|
                #![trigger old(self).at(r, c)]
                0 <= r < old(self).spec_rows() && 0 <= c < old(self).spec_cols()
                    && !(r == row && c == col)
                    implies r * old(self).stride + c != row * old(self).stride + col
                        && 0 <= r * old(self).stride + c < old(self).data_frame@.len() by {
                old(self).lemma_flat_injective(r, c, row as int, col as int);
                old(self).lemma_flat_in_bounds(r, c);
            }
        }
        let k = row * self.stride + col;
        &mut self.data_frame[k]
    }

    /// A matrix of `rows` rows and `cols` columns fits in one allocation.
    proof fn lemma_area_fits(self)
        requires
            self.wf(),
        ensures
            self.spec_rows() * self.spec_cols() <= usize::MAX,
    {
        broadcast use vstd::std_specs::vec::axiom_spec_len;

        assert(vstd::std_specs::vec::spec_vec_len(&self.data_frame) <= usize::MAX);
        lemma_mul_inequality(self.cols as int, self.stride as int, self.rows as int);
        assert(self.cols as int * self.rows as int == self.rows as int * self.cols as int)
            by (nonlinear_arith);
        assert(self.stride as int * self.rows as int == self.rows as int * self.stride as int)
            by (nonlinear_arith);
    }

    /// Reset every cell to zero, reusing the allocation.
    pub fn zeroed(&mut self)
        requires
            old(self).wf(),
        ensures
            final(self).wf(),
            final(self).spec_rows() == old(self).spec_rows(),
            final(self).spec_cols() == old(self).spec_cols(),
            forall|r: int, c: int|
                0 <= r < old(self).spec_rows() && 0 <= c < old(self).spec_cols()
                    ==> final(self).at(r, c) == F_ZERO,
    {
        let rows = self.rows();
        let cols = self.cols();
        let mut i: usize = 0;
        while i < rows
            invariant
                self.wf(),
                self.spec_rows() == rows,
                self.spec_cols() == cols,
                i <= rows,
                forall|r: int, c: int| 0 <= r < i && 0 <= c < cols ==> self.at(r, c) == F_ZERO,
            decreases rows - i,
        {
            let mut j: usize = 0;
            while j < cols
                invariant
                    self.wf(),
                    self.spec_rows() == rows,
                    self.spec_cols() == cols,
                    i < rows,
                    j <= cols,
                    forall|r: int, c: int| 0 <= r < i && 0 <= c < cols ==> self.at(r, c) == F_ZERO,
                    forall|c: int| 0 <= c < j ==> self.at(i as int, c) == F_ZERO,
                decreases cols - j,
            {
                self.set_at(i, j, F_ZERO);
                j += 1;
            }
            i += 1;
        }
    }

    /// The identity pattern: one on the main diagonal, zero elsewhere.
    pub fn identity(rows: usize, cols: usize) -> (m: NNMatrix)
        requires
            rows * cols <= usize::MAX,
        ensures
            m.wf(),
            m.spec_rows() == rows,
            m.spec_cols() == cols,
            forall|r: int, c: int|
                0 <= r < rows && 0 <= c < cols
                    ==> m.at(r, c) == (if r == c { F_ONE } else { F_ZERO }),
    {
        let mut id_matrix = NNMatrix::empty(rows, cols);
        let mut i: usize = 0;
        while i < rows
            invariant
                id_matrix.wf(),
                id_matrix.spec_rows() == rows,
                id_matrix.spec_cols() == cols,
                i <= rows,
                forall|r: int, c: int|
                    0 <= r < rows && 0 <= c < cols && (r < i || r != c)
                        ==> id_matrix.at(r, c) == (if r == c { F_ONE } else { F_ZERO }),
            decreases rows - i,
        {
            if i < cols {
                id_matrix.set_at(i, i, F_ONE);
            }
            i += 1;
        }
        id_matrix
    }

    /// A copy of one row, `cols` scalars long.
    pub fn get_row(&self, row: usize) -> (r: Vec<Scalar>)
        requires
            self.wf(),
            row < self.spec_rows(),
        ensures
            r@ == self.mseq()[row as int],
    {
        let cols = self.cols();
        let mut r: Vec<u32> = Vec::new();
        let mut j: usize = 0;
        while j < cols
            invariant
                self.wf(),
                self.spec_cols() == cols,
                row < self.spec_rows(),
                j <= cols,
                r@.len() == j,
                forall|c: int| 0 <= c < j ==> r@[c] == self.at(row as int, c),
            decreases cols - j,
        {
            r.push(self.get_at(row, j));
            j += 1;
        }
        proof {
            assert(r@ =~= self.mseq()[row as int]);
        }
        r
    }

    /// Copy row `row` of this matrix into row 0 of `to`.
    pub fn copy_row_to(&self, to: &mut NNMatrix, row: usize)
        requires
            self.wf(),
            old(to).wf(),
            old(to).spec_cols() == self.spec_cols(),
            old(to).spec_rows() >= 1,
            row < self.spec_rows(),
        ensures
            final(to).wf(),
            final(to).spec_rows() == old(to).spec_rows(),
            final(to).spec_cols() == old(to).spec_cols(),
            forall|c: int| 0 <= c < self.spec_cols() ==> final(to).at(0, c) == self.at(row as int, c),
            forall|r: int, c: int|
                1 <= r < old(to).spec_rows() && 0 <= c < old(to).spec_cols()
                    ==> final(to).at(r, c) == old(to).at(r, c),
    {
        let cols = self.cols();
        let mut i: usize = 0;
        while i < cols
            invariant
                self.wf(),
                to.wf(),
                to.spec_rows() == old(to).spec_rows(),
                to.spec_cols() == old(to).spec_cols(),
                to.spec_cols() == self.spec_cols(),
                to.spec_rows() >= 1,
                row < self.spec_rows(),
                self.spec_cols() == cols,
                i <= cols,
                forall|c: int| 0 <= c < i ==> to.at(0, c) == self.at(row as int, c),
                forall|r: int, c: int|
                    1 <= r < old(to).spec_rows() && 0 <= c < old(to).spec_cols()
                        ==> to.at(r, c) == old(to).at(r, c),
            decreases cols - i,
        {
            let v = self.get_at(row, i);
            to.set_at(0, i, v);
            i += 1;
        }
    }

    /// Copy row `row` of `from` into row 0 of this matrix.
    pub fn copy_row_from(&mut self, from: &NNMatrix, row: usize)
        requires
            old(self).wf(),
            from.wf(),
            from.spec_cols() == old(self).spec_cols(),
            old(self).spec_rows() >= 1,
            row < from.spec_rows(),
        ensures
            final(self).wf(),
            final(self).spec_rows() == old(self).spec_rows(),
            final(self).spec_cols() == old(self).spec_cols(),
            forall|c: int|
                0 <= c < old(self).spec_cols() ==> final(self).at(0, c) == from.at(row as int, c),
            forall|r: int, c: int|
                1 <= r < old(self).spec_rows() && 0 <= c < old(self).spec_cols()
                    ==> final(self).at(r, c) == old(self).at(r, c),
    {
        from.copy_row_to(self, row);
    }

    /// Replace every cell `x` with `sigmoid(x)`.
    pub fn sigmoid(&mut self)
        requires
            old(self).wf(),
        ensures
            final(self).wf(),
            final(self).spec_rows() == old(self).spec_rows(),
            final(self).spec_cols() == old(self).spec_cols(),
            forall|r: int, c: int|
                0 <= r < old(self).spec_rows() && 0 <= c < old(self).spec_cols()
                    ==> final(self).at(r, c) == crate::scalar::sigmoid_bits(old(self).at(r, c)),
    {
        let rows = self.rows();
        let cols = self.cols();
        let mut i: usize = 0;
        while i < rows
            invariant
                self.wf(),
                self.spec_rows() == rows,
                self.spec_cols() == cols,
                i <= rows,
                forall|r: int, c: int|
                    0 <= r < i && 0 <= c < cols
                        ==> self.at(r, c) == crate::scalar::sigmoid_bits(old(self).at(r, c)),
                forall|r: int, c: int|
                    i <= r < rows && 0 <= c < cols ==> self.at(r, c) == old(self).at(r, c),
            decreases rows - i,
        {
            let mut j: usize = 0;
            while j < cols
                invariant
                    self.wf(),
                    self.spec_rows() == rows,
                    self.spec_cols() == cols,
                    i < rows,
                    j <= cols,
                    forall|r: int, c: int|
                        0 <= r < i && 0 <= c < cols
                            ==> self.at(r, c) == crate::scalar::sigmoid_bits(old(self).at(r, c)),
                    forall|c: int|
                        0 <= c < j ==> self.at(i as int, c) == crate::scalar::sigmoid_bits(old(self).at(i as int, c)),
                    forall|c: int| j <= c < cols ==> self.at(i as int, c) == old(self).at(i as int, c),
                    forall|r: int, c: int|
                        i < r < rows && 0 <= c < cols ==> self.at(r, c) == old(self).at(r, c),
                decreases cols - j,
            {
                let v = crate::scalar::sigmoid(self.get_at(i, j));
                self.set_at(i, j, v);
                j += 1;
            }
            i += 1;
        }
    }

    /// Fill every cell from one fresh 32-bit draw, mapped onto `[min, max)`
    /// as `uniform_mix_bits` describes.
    pub fn rand_range(&mut self, rng: &mut rand::rngs::StdRng, min: Scalar, max: Scalar)
        requires
            old(self).wf(),
        ensures
            final(self).wf(),
            final(self).spec_rows() == old(self).spec_rows(),
            final(self).spec_cols() == old(self).spec_cols(),
            forall|r: int, c: int|
                0 <= r < old(self).spec_rows() && 0 <= c < old(self).spec_cols()
                    ==> #[trigger] is_uniform_mix(min, max, final(self).at(r, c)),
    {
        let rows = self.rows();
        let cols = self.cols();
        let mut i: usize = 0;
        while i < rows
            invariant
                self.wf(),
                self.spec_rows() == rows,
                self.spec_cols() == cols,
                i <= rows,
                forall|r: int, c: int|
                    0 <= r < i && 0 <= c < cols
                        ==> #[trigger] is_uniform_mix(min, max, self.at(r, c)),
            decreases rows - i,
        {
            let mut j: usize = 0;
            while j < cols
                invariant
                    self.wf(),
                    self.spec_rows() == rows,
                    self.spec_cols() == cols,
                    i < rows,
                    j <= cols,
                    forall|r: int, c: int|
                        0 <= r < i && 0 <= c < cols
                            ==> #[trigger] is_uniform_mix(min, max, self.at(r, c)),
                    forall|c: int|
                        0 <= c < j ==> #[trigger] is_uniform_mix(min, max, self.at(i as int, c)),
                decreases cols - j,
            {
                let u = crate::rng::rng_next_u32(rng);
                let unit = scalar_mul(crate::scalar::scalar_of_uint((u >> 8) as u64), crate::scalar::F_TWO_POW_NEG_24);
                let v = scalar_add(min, scalar_mul(unit, crate::scalar::scalar_sub(max, min)));
                self.set_at(i, j, v);
                proof {
                    assert(v == uniform_mix_bits(min, max, u));
                    assert(is_uniform_mix(min, max, v));
                }
                j += 1;
            }
            i += 1;
        }
    }

    /// Fill every cell with a draw mapped onto `[0, 1)`.
    pub fn rand(&mut self, rng: &mut rand::rngs::StdRng)
        requires
            old(self).wf(),
        ensures
            final(self).wf(),
            final(self).spec_rows() == old(self).spec_rows(),
            final(self).spec_cols() == old(self).spec_cols(),
            forall|r: int, c: int|
                0 <= r < old(self).spec_rows() && 0 <= c < old(self).spec_cols()
                    ==> #[trigger] is_uniform_mix(F_ZERO, F_ONE, final(self).at(r, c)),
    {
        self.rand_range(rng, F_ZERO, F_ONE)
    }

    /// The product of every cell with the scalar `b`, as a new matrix of the
    /// same shape.
    pub fn mul_scalar(&self, b: Scalar) -> (m: NNMatrix)
        requires
            self.wf(),
        ensures
            m.wf(),
            m.spec_rows() == self.spec_rows(),
            m.spec_cols() == self.spec_cols(),
            forall|r: int, c: int|
                0 <= r < self.spec_rows() && 0 <= c < self.spec_cols()
                    ==> m.at(r, c) == mul_bits(self.at(r, c), b),
    {
        proof {
            self.lemma_area_fits();
        }
        let rows = self.rows();
        let cols = self.cols();
        let mut m = NNMatrix::empty(rows, cols);
        let mut i: usize = 0;
        while i < rows
            invariant
                self.wf(),
                m.wf(),
                self.spec_rows() == rows,
                self.spec_cols() == cols,
                m.spec_rows() == rows,
                m.spec_cols() == cols,
                i <= rows,
                forall|r: int, c: int|
                    0 <= r < i && 0 <= c < cols ==> m.at(r, c) == mul_bits(self.at(r, c), b),
            decreases rows - i,
        {
            let mut j: usize = 0;
            while j < cols
                invariant
                    self.wf(),
                    m.wf(),
                    self.spec_rows() == rows,
                    self.spec_cols() == cols,
                    m.spec_rows() == rows,
                    m.spec_cols() == cols,
                    i < rows,
                    j <= cols,
                    forall|r: int, c: int|
                        0 <= r < i && 0 <= c < cols ==> m.at(r, c) == mul_bits(self.at(r, c), b),
                    forall|c: int| 0 <= c < j ==> m.at(i as int, c) == mul_bits(self.at(i as int, c), b),
                decreases cols - j,
            {
                let v = scalar_mul(self.get_at(i, j), b);
                m.set_at(i, j, v);
                j += 1;
            }
            i += 1;
        }
        m
    }

    /// The sum of every cell with the scalar `b`, as a new matrix of the same
    /// shape.
    pub fn add_scalar(&self, b: Scalar) -> (m: NNMatrix)
        requires
            self.wf(),
        ensures
            m.wf(),
            m.spec_rows() == self.spec_rows(),
            m.spec_cols() == self.spec_cols(),
            forall|r: int, c: int|
                0 <= r < self.spec_rows() && 0 <= c < self.spec_cols()
                    ==> m.at(r, c) == add_bits(self.at(r, c), b),
    {
        proof {
            self.lemma_area_fits();
        }
        let rows = self.rows();
        let cols = self.cols();
        let mut m = NNMatrix::empty(rows, cols);
        let mut i: usize = 0;
        while i < rows
            invariant
                self.wf(),
                m.wf(),
                self.spec_rows() == rows,
                self.spec_cols() == cols,
                m.spec_rows() == rows,
                m.spec_cols() == cols,
                i <= rows,
                forall|r: int, c: int|
                    0 <= r < i && 0 <= c < cols ==> m.at(r, c) == add_bits(self.at(r, c), b),
            decreases rows - i,
        {
            let mut j: usize = 0;
            while j < cols
                invariant
                    self.wf(),
                    m.wf(),
                    self.spec_rows() == rows,
                    self.spec_cols() == cols,
                    m.spec_rows() == rows,
                    m.spec_cols() == cols,
                    i < rows,
                    j <= cols,
                    forall|r: int, c: int|
                        0 <= r < i && 0 <= c < cols ==> m.at(r, c) == add_bits(self.at(r, c), b),
                    forall|c: int| 0 <= c < j ==> m.at(i as int, c) == add_bits(self.at(i as int, c), b),
                decreases cols - j,
            {
                let v = scalar_add(self.get_at(i, j), b);
                m.set_at(i, j, v);
                j += 1;
            }
            i += 1;
        }
        m
    }

    /// Elementwise sum with a matrix of exactly the same shape, as a new
    /// matrix.
    pub fn add_mat(&self, b: &NNMatrix) -> (m: NNMatrix)
        requires
            self.wf(),
            b.wf(),
            b.spec_rows() == self.spec_rows(),
            b.spec_cols() == self.spec_cols(),
        ensures
            m.wf(),
            m.spec_rows() == self.spec_rows(),
            m.spec_cols() == self.spec_cols(),
            forall|r: int, c: int|
                0 <= r < self.spec_rows() && 0 <= c < self.spec_cols()
                    ==> m.at(r, c) == add_bits(self.at(r, c), b.at(r, c)),
    {
        proof {
            self.lemma_area_fits();
        }
        let rows = self.rows();
        let cols = self.cols();
        let mut m = NNMatrix::empty(rows, cols);
        let mut i: usize = 0;
        while i < rows
            invariant
                self.wf(),
                b.wf(),
                m.wf(),
                self.spec_rows() == rows,
                self.spec_cols() == cols,
                b.spec_rows() == rows,
                b.spec_cols() == cols,
                m.spec_rows() == rows,
                m.spec_cols() == cols,
                i <= rows,
                forall|r: int, c: int|
                    0 <= r < i && 0 <= c < cols ==> m.at(r, c) == add_bits(self.at(r, c), b.at(r, c)),
            decreases rows - i,
        {
            let mut j: usize = 0;
            while j < cols
                invariant
                    self.wf(),
                    b.wf(),
                    m.wf(),
                    self.spec_rows() == rows,
                    self.spec_cols() == cols,
                    b.spec_rows() == rows,
                    b.spec_cols() == cols,
                    m.spec_rows() == rows,
                    m.spec_cols() == cols,
                    i < rows,
                    j <= cols,
                    forall|r: int, c: int|
                        0 <= r < i && 0 <= c < cols
                            ==> m.at(r, c) == add_bits(self.at(r, c), b.at(r, c)),
                    forall|c: int|
                        0 <= c < j ==> m.at(i as int, c) == add_bits(self.at(i as int, c), b.at(i as int, c)),
                decreases cols - j,
            {
                let v = scalar_add(self.get_at(i, j), b.get_at(i, j));
                m.set_at(i, j, v);
                j += 1;
            }
            i += 1;
        }
        m
    }

    /// Elementwise sum with a matrix of exactly the same shape, in place.
    pub fn add_assign_mat(&mut self, rhs: &NNMatrix)
        requires
            old(self).wf(),
            rhs.wf(),
            rhs.spec_rows() == old(self).spec_rows(),
            rhs.spec_cols() == old(self).spec_cols(),
        ensures
            final(self).wf(),
            final(self).spec_rows() == old(self).spec_rows(),
            final(self).spec_cols() == old(self).spec_cols(),
            forall|r: int, c: int|
                0 <= r < old(self).spec_rows() && 0 <= c < old(self).spec_cols()
                    ==> final(self).at(r, c) == add_bits(old(self).at(r, c), rhs.at(r, c)),
    {
        let rows = self.rows();
        let cols = self.cols();
        let mut i: usize = 0;
        while i < rows
            invariant
                self.wf(),
                rhs.wf(),
                self.spec_rows() == rows,
                self.spec_cols() == cols,
                rhs.spec_rows() == rows,
                rhs.spec_cols() == cols,
                i <= rows,
                forall|r: int, c: int|
                    0 <= r < i && 0 <= c < cols
                        ==> self.at(r, c) == add_bits(old(self).at(r, c), rhs.at(r, c)),
                forall|r: int, c: int|
                    i <= r < rows && 0 <= c < cols ==> self.at(r, c) == old(self).at(r, c),
            decreases rows - i,
        {
            let mut j: usize = 0;
            while j < cols
                invariant
                    self.wf(),
                    rhs.wf(),
                    self.spec_rows() == rows,
                    self.spec_cols() == cols,
                    rhs.spec_rows() == rows,
                    rhs.spec_cols() == cols,
                    i < rows,
                    j <= cols,
                    forall|r: int, c: int|
                        0 <= r < i && 0 <= c < cols
                            ==> self.at(r, c) == add_bits(old(self).at(r, c), rhs.at(r, c)),
                    forall|c: int|
                        0 <= c < j
                            ==> self.at(i as int, c) == add_bits(old(self).at(i as int, c), rhs.at(i as int, c)),
                    forall|c: int| j <= c < cols ==> self.at(i as int, c) == old(self).at(i as int, c),
                    forall|r: int, c: int|
                        i < r < rows && 0 <= c < cols ==> self.at(r, c) == old(self).at(r, c),
                decreases cols - j,
            {
                let v = scalar_add(self.get_at(i, j), rhs.get_at(i, j));
                self.set_at(i, j, v);
                j += 1;
            }
            i += 1;
        }
    }

    /// Add the scalar `rhs` to every cell, in place.
    pub fn add_assign_scalar(&mut self, rhs: Scalar)
        requires
            old(self).wf(),
        ensures
            final(self).wf(),
            final(self).spec_rows() == old(self).spec_rows(),
            final(self).spec_cols() == old(self).spec_cols(),
            forall|r: int, c: int|
                0 <= r < old(self).spec_rows() && 0 <= c < old(self).spec_cols()
                    ==> final(self).at(r, c) == add_bits(old(self).at(r, c), rhs),
    {
        let rows = self.rows();
        let cols = self.cols();
        let mut i: usize = 0;
        while i < rows
            invariant
                self.wf(),
                self.spec_rows() == rows,
                self.spec_cols() == cols,
                i <= rows,
                forall|r: int, c: int|
                    0 <= r < i && 0 <= c < cols ==> self.at(r, c) == add_bits(old(self).at(r, c), rhs),
                forall|r: int, c: int|
                    i <= r < rows && 0 <= c < cols ==> self.at(r, c) == old(self).at(r, c),
            decreases rows - i,
        {
            let mut j: usize = 0;
            while j < cols
                invariant
                    self.wf(),
                    self.spec_rows() == rows,
                    self.spec_cols() == cols,
                    i < rows,
                    j <= cols,
                    forall|r: int, c: int|
                        0 <= r < i && 0 <= c < cols
                            ==> self.at(r, c) == add_bits(old(self).at(r, c), rhs),
                    forall|c: int|
                        0 <= c < j ==> self.at(i as int, c) == add_bits(old(self).at(i as int, c), rhs),
                    forall|c: int| j <= c < cols ==> self.at(i as int, c) == old(self).at(i as int, c),
                    forall|r: int, c: int|
                        i < r < rows && 0 <= c < cols ==> self.at(r, c) == old(self).at(r, c),
                decreases cols - j,
            {
                let v = scalar_add(self.get_at(i, j), rhs);
                self.set_at(i, j, v);
                j += 1;
            }
            i += 1;
        }
    }

    /// Multiply every cell by the scalar `rhs`, in place.
    pub fn mul_assign_scalar(&mut self, rhs: Scalar)
        requires
            old(self).wf(),
        ensures
            final(self).wf(),
            final(self).spec_rows() == old(self).spec_rows(),
            final(self).spec_cols() == old(self).spec_cols(),
            forall|r: int, c: int|
                0 <= r < old(self).spec_rows() && 0 <= c < old(self).spec_cols()
                    ==> final(self).at(r, c) == mul_bits(old(self).at(r, c), rhs),
    {
        let rows = self.rows();
        let cols = self.cols();
        let mut i: usize = 0;
        while i < rows
            invariant
                self.wf(),
                self.spec_rows() == rows,
                self.spec_cols() == cols,
                i <= rows,
                forall|r: int, c: int|
                    0 <= r < i && 0 <= c < cols ==> self.at(r, c) == mul_bits(old(self).at(r, c), rhs),
                forall|r: int, c: int|
                    i <= r < rows && 0 <= c < cols ==> self.at(r, c) == old(self).at(r, c),
            decreases rows - i,
        {
            let mut j: usize = 0;
            while j < cols
                invariant
                    self.wf(),
                    self.spec_rows() == rows,
                    self.spec_cols() == cols,
                    i < rows,
                    j <= cols,
                    forall|r: int, c: int|
                        0 <= r < i && 0 <= c < cols
                            ==> self.at(r, c) == mul_bits(old(self).at(r, c), rhs),
                    forall|c: int|
                        0 <= c < j ==> self.at(i as int, c) == mul_bits(old(self).at(i as int, c), rhs),
                    forall|c: int| j <= c < cols ==> self.at(i as int, c) == old(self).at(i as int, c),
                    forall|r: int, c: int|
                        i < r < rows && 0 <= c < cols ==> self.at(r, c) == old(self).at(r, c),
                decreases cols - j,
            {
                let v = scalar_mul(self.get_at(i, j), rhs);
                self.set_at(i, j, v);
                j += 1;
            }
            i += 1;
        }
    }

    /// The dense matrix product, accumulated cell by cell in the innermost
    /// loop, as a new matrix of shape (`self.rows`, `b.cols`).
    pub fn mul_mat(&self, b: &NNMatrix) -> (m: NNMatrix)
        requires
            self.wf(),
            b.wf(),
            self.spec_cols() == b.spec_rows(),
            self.spec_rows() * b.spec_cols() <= usize::MAX,
        ensures
            m.wf(),
            m.spec_rows() == self.spec_rows(),
            m.spec_cols() == b.spec_cols(),
            forall|i: int, j: int|
                0 <= i < self.spec_rows() && 0 <= j < b.spec_cols()
                    ==> m.at(i, j) == dot_bits(self.mseq(), b.mseq(), i, j, self.spec_cols() as nat),
    {
        let rows = self.rows();
        let cols = b.cols();
        let n = self.cols();
        let mut m = NNMatrix::empty(rows, cols);
        let mut i: usize = 0;
        while i < rows
            invariant
                self.wf(),
                b.wf(),
                m.wf(),
                self.spec_rows() == rows,
                self.spec_cols() == n,
                b.spec_rows() == n,
                b.spec_cols() == cols,
                m.spec_rows() == rows,
                m.spec_cols() == cols,
                i <= rows,
                forall|r: int, c: int|
                    0 <= r < i && 0 <= c < cols
                        ==> m.at(r, c) == dot_bits(self.mseq(), b.mseq(), r, c, n as nat),
                forall|r: int, c: int|
                    i <= r < rows && 0 <= c < cols ==> m.at(r, c) == F_ZERO,
            decreases rows - i,
        {
            let mut j: usize = 0;
            while j < cols
                invariant
                    self.wf(),
                    b.wf(),
                    m.wf(),
                    self.spec_rows() == rows,
                    self.spec_cols() == n,
                    b.spec_rows() == n,
                    b.spec_cols() == cols,
                    m.spec_rows() == rows,
                    m.spec_cols() == cols,
                    i < rows,
                    j <= cols,
                    forall|r: int, c: int|
                        0 <= r < i && 0 <= c < cols
                            ==> m.at(r, c) == dot_bits(self.mseq(), b.mseq(), r, c, n as nat),
                    forall|c: int|
                        0 <= c < j ==> m.at(i as int, c) == dot_bits(self.mseq(), b.mseq(), i as int, c, n as nat),
                    forall|c: int| j <= c < cols ==> m.at(i as int, c) == F_ZERO,
                    forall|r: int, c: int|
                        i < r < rows && 0 <= c < cols ==> m.at(r, c) == F_ZERO,
                decreases cols - j,
            {
                let mut k: usize = 0;
                while k < n
                    invariant
                        self.wf(),
                        b.wf(),
                        m.wf(),
                        self.spec_rows() == rows,
                        self.spec_cols() == n,
                        b.spec_rows() == n,
                        b.spec_cols() == cols,
                        m.spec_rows() == rows,
                        m.spec_cols() == cols,
                        i < rows,
                        j < cols,
                        k <= n,
                        forall|r: int, c: int|
                            0 <= r < i && 0 <= c < cols
                                ==> m.at(r, c) == dot_bits(self.mseq(), b.mseq(), r, c, n as nat),
                        forall|c: int|
                            0 <= c < j ==> m.at(i as int, c) == dot_bits(self.mseq(), b.mseq(), i as int, c, n as nat),
                        m.at(i as int, j as int) == dot_bits(self.mseq(), b.mseq(), i as int, j as int, k as nat),
                        forall|c: int| j < c < cols ==> m.at(i as int, c) == F_ZERO,
                        forall|r: int, c: int|
                            i < r < rows && 0 <= c < cols ==> m.at(r, c) == F_ZERO,
                    decreases n - k,
                {
                    let term = scalar_mul(self.get_at(i, k), b.get_at(k, j));
                    let v = scalar_add(m.get_at(i, j), term);
                    m.set_at(i, j, v);
                    k += 1;
                }
                j += 1;
            }
            i += 1;
        }
        m
    }

    /// The dense matrix product with a square matrix, written back in place.
    pub fn mul_assign_mat(&mut self, b: &NNMatrix)
        requires
            old(self).wf(),
            b.wf(),
            b.spec_rows() == old(self).spec_cols(),
            b.spec_cols() == old(self).spec_cols(),
        ensures
            final(self).wf(),
            final(self).spec_rows() == old(self).spec_rows(),
            final(self).spec_cols() == old(self).spec_cols(),
            forall|i: int, j: int|
                0 <= i < old(self).spec_rows() && 0 <= j < old(self).spec_cols()
                    ==> final(self).at(i, j)
                        == dot_bits(old(self).mseq(), b.mseq(), i, j, old(self).spec_cols() as nat),
    {
        proof {
            self.lemma_area_fits();
        }
        let rows = self.rows();
        let cols = self.cols();
        let c = self.mul_mat(b);
        let mut i: usize = 0;
        while i < rows
            invariant
                self.wf(),
                c.wf(),
                self.spec_rows() == rows,
                self.spec_cols() == cols,
                c.spec_rows() == rows,
                c.spec_cols() == cols,
                i <= rows,
                forall|r: int, cc: int|
                    0 <= r < rows && 0 <= cc < cols
                        ==> c.at(r, cc) == dot_bits(old(self).mseq(), b.mseq(), r, cc, old(self).spec_cols() as nat),
                forall|r: int, cc: int|
                    0 <= r < i && 0 <= cc < cols ==> self.at(r, cc) == c.at(r, cc),
            decreases rows - i,
        {
            let mut j: usize = 0;
            while j < cols
                invariant
                    self.wf(),
                    c.wf(),
                    self.spec_rows() == rows,
                    self.spec_cols() == cols,
                    c.spec_rows() == rows,
                    c.spec_cols() == cols,
                    i < rows,
                    j <= cols,
                    forall|r: int, cc: int|
                        0 <= r < rows && 0 <= cc < cols
                            ==> c.at(r, cc) == dot_bits(old(self).mseq(), b.mseq(), r, cc, old(self).spec_cols() as nat),
                    forall|r: int, cc: int|
                        0 <= r < i && 0 <= cc < cols ==> self.at(r, cc) == c.at(r, cc),
                    forall|cc: int| 0 <= cc < j ==> self.at(i as int, cc) == c.at(i as int, cc),
                decreases cols - j,
            {
                let v = c.get_at(i, j);
                self.set_at(i, j, v);
                j += 1;
            }
            i += 1;
        }
        proof {
            assert forall|r: int, cc: int|
                0 <= r < old(self).spec_rows() && 0 <= cc < old(self).spec_cols()
                    implies self.at(r, cc)
                        == dot_bits(old(self).mseq(), b.mseq(), r, cc, old(self).spec_cols() as nat) by {
                assert(self.at(r, cc) == c.at(r, cc));
            }
        }
    }
}

} // verus!
