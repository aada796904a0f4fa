//! The executable matrix type and its verified operations.
//!
//! A `Matrix` owns a flat row-major `Vec<i64>` of `rows * cols` elements.
//! Shape mismatches and out-of-bounds accesses are recoverable errors
//! carrying a descriptive message; element arithmetic wraps around on
//! overflow.  Raising a non-square matrix to a power, or using a negative
//! exponent, is a caller error and is excluded by precondition.

use crate::algebra::{lemma_mpow_add, lemma_mpow_one, lemma_mpow_shape, lemma_mpow_square};
use crate::model::{
    dotw, lemma_flat_index, lemma_flat_split, madd, mconst, mident, mmul, mpow, mscale, mset,
    mtrans, wadd, wmul, MatModel,
};
use crate::text::{
    add_err_string, i64_to_string, index_err, index_err_string, lemma_max_wlen_ge, max_wlen,
    mul_err_string, render_rep, row_rep, rows_rep, shape_add_err, shape_mul_err, spaces,
    usize_to_string, width_of,
};
use vstd::pervasive::VecAdditionalExecFns;
use vstd::prelude::*;

verus! {

/// A dense matrix of `i64` elements in row-major order.
#[derive(Debug)]
pub struct Matrix {
    rows: usize,
    cols: usize,
    data: Vec<i64>,
}

impl View for Matrix {
    type V = MatModel;

    closed spec fn view(&self) -> MatModel {
        MatModel { rows: self.rows as nat, cols: self.cols as nat, data: self.data@ }
    }
}

impl Clone for Matrix {
    /// A deep copy: the new matrix owns its own storage.
    fn clone(&self) -> (r: Matrix)
        ensures
            r@ == self@,
    {
        let n = self.data.len();
        let mut data: Vec<i64> = Vec::new();
        let mut t: usize = 0;
        while t < n
            invariant
                t <= n,
                n == self.data@.len(),
                data@.len() == t,
                forall|q: int| 0 <= q < t ==> data@[q] == self.data@[q],
            decreases n - t,
        {
            data.push(self.data[t]);
            t += 1;
        }
        let r = Matrix { rows: self.rows, cols: self.cols, data };
        proof {
            assert(r@.data =~= self@.data);
            assert(r@ =~= self@);
        }
        r
    }
}

impl PartialEq for Matrix {
    /// Structural equality: same shape and equal corresponding elements.
    fn eq(&self, other: &Matrix) -> (r: bool) {
        if self.rows != other.rows || self.cols != other.cols {
            return false;
        }
        if self.data.len() != other.data.len() {
            return false;
        }
        let n = self.data.len();
        let mut t: usize = 0;
        while t < n
            invariant
                t <= n,
                n == self.data@.len(),
                n == other.data@.len(),
                forall|q: int| 0 <= q < t ==> self.data@[q] == other.data@[q],
            decreases n - t,
        {
            if self.data[t] != other.data[t] {
                return false;
            }
            t += 1;
        }
        proof {
            assert(self@.data =~= other@.data);
            assert(self@ =~= other@);
        }
        true
    }
}

impl vstd::std_specs::cmp::PartialEqSpecImpl for Matrix {
    open spec fn obeys_eq_spec() -> bool {
        true
    }

    open spec fn eq_spec(&self, other: &Matrix) -> bool {
        self@ == other@
    }
}

impl Matrix {
    /// A `n_rows` x `n_cols` matrix with every element set to `val`.
    pub fn from_scalar(n_rows: usize, n_cols: usize, val: i64) -> (m: Matrix)
        requires
            n_rows * n_cols <= usize::MAX,
        ensures
            m@ == mconst(n_rows as nat, n_cols as nat, val),
            m@.wf(),
    {
        let total = n_cols * n_rows;
        let mut data: Vec<i64> = Vec::new();
        let mut t: usize = 0;
        while t < total
            invariant
                t <= total,
                data@.len() == t,
                forall|q: int| 0 <= q < t ==> data@[q] == val,
            decreases total - t,
        {
            data.push(val);
            t += 1;
        }
        let m = Matrix { rows: n_rows, cols: n_cols, data };
        proof {
            assert(m@.data =~= mconst(n_rows as nat, n_cols as nat, val).data);
            assert(m@ =~= mconst(n_rows as nat, n_cols as nat, val));
        }
        m
    }

    /// A matrix built from a sequence of rows.  Fails when the outer length
    /// is not `n_rows` or any row's length is not `n_cols`.
    pub fn from_2d_vec(n_rows: usize, n_cols: usize, data: Vec<Vec<i64>>) -> (r: Result<
        Matrix,
        String,
    >)
        ensures
            match r {
                Ok(m) => {
                    &&& data@.len() == n_rows
                    &&& forall|i: int| 0 <= i < n_rows ==> (#[trigger] data@[i])@.len() == n_cols
                    &&& m@.wf()
                    &&& m@.rows == n_rows
                    &&& m@.cols == n_cols
                    &&& forall|i: int, j: int|
                        0 <= i < n_rows && 0 <= j < n_cols ==> #[trigger] m@.ent(i, j)
                            == data@[i]@[j]
                },
                Err(e) => {
                    if data@.len() != n_rows {
                        e@ == "Inconsistent row length"@
                    } else {
                        (exists|i: int|
                            0 <= i < n_rows && (#[trigger] data@[i])@.len() != n_cols) && e@
                            == "Inconsistent column length"@
                    }
                },
            },
    {
        if data.len() != n_rows {
            return Err("Inconsistent row length".to_owned());
        }
        let mut flat: Vec<i64> = Vec::new();
        let mut i: usize = 0;
        while i < n_rows
            invariant
                i <= n_rows,
                data@.len() == n_rows,
                flat@.len() == i * n_cols,
                forall|q: int| 0 <= q < i ==> (#[trigger] data@[q])@.len() == n_cols,
                forall|q: int, j: int|
                    0 <= q < i && 0 <= j < n_cols ==> #[trigger] flat@[q * n_cols + j]
                        == data@[q]@[j],
            decreases n_rows - i,
        {
            let row = &data[i];
            if row.len() != n_cols {
                return Err("Inconsistent column length".to_owned());
            }
            let mut j: usize = 0;
            while j < n_cols
                invariant
                    j <= n_cols,
                    i < n_rows,
                    data@.len() == n_rows,
                    row == data@[i as int],
                    row@.len() == n_cols,
                    flat@.len() == i * n_cols + j,
                    forall|q: int| 0 <= q < i ==> (#[trigger] data@[q])@.len() == n_cols,
                    forall|q: int, j2: int|
                        0 <= q < i && 0 <= j2 < n_cols ==> #[trigger] flat@[q * n_cols + j2]
                            == data@[q]@[j2],
                    forall|j2: int|
                        0 <= j2 < j ==> #[trigger] flat@[i * n_cols + j2] == data@[i as int]@[j2],
                decreases n_cols - j,
            {
                flat.push(row[j]);
                proof {
                    assert forall|q: int, j2: int|
                        0 <= q < i && 0 <= j2 < n_cols implies #[trigger] flat@[q * n_cols + j2]
                        == data@[q]@[j2] by {
                        assert(q * n_cols + j2 < i * (n_cols as int)) by (nonlinear_arith)
                            requires
                                0 <= q < i,
                                0 <= j2 < n_cols,
                        ;
                    }
                }
                j += 1;
            }
            proof {
                assert((i + 1) * (n_cols as int) == i * (n_cols as int) + (n_cols as int))
                    by (nonlinear_arith);
                assert forall|q: int, j2: int|
                    0 <= q < i + 1 && 0 <= j2 < n_cols implies #[trigger] flat@[q * n_cols + j2]
                    == data@[q]@[j2] by {
                    if q < i {
                        assert(q * n_cols + j2 < i * n_cols + n_cols) by (nonlinear_arith)
                            requires
                                0 <= q < i,
                                0 <= j2 < n_cols,
                        ;
                    }
                }
            }
            i += 1;
        }
        let m = Matrix { rows: n_rows, cols: n_cols, data: flat };
        proof {
            assert forall|i2: int, j2: int|
                0 <= i2 < n_rows && 0 <= j2 < n_cols implies m@.ent(i2, j2) == (
            #[trigger] m@.data[i2 * n_cols + j2]) by {}
        }
        Ok(m)
    }

    /// The `size` x `size` identity matrix.
    pub fn identity(size: usize) -> (m: Matrix)
        requires
            size * size <= usize::MAX,
        ensures
            m@ == mident(size as nat),
            m@.wf(),
    {
        let total = size * size;
        let mut data: Vec<i64> = Vec::new();
        let mut t: usize = 0;
        while t < total
            invariant
                t <= total,
                data@.len() == t,
                forall|q: int| 0 <= q < t ==> data@[q] == 0i64,
            decreases total - t,
        {
            data.push(0);
            t += 1;
        }
        let mut i: usize = 0;
        while i < size
            invariant
                i <= size,
                total == size * size,
                data@.len() == total,
                forall|q: int|
                    0 <= q < total ==> data@[q] == (if q / (size as int) == q % (size as int) && q
                        / (size as int) < i {
                        1i64
                    } else {
                        0i64
                    }),
            decreases size - i,
        {
            proof {
                lemma_flat_index(i as int, i as int, size as int, size as int);
            }
            let idx = i * size + i;
            data.set(idx, 1);
            proof {
                assert forall|q: int|
                    0 <= q < total implies data@[q] == (if q / (size as int) == q % (size as int)
                    && q / (size as int) < i + 1 {
                    1i64
                } else {
                    0i64
                }) by {
                    lemma_flat_split(q, size as int, size as int);
                }
            }
            i += 1;
        }
        let m = Matrix { rows: size, cols: size, data };
        proof {
            assert forall|q: int| 0 <= q < total implies m@.data[q] == mident(size as nat).data[q]
                by {
                lemma_flat_split(q, size as int, size as int);
            }
            assert(m@.data =~= mident(size as nat).data);
            assert(m@ =~= mident(size as nat));
        }
        m
    }

    /// The shape of the matrix, as `(rows, cols)`.
    pub fn shape(&self) -> (r: (usize, usize))
        ensures
            r.0 as nat == self@.rows,
            r.1 as nat == self@.cols,
    {
        (self.rows, self.cols)
    }

    /// The element at `(i, j)`, or an out-of-bounds error naming the shape
    /// and the offending index.
    pub fn get(&self, i: usize, j: usize) -> (r: Result<i64, String>)
        requires
            self@.wf(),
        ensures
            match r {
                Ok(v) => (i as nat) < self@.rows && (j as nat) < self@.cols && v == self@.ent(
                    i as int,
                    j as int,
                ),
                Err(e) => ((i as nat) >= self@.rows || (j as nat) >= self@.cols) && e@
                    == index_err(self@.rows, self@.cols, i as nat, j as nat),
            },
    {
        if i < self.rows && j < self.cols {
            proof {
                lemma_flat_index(i as int, j as int, self.rows as int, self.cols as int);
            }
            let _len: usize = self.data.len();
            Ok(self.data[i * self.cols + j])
        } else {
            Err(index_err_string(self.rows, self.cols, i, j))
        }
    }

    /// Replaces the element at `(i, j)`, or reports an out-of-bounds error
    /// and leaves the matrix unchanged.
    pub fn set(&mut self, i: usize, j: usize, val: i64) -> (r: Result<(), String>)
        requires
            old(self)@.wf(),
        ensures
            final(self)@.wf(),
            match r {
                Ok(u) => (i as nat) < old(self)@.rows && (j as nat) < old(self)@.cols
                    && final(self)@ == mset(old(self)@, i as int, j as int, val),
                Err(e) => ((i as nat) >= old(self)@.rows || (j as nat) >= old(self)@.cols)
                    && *final(self) == *old(self)
                    && e@ == index_err(old(self)@.rows, old(self)@.cols, i as nat, j as nat),
            },
    {
        if i < self.rows && j < self.cols {
            proof {
                lemma_flat_index(i as int, j as int, self.rows as int, self.cols as int);
            }
            let _len: usize = self.data.len();
            self.data.set(i * self.cols + j, val);
            Ok(())
        } else {
            Err(index_err_string(self.rows, self.cols, i, j))
        }
    }

    /// Element-wise wrapping sum.  Fails when the shapes differ, reporting
    /// both shapes.
    pub fn add(self, other: Matrix) -> (r: Result<Matrix, String>)
        requires
            self@.wf(),
            other@.wf(),
        ensures
            match r {
                Ok(m) => self@.rows == other@.rows && self@.cols == other@.cols && m@ == madd(
                    self@,
                    other@,
                ) && m@.wf(),
                Err(e) => (self@.rows != other@.rows || self@.cols != other@.cols) && e@
                    == shape_add_err(self@.rows, self@.cols, other@.rows, other@.cols),
            },
    {
        if self.rows != other.rows || self.cols != other.cols {
            return Err(add_err_string(self.rows, self.cols, other.rows, other.cols));
        }
        let n = self.data.len();
        let mut data: Vec<i64> = Vec::new();
        let mut t: usize = 0;
        while t < n
            invariant
                t <= n,
                n == self.data@.len(),
                n == other.data@.len(),
                data@.len() == t,
                forall|q: int|
                    0 <= q < t ==> data@[q] == wadd(self.data@[q], other.data@[q]),
            decreases n - t,
        {
            data.push(self.data[t].wrapping_add(other.data[t]));
            t += 1;
        }
        let m = Matrix { rows: self.rows, cols: self.cols, data };
        proof {
            assert(m@.data =~= madd(self@, other@).data);
            assert(m@ =~= madd(self@, other@));
        }
        Ok(m)
    }

    /// Every element multiplied (wrapping) by `scalar`; the `A * s` order.
    pub fn mul_scalar(self, scalar: i64) -> (m: Matrix)
        requires
            self@.wf(),
        ensures
            m@ == mscale(self@, scalar),
            m@.wf(),
    {
        let n = self.data.len();
        let mut data: Vec<i64> = Vec::new();
        let mut t: usize = 0;
        while t < n
            invariant
                t <= n,
                n == self.data@.len(),
                data@.len() == t,
                forall|q: int|
                    0 <= q < t ==> data@[q] == wmul(self.data@[q], scalar),
            decreases n - t,
        {
            data.push(self.data[t].wrapping_mul(scalar));
            t += 1;
        }
        let m = Matrix { rows: self.rows, cols: self.cols, data };
        proof {
            assert(m@.data =~= mscale(self@, scalar).data);
            assert(m@ =~= mscale(self@, scalar));
        }
        m
    }

    /// Every element multiplied (wrapping) by `scalar`; the `s * A` order.
    pub fn scalar_mul(scalar: i64, m: Matrix) -> (r: Matrix)
        requires
            m@.wf(),
        ensures
            r@ == mscale(m@, scalar),
            r@.wf(),
    {
        m.mul_scalar(scalar)
    }

    /// The transpose: shape `(cols, rows)`, entry `(i, j)` taken from `(j, i)`.
    pub fn transpose(self) -> (m: Matrix)
        requires
            self@.wf(),
        ensures
            m@ == mtrans(self@),
            m@.wf(),
    {
        let rows = self.rows;
        let cols = self.cols;
        let n = self.data.len();
        let mut data: Vec<i64> = Vec::new();
        let mut i: usize = 0;
        while i < cols
            invariant
                i <= cols,
                rows == self.rows,
                cols == self.cols,
                n == self.data@.len(),
                self@.wf(),
                data@.len() == i * rows,
                forall|q: int|
                    0 <= q < data@.len() ==> data@[q] == self@.ent(
                        q % (rows as int),
                        q / (rows as int),
                    ),
            decreases cols - i,
        {
            let mut j: usize = 0;
            while j < rows
                invariant
                    j <= rows,
                    i < cols,
                    rows == self.rows,
                    cols == self.cols,
                    n == self.data@.len(),
                    self@.wf(),
                    data@.len() == i * rows + j,
                    forall|q: int|
                        0 <= q < data@.len() ==> data@[q] == self@.ent(
                            q % (rows as int),
                            q / (rows as int),
                        ),
                decreases rows - j,
            {
                proof {
                    lemma_flat_index(j as int, i as int, rows as int, cols as int);
                    lemma_flat_index(i as int, j as int, cols as int, rows as int);
                }
                let idx = j * cols + i;
                data.push(self.data[idx]);
                j += 1;
            }
            proof {
                assert((i + 1) * (rows as int) == i * (rows as int) + (rows as int))
                    by (nonlinear_arith);
            }
            i += 1;
        }
        let m = Matrix { rows: cols, cols: rows, data };
        proof {
            assert(m@.data =~= mtrans(self@).data);
            assert(m@ =~= mtrans(self@));
        }
        m
    }

    /// The matrix product of `a` and `b`; the inner dimensions must agree.
    fn mul_core(a: &Matrix, b: &Matrix) -> (m: Matrix)
        requires
            a@.wf(),
            b@.wf(),
            a@.cols == b@.rows,
            a@.rows * b@.cols <= usize::MAX,
        ensures
            m@ == mmul(a@, b@),
            m@.wf(),
    {
        let rows = a.rows;
        let cols = b.cols;
        let inner = a.cols;
        let a_len = a.data.len();
        let b_len = b.data.len();
        let mut data: Vec<i64> = Vec::new();
        let mut i: usize = 0;
        while i < rows
            invariant
                i <= rows,
                rows == a.rows,
                cols == b.cols,
                inner == a.cols,
                a@.wf(),
                b@.wf(),
                a@.cols == b@.rows,
                a_len == a.data@.len(),
                b_len == b.data@.len(),
                a@.rows * b@.cols <= usize::MAX,
                data@.len() == i * cols,
                forall|q: int|
                    0 <= q < data@.len() ==> data@[q] == dotw(
                        a@,
                        b@,
                        q / (cols as int),
                        q % (cols as int),
                        inner as int,
                    ),
            decreases rows - i,
        {
            let mut j: usize = 0;
            while j < cols
                invariant
                    j <= cols,
                    i < rows,
                    rows == a.rows,
                    cols == b.cols,
                    inner == a.cols,
                    a@.wf(),
                    b@.wf(),
                    a@.cols == b@.rows,
                    a_len == a.data@.len(),
                    b_len == b.data@.len(),
                    a@.rows * b@.cols <= usize::MAX,
                    data@.len() == i * cols + j,
                    forall|q: int|
                        0 <= q < data@.len() ==> data@[q] == dotw(
                            a@,
                            b@,
                            q / (cols as int),
                            q % (cols as int),
                            inner as int,
                        ),
                decreases cols - j,
            {
                let mut acc: i64 = 0;
                let mut k: usize = 0;
                while k < inner
                    invariant
                        k <= inner,
                        i < rows,
                        j < cols,
                        rows == a.rows,
                        cols == b.cols,
                        inner == a.cols,
                        a@.wf(),
                        b@.wf(),
                        a@.cols == b@.rows,
                        a_len == a.data@.len(),
                        b_len == b.data@.len(),
                        acc == dotw(a@, b@, i as int, j as int, k as int),
                    decreases inner - k,
                {
                    proof {
                        lemma_flat_index(i as int, k as int, rows as int, inner as int);
                        lemma_flat_index(k as int, j as int, inner as int, cols as int);
                    }
                    let av = a.data[i * inner + k];
                    let bv = b.data[k * cols + j];
                    acc = acc.wrapping_add(av.wrapping_mul(bv));
                    k += 1;
                }
                proof {
                    lemma_flat_index(i as int, j as int, rows as int, cols as int);
                }
                data.push(acc);
                j += 1;
            }
            proof {
                assert((i + 1) * (cols as int) == i * (cols as int) + (cols as int))
                    by (nonlinear_arith);
            }
            i += 1;
        }
        let m = Matrix { rows, cols, data };
        proof {
            assert forall|q: int| 0 <= q < data@.len() implies m@.data[q] == mmul(a@, b@).data[q]
                by {
                assert(cols as int > 0) by (nonlinear_arith)
                    requires
                        0 <= q < (rows as int) * (cols as int),
                ;
            }
            assert(m@.data =~= mmul(a@, b@).data);
            assert(m@ =~= mmul(a@, b@));
        }
        m
    }

    /// The matrix product `self * rhs`.  Fails when the inner dimensions
    /// differ, reporting both shapes.
    pub fn multiply(self, rhs: Matrix) -> (r: Result<Matrix, String>)
        requires
            self@.wf(),
            rhs@.wf(),
            self@.rows * rhs@.cols <= usize::MAX,
        ensures
            match r {
                Ok(m) => self@.cols == rhs@.rows && m@ == mmul(self@, rhs@) && m@.wf(),
                Err(e) => self@.cols != rhs@.rows && e@ == shape_mul_err(
                    self@.rows,
                    self@.cols,
                    rhs@.rows,
                    rhs@.cols,
                ),
            },
    {
        if self.cols != rhs.rows {
            return Err(mul_err_string(self.rows, self.cols, rhs.rows, rhs.cols));
        }
        Ok(Self::mul_core(&self, &rhs))
    }

    /// Replaces `self` with `self * rhs`.  Fails when the inner dimensions
    /// differ, reporting both shapes and leaving `self` unchanged.
    pub fn multiply_in_place(&mut self, rhs: Matrix) -> (r: Result<(), String>)
        requires
            old(self)@.wf(),
            rhs@.wf(),
            old(self)@.rows * rhs@.cols <= usize::MAX,
        ensures
            match r {
                Ok(u) => old(self)@.cols == rhs@.rows && final(self)@ == mmul(old(self)@, rhs@)
                    && final(self)@.wf(),
                Err(e) => old(self)@.cols != rhs@.rows && *final(self) == *old(self) && e@
                    == shape_mul_err(old(self)@.rows, old(self)@.cols, rhs@.rows, rhs@.cols),
            },
    {
        if self.cols != rhs.rows {
            return Err(mul_err_string(self.rows, self.cols, rhs.rows, rhs.cols));
        }
        let out = Self::mul_core(self, &rhs);
        *self = out;
        Ok(())
    }

    /// `self` raised to a non-negative power of a square matrix, by
    /// exponentiation by squaring.
    fn pow_helper(mat: &Matrix, e: i64) -> (m: Matrix)
        requires
            mat@.wf(),
            mat@.square(),
            e >= 0,
        ensures
            m@ == mpow(mat@, e as nat),
            m@.wf(),
        decreases e,
    {
        if e == 0 {
            let _len: usize = mat.data.len();
            proof {
                assert(mat@.rows * mat@.cols <= usize::MAX);
            }
            Self::identity(mat.rows)
        } else {
            let _len: usize = mat.data.len();
            proof {
                assert(mat@.rows * mat@.cols <= usize::MAX);
            }
            let sq = Self::mul_core(mat, mat);
            let half = Self::pow_helper(&sq, e / 2);
            proof {
                lemma_mpow_shape(sq@, (e / 2) as nat);
                lemma_mpow_square(mat@, (e / 2) as nat);
            }
            if e % 2 == 0 {
                proof {
                    assert(2 * ((e / 2) as int) == e as int);
                }
                half
            } else {
                let res = Self::mul_core(mat, &half);
                proof {
                    assert(2 * ((e / 2) as int) == e - 1);
                    lemma_mpow_one(mat@);
                    lemma_mpow_add(mat@, 1, (e - 1) as nat);
                }
                res
            }
        }
    }

    /// The textual rendering: every element right-aligned to the digit
    /// width of the widest element magnitude (a `-` sign is not counted),
    /// one space between elements, each row newline-terminated, and a
    /// final `Shape: <rows>x<cols>` line.
    pub fn render(&self) -> (s: String)
        requires
            self@.wf(),
        ensures
            s@ == render_rep(self@),
    {
        let rows = self.rows;
        let cols = self.cols;
        let n = self.data.len();
        let mut w: usize = 1;
        let mut t: usize = 0;
        proof {
            assert(self@.data.take(0) =~= Seq::<i64>::empty());
        }
        while t < n
            invariant
                t <= n,
                n == self.data@.len(),
                1 <= w <= 20,
                w as nat == max_wlen(self@.data.take(t as int)),
            decreases n - t,
        {
            let cw = width_of(self.data[t]);
            if cw > w {
                w = cw;
            }
            proof {
                assert(self@.data.take(t + 1).drop_last() =~= self@.data.take(t as int));
                assert(self@.data.take(t + 1).last() == self@.data[t as int]);
            }
            t += 1;
        }
        proof {
            assert(self@.data.take(n as int) =~= self@.data);
        }
        let mut s = String::new();
        let mut i: usize = 0;
        while i < rows
            invariant
                i <= rows,
                rows == self.rows,
                cols == self.cols,
                n == self.data@.len(),
                self@.wf(),
                1 <= w <= 20,
                w as nat == max_wlen(self@.data),
                s@ == rows_rep(self@, i as int, w as nat),
            decreases rows - i,
        {
            let mut j: usize = 0;
            while j < cols
                invariant
                    j <= cols,
                    i < rows,
                    rows == self.rows,
                    cols == self.cols,
                    n == self.data@.len(),
                    self@.wf(),
                    1 <= w <= 20,
                    w as nat == max_wlen(self@.data),
                    s@ == rows_rep(self@, i as int, w as nat) + row_rep(
                        self@,
                        i as int,
                        j as int,
                        w as nat,
                    ),
                decreases cols - j,
            {
                proof {
                    lemma_flat_index(i as int, j as int, rows as int, cols as int);
                    lemma_max_wlen_ge(self@.data, i as int * (cols as int) + j as int);
                }
                let e = self.data[i * cols + j];
                let cw = width_of(e);
                let ghost base = s@;
                let mut p: usize = cw;
                proof {
                    assert(base + spaces(0) =~= base);
                }
                while p < w
                    invariant
                        cw <= p <= w,
                        s@ == base + spaces((p - cw) as nat),
                    decreases w - p,
                {
                    s.append(" ");
                    proof {
                        reveal_strlit(" ");
                        assert(spaces((p + 1 - cw) as nat) =~= spaces((p - cw) as nat) + " "@);
                        assert(s@ =~= base + spaces((p + 1 - cw) as nat));
                    }
                    p += 1;
                }
                let e_str = i64_to_string(e);
                s.append(e_str.as_str());
                if j + 1 < cols {
                    s.append(" ");
                    proof {
                        reveal_strlit(" ");
                    }
                }
                proof {
                    assert(s@ =~= rows_rep(self@, i as int, w as nat) + row_rep(
                        self@,
                        i as int,
                        j + 1,
                        w as nat,
                    ));
                }
                j += 1;
            }
            s.append("\n");
            proof {
                reveal_strlit("\n");
                assert("\n"@ =~= seq!['\n']);
                assert(s@ =~= rows_rep(self@, i + 1, w as nat));
            }
            i += 1;
        }
        s.append("Shape: ");
        let r_str = usize_to_string(self.rows);
        s.append(r_str.as_str());
        s.append("x");
        let c_str = usize_to_string(self.cols);
        s.append(c_str.as_str());
        proof {
            reveal_strlit("x");
            assert("x"@ =~= seq!['x']);
            assert(s@ =~= render_rep(self@));
        }
        s
    }

    /// `self` raised to the power `exponent`.  The matrix must be square and
    /// the exponent non-negative; exponent zero gives the identity.
    pub fn pow(&self, exponent: i64) -> (m: Matrix)
        requires
            self@.wf(),
            self@.square(),
            exponent >= 0,
        ensures
            m@ == mpow(self@, exponent as nat),
            m@.wf(),
    {
        Self::pow_helper(self, exponent)
    }
}

} // verus!
