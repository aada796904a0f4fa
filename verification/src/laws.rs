//! The algebraic laws of the library, stated over the model and proved.
//!
//! Each law is stated over the same spec functions that the executable
//! operations' contracts use, so together with those contracts it holds of
//! the executable results.

use crate::algebra::{lemma_mpow_add, lemma_mpow_one};
use crate::model::{
    lemma_flat_index, lemma_flat_split, lemma_mident_ent, madd, mconst, mident, mmul, mpow,
    mscale, mtrans, wmul, MatModel,
};
use vstd::prelude::*;

verus! {

/// A matrix filled from a scalar holds that scalar at every position.
pub proof fn lemma_from_scalar_entries(rows: nat, cols: nat, val: i64, i: int, j: int)
    requires
        0 <= i < rows,
        0 <= j < cols,
    ensures
        mconst(rows, cols, val).wf(),
        mconst(rows, cols, val).ent(i, j) == val,
{
    lemma_flat_index(i, j, rows as int, cols as int);
}

/// The identity matrix holds 1 on the diagonal and 0 elsewhere.
pub proof fn lemma_identity_entries(n: nat, i: int, j: int)
    requires
        0 <= i < n,
        0 <= j < n,
    ensures
        mident(n).ent(i, i) == 1i64,
        i != j ==> mident(n).ent(i, j) == 0i64,
{
    lemma_mident_ent(n, i, i);
    lemma_mident_ent(n, i, j);
}

/// Matrix equality is reflexive.
pub proof fn lemma_eq_reflexive(a: MatModel)
    ensures
        a == a,
{
}

/// Matrix equality is symmetric.
pub proof fn lemma_eq_symmetric(a: MatModel, b: MatModel)
    ensures
        (a == b) == (b == a),
{
}

/// Matrices of different shapes are never equal, whatever they hold.
pub proof fn lemma_eq_shape_sensitive(a: MatModel, b: MatModel)
    requires
        a.rows != b.rows || a.cols != b.cols,
    ensures
        a != b,
{
}

/// Addition of same-shaped matrices is commutative.
pub proof fn lemma_add_commutes(a: MatModel, b: MatModel)
    requires
        a.wf(),
        b.wf(),
        a.rows == b.rows,
        a.cols == b.cols,
    ensures
        madd(a, b) == madd(b, a),
{
    assert(madd(a, b).data =~= madd(b, a).data);
    assert(madd(a, b) =~= madd(b, a));
}

/// Transposing twice gives the original matrix back.
pub proof fn lemma_transpose_involution(a: MatModel)
    requires
        a.wf(),
    ensures
        mtrans(mtrans(a)) == a,
{
    let tt = mtrans(mtrans(a));
    assert forall|t: int| 0 <= t < a.rows * a.cols implies tt.data[t] == a.data[t] by {
        assert(a.cols > 0) by (nonlinear_arith)
            requires
                0 <= t < a.rows * a.cols,
        ;
        lemma_flat_split(t, a.rows as int, a.cols as int);
        let i = t / (a.cols as int);
        let j = t % (a.cols as int);
        lemma_flat_index(j, i, a.cols as int, a.rows as int);
    }
    assert(tt.data =~= a.data);
    assert(tt =~= a);
}

/// The zeroth power of any square matrix is the identity, whatever it holds.
pub proof fn lemma_pow_zero(a: MatModel)
    ensures
        mpow(a, 0) == mident(a.rows),
{
}

/// The first power of a square matrix is the matrix itself.
pub proof fn lemma_pow_one(a: MatModel)
    requires
        a.wf(),
        a.square(),
    ensures
        mpow(a, 1) == a,
{
    lemma_mpow_one(a);
}

/// Powers with added exponents multiply: `a^(x + y) == a^x * a^y`.
pub proof fn lemma_pow_additive(a: MatModel, x: nat, y: nat)
    requires
        a.wf(),
        a.square(),
    ensures
        mpow(a, x + y) == mmul(mpow(a, x), mpow(a, y)),
{
    lemma_mpow_add(a, x, y);
}

/// Scaling by `s` from either side gives the same matrix: each element of
/// `mscale` is the wrapping product in either factor order.
pub proof fn lemma_scalar_factor_order(a: MatModel, s: i64, i: int, j: int)
    requires
        a.wf(),
        0 <= i < a.rows,
        0 <= j < a.cols,
    ensures
        mscale(a, s).wf(),
        mscale(a, s).ent(i, j) == wmul(a.ent(i, j), s),
        wmul(a.ent(i, j), s) == wmul(s, a.ent(i, j)),
{
    lemma_flat_index(i, j, a.rows as int, a.cols as int);
    let x = a.ent(i, j);
    assert((x as int) * (s as int) == (s as int) * (x as int)) by (nonlinear_arith);
}

} // verus!
