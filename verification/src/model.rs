//! The mathematical model of a matrix and of its wrapping arithmetic.
//!
//! `MatModel` is the abstract value of a matrix: a shape and a flat
//! row-major sequence of `i64` elements.  Element arithmetic is
//! two's-complement wrapping addition and multiplication, written `wadd`
//! and `wmul`; `crop` reduces an unbounded integer into the `i64` range
//! modulo 2^64.

use vstd::arithmetic::div_mod::{
    lemma_add_mod_noop, lemma_fundamental_div_mod, lemma_fundamental_div_mod_converse,
    lemma_mod_bound, lemma_mod_multiples_vanish, lemma_mod_twice, lemma_small_mod,
};
use vstd::prelude::*;
use vstd::wrapping::i64_specs;

verus! {

/// The size of the `i64` value space: 2^64.
pub open spec fn wrap_span() -> int {
    0x1_0000_0000_0000_0000
}

/// An unbounded integer reduced into the `i64` range, modulo 2^64.
pub open spec fn crop(x: int) -> i64 {
    i64_specs::signed_crop(x)
}

/// Wrapping addition of two elements.
pub open spec fn wadd(x: i64, y: i64) -> i64 {
    i64_specs::wrapping_add(x, y)
}

/// Wrapping multiplication of two elements.
pub open spec fn wmul(x: i64, y: i64) -> i64 {
    i64_specs::wrapping_mul(x, y)
}

/// `crop` only depends on the argument's residue modulo 2^64.
pub proof fn lemma_crop_mod(x: int)
    ensures
        (crop(x) as int) % wrap_span() == x % wrap_span(),
{
    let w = wrap_span();
    lemma_mod_bound(x, w);
    lemma_mod_twice(x, w);
    if x % w > i64::MAX as int {
        assert(crop(x) as int == x % w - w);
        lemma_mod_multiples_vanish(-1, x % w, w);
        assert(w * -1 + x % w == x % w - w);
    }
}

/// `crop` is the identity on values already in the `i64` range.
pub proof fn lemma_crop_exact(x: int)
    requires
        i64::MIN <= x <= i64::MAX,
    ensures
        crop(x) as int == x,
{
    let w = wrap_span();
    if x >= 0 {
        lemma_small_mod(x as nat, w as nat);
    } else {
        lemma_mod_multiples_vanish(1, x, w);
        assert(w * 1 + x == x + w);
        lemma_small_mod((x + w) as nat, w as nat);
    }
}

/// Equal residues give equal cropped values.
pub proof fn lemma_crop_of_mod_eq(x: int, y: int)
    requires
        x % wrap_span() == y % wrap_span(),
    ensures
        crop(x) == crop(y),
{
}

/// Cropping an addend before the addition does not change the cropped sum.
pub proof fn lemma_crop_add_left(x: int, y: int)
    ensures
        crop(crop(x) as int + y) == crop(x + y),
{
    let w = wrap_span();
    lemma_crop_mod(x);
    lemma_add_mod_noop(crop(x) as int, y, w);
    lemma_add_mod_noop(x, y, w);
    lemma_crop_of_mod_eq(crop(x) as int + y, x + y);
}

/// Wrapping addition is cropped exact addition.
pub proof fn lemma_wadd_is_crop(x: i64, y: i64)
    ensures
        wadd(x, y) == crop(x as int + y as int),
{
    let w = wrap_span();
    let s = x as int + y as int;
    if i64::MIN <= s <= i64::MAX {
        lemma_crop_exact(s);
    } else if s > i64::MAX {
        lemma_small_mod(s as nat, w as nat);
    } else {
        lemma_mod_multiples_vanish(1, s, w);
        assert(w * 1 + s == s + w);
        lemma_small_mod((s + w) as nat, w as nat);
    }
}

/// The abstract value of a matrix: a shape and a flat row-major sequence.
#[verifier::ext_equal]
pub struct MatModel {
    pub rows: nat,
    pub cols: nat,
    pub data: Seq<i64>,
}

impl MatModel {
    /// The storage invariant: the flat data holds exactly `rows * cols` elements.
    pub open spec fn wf(self) -> bool {
        self.data.len() == self.rows * self.cols
    }

    /// The element in row `i`, column `j` (zero-based, row-major).
    pub open spec fn ent(self, i: int, j: int) -> i64 {
        self.data[i * self.cols + j]
    }

    /// Whether the matrix is square.
    pub open spec fn square(self) -> bool {
        self.rows == self.cols
    }
}

/// A `rows` x `cols` matrix with every element equal to `val`.
pub open spec fn mconst(rows: nat, cols: nat, val: i64) -> MatModel {
    MatModel { rows, cols, data: Seq::new(rows * cols, |t: int| val) }
}

/// The `n` x `n` identity matrix: 1 on the main diagonal, 0 elsewhere.
pub open spec fn mident(n: nat) -> MatModel {
    MatModel {
        rows: n,
        cols: n,
        data: Seq::new(
            n * n,
            |t: int| if t / (n as int) == t % (n as int) { 1i64 } else { 0i64 },
        ),
    }
}

/// `a` with the element at `(i, j)` replaced by `v`.
pub open spec fn mset(a: MatModel, i: int, j: int, v: i64) -> MatModel {
    MatModel { rows: a.rows, cols: a.cols, data: a.data.update(i * a.cols + j, v) }
}

/// Element-wise wrapping sum of two matrices of the same shape.
pub open spec fn madd(a: MatModel, b: MatModel) -> MatModel {
    MatModel {
        rows: a.rows,
        cols: a.cols,
        data: Seq::new(a.rows * a.cols, |t: int| wadd(a.data[t], b.data[t])),
    }
}

/// Every element multiplied (wrapping) by the scalar `s`.
pub open spec fn mscale(a: MatModel, s: i64) -> MatModel {
    MatModel { rows: a.rows, cols: a.cols, data: a.data.map_values(|x: i64| wmul(x, s)) }
}

/// The transpose: shape `(cols, rows)`, entry `(i, j)` taken from `(j, i)`.
pub open spec fn mtrans(a: MatModel) -> MatModel {
    MatModel {
        rows: a.cols,
        cols: a.rows,
        data: Seq::new(
            a.cols * a.rows,
            |t: int| a.ent(t % (a.rows as int), t / (a.rows as int)),
        ),
    }
}

/// The wrapping dot product of row `i` of `a` with column `j` of `b`,
/// accumulated left to right over the first `n` terms.
pub open spec fn dotw(a: MatModel, b: MatModel, i: int, j: int, n: int) -> i64
    decreases n,
{
    if n <= 0 {
        0i64
    } else {
        wadd(dotw(a, b, i, j, n - 1), wmul(a.ent(i, n - 1), b.ent(n - 1, j)))
    }
}

/// The exact (unbounded) dot product of row `i` of `a` with column `j` of `b`
/// over the first `n` terms.
pub open spec fn dotx(a: MatModel, b: MatModel, i: int, j: int, n: int) -> int
    decreases n,
{
    if n <= 0 {
        0
    } else {
        dotx(a, b, i, j, n - 1) + (a.ent(i, n - 1) as int) * (b.ent(n - 1, j) as int)
    }
}

/// The wrapping dot product is the exact dot product, cropped.
pub proof fn lemma_dotw_is_crop(a: MatModel, b: MatModel, i: int, j: int, n: int)
    ensures
        dotw(a, b, i, j, n) == crop(dotx(a, b, i, j, n)),
    decreases n,
{
    if n <= 0 {
        lemma_crop_exact(0);
    } else {
        lemma_dotw_is_crop(a, b, i, j, n - 1);
        let s = dotx(a, b, i, j, n - 1);
        let p = (a.ent(i, n - 1) as int) * (b.ent(n - 1, j) as int);
        lemma_wadd_is_crop(crop(s), crop(p));
        lemma_crop_add_left(s, crop(p) as int);
        lemma_crop_add_left(p, s);
        assert(s + crop(p) as int == crop(p) as int + s);
    }
}

/// Matrix product: shape `(a.rows, b.cols)`, each entry the wrapping dot
/// product of a row of `a` with a column of `b` over `a.cols` terms.
pub open spec fn mmul(a: MatModel, b: MatModel) -> MatModel {
    MatModel {
        rows: a.rows,
        cols: b.cols,
        data: Seq::new(
            a.rows * b.cols,
            |t: int| dotw(a, b, t / (b.cols as int), t % (b.cols as int), a.cols as int),
        ),
    }
}

/// `a` raised to the `e`-th power: the identity for `e == 0`, otherwise
/// `e` successive multiplications by `a`.
pub open spec fn mpow(a: MatModel, e: nat) -> MatModel
    decreases e,
{
    if e == 0 {
        mident(a.rows)
    } else {
        mmul(mpow(a, (e - 1) as nat), a)
    }
}

/// Row-major flattening: the flat offset of `(i, j)` and its bounds.
pub proof fn lemma_flat_index(i: int, j: int, r: int, c: int)
    requires
        0 <= i < r,
        0 <= j < c,
    ensures
        0 <= i * c + j < r * c,
        (i * c + j) / c == i,
        (i * c + j) % c == j,
{
    lemma_fundamental_div_mod_converse(i * c + j, c, i, j);
    assert(0 <= i * c + j && i * c + j < r * c) by (nonlinear_arith)
        requires
            0 <= i < r,
            0 <= j < c,
    ;
}

/// Row-major un-flattening: a flat offset splits into an in-range row and column.
pub proof fn lemma_flat_split(t: int, r: int, c: int)
    requires
        0 <= t < r * c,
        0 < c,
    ensures
        0 <= t / c < r,
        0 <= t % c < c,
        t == (t / c) * c + t % c,
{
    lemma_fundamental_div_mod(t, c);
    lemma_mod_bound(t, c);
    assert(t / c >= 0 && t / c < r) by (nonlinear_arith)
        requires
            0 <= t < r * c,
            0 < c,
            t == c * (t / c) + t % c,
            0 <= t % c < c,
    ;
    assert(c * (t / c) == (t / c) * c) by (nonlinear_arith);
}

/// The shape and entries of a matrix product.
pub proof fn lemma_mmul_ent(a: MatModel, b: MatModel, i: int, j: int)
    requires
        0 <= i < a.rows,
        0 <= j < b.cols,
    ensures
        mmul(a, b).wf(),
        mmul(a, b).ent(i, j) == dotw(a, b, i, j, a.cols as int),
{
    lemma_flat_index(i, j, a.rows as int, b.cols as int);
}

/// The entries of the identity matrix.
pub proof fn lemma_mident_ent(n: nat, i: int, j: int)
    requires
        0 <= i < n,
        0 <= j < n,
    ensures
        mident(n).wf(),
        mident(n).ent(i, j) == if i == j { 1i64 } else { 0i64 },
{
    lemma_flat_index(i, j, n as int, n as int);
}

} // verus!
