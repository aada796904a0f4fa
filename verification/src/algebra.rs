//! Algebraic facts about the matrix model: associativity of the product,
//! identity laws, and the laws of the power operation.
//!
//! The central result is [`lemma_mmul_assoc`].  Because every entry of a
//! product is a cropped exact dot product, associativity is proved by
//! relating both cropped double sums to one exact triple sum and
//! exchanging its summation order.

use crate::model::{
    crop, dotx, lemma_crop_exact, lemma_crop_mod, lemma_crop_of_mod_eq, lemma_dotw_is_crop,
    lemma_flat_split, lemma_mident_ent, lemma_mmul_ent, mident, mmul, mpow, wrap_span, MatModel,
};
use vstd::arithmetic::div_mod::{
    lemma_add_mod_noop, lemma_mul_mod_noop_left, lemma_mul_mod_noop_right,
};
use vstd::prelude::*;

verus! {

/// Sums congruent modulo 2^64 stay congruent under addition of congruent terms.
proof fn lemma_add_mod_congruent(x1: int, y1: int, x2: int, y2: int)
    requires
        x1 % wrap_span() == x2 % wrap_span(),
        y1 % wrap_span() == y2 % wrap_span(),
    ensures
        (x1 + y1) % wrap_span() == (x2 + y2) % wrap_span(),
{
    lemma_add_mod_noop(x1, y1, wrap_span());
    lemma_add_mod_noop(x2, y2, wrap_span());
}

/// Congruent left factors give congruent products modulo 2^64.
proof fn lemma_mul_mod_congruent_left(x1: int, x2: int, y: int)
    requires
        x1 % wrap_span() == x2 % wrap_span(),
    ensures
        (x1 * y) % wrap_span() == (x2 * y) % wrap_span(),
{
    lemma_mul_mod_noop_left(x1, y, wrap_span());
    lemma_mul_mod_noop_left(x2, y, wrap_span());
}

/// Congruent right factors give congruent products modulo 2^64.
proof fn lemma_mul_mod_congruent_right(x: int, y1: int, y2: int)
    requires
        y1 % wrap_span() == y2 % wrap_span(),
    ensures
        (x * y1) % wrap_span() == (x * y2) % wrap_span(),
{
    lemma_mul_mod_noop_right(x, y1, wrap_span());
    lemma_mul_mod_noop_right(x, y2, wrap_span());
}

/// One term of the exact triple sum behind `(a b) c`:
/// `a(i, m) * b(m, k) * c(k, j)`.
pub open spec fn trip(
    a: MatModel,
    b: MatModel,
    c: MatModel,
    i: int,
    j: int,
    m: int,
    k: int,
) -> int {
    ((a.ent(i, m) as int) * (b.ent(m, k) as int)) * (c.ent(k, j) as int)
}

/// The triple sum over `m < mm` for a fixed `k`.
pub open spec fn trip_sum_m(
    a: MatModel,
    b: MatModel,
    c: MatModel,
    i: int,
    j: int,
    k: int,
    mm: int,
) -> int
    decreases mm,
{
    if mm <= 0 {
        0
    } else {
        trip_sum_m(a, b, c, i, j, k, mm - 1) + trip(a, b, c, i, j, mm - 1, k)
    }
}

/// The triple sum over `k < kk` for a fixed `m`.
pub open spec fn trip_sum_k(
    a: MatModel,
    b: MatModel,
    c: MatModel,
    i: int,
    j: int,
    m: int,
    kk: int,
) -> int
    decreases kk,
{
    if kk <= 0 {
        0
    } else {
        trip_sum_k(a, b, c, i, j, m, kk - 1) + trip(a, b, c, i, j, m, kk - 1)
    }
}

/// The full triple sum, summed over `k` first, then `m`.
pub open spec fn trip_sum_km(
    a: MatModel,
    b: MatModel,
    c: MatModel,
    i: int,
    j: int,
    kk: int,
    mm: int,
) -> int
    decreases kk,
{
    if kk <= 0 {
        0
    } else {
        trip_sum_km(a, b, c, i, j, kk - 1, mm) + trip_sum_m(a, b, c, i, j, kk - 1, mm)
    }
}

/// The full triple sum, summed over `m` first, then `k`.
pub open spec fn trip_sum_mk(
    a: MatModel,
    b: MatModel,
    c: MatModel,
    i: int,
    j: int,
    kk: int,
    mm: int,
) -> int
    decreases mm,
{
    if mm <= 0 {
        0
    } else {
        trip_sum_mk(a, b, c, i, j, kk, mm - 1) + trip_sum_k(a, b, c, i, j, mm - 1, kk)
    }
}

/// A dot product scaled on the right distributes into a triple sum over `m`.
proof fn lemma_dotx_scale_right(
    a: MatModel,
    b: MatModel,
    c: MatModel,
    i: int,
    j: int,
    k: int,
    mm: int,
)
    ensures
        dotx(a, b, i, k, mm) * (c.ent(k, j) as int) == trip_sum_m(a, b, c, i, j, k, mm),
    decreases mm,
{
    if mm <= 0 {
    } else {
        lemma_dotx_scale_right(a, b, c, i, j, k, mm - 1);
        let s = dotx(a, b, i, k, mm - 1);
        let p = (a.ent(i, mm - 1) as int) * (b.ent(mm - 1, k) as int);
        let z = c.ent(k, j) as int;
        assert((s + p) * z == s * z + p * z) by (nonlinear_arith);
    }
}

/// A dot product scaled on the left distributes into a triple sum over `k`.
proof fn lemma_dotx_scale_left(
    a: MatModel,
    b: MatModel,
    c: MatModel,
    i: int,
    j: int,
    m: int,
    kk: int,
)
    ensures
        (a.ent(i, m) as int) * dotx(b, c, m, j, kk) == trip_sum_k(a, b, c, i, j, m, kk),
    decreases kk,
{
    if kk <= 0 {
    } else {
        lemma_dotx_scale_left(a, b, c, i, j, m, kk - 1);
        let s = dotx(b, c, m, j, kk - 1);
        let p = (b.ent(m, kk - 1) as int) * (c.ent(kk - 1, j) as int);
        let z = a.ent(i, m) as int;
        assert(z * (s + p) == z * s + z * p) by (nonlinear_arith);
        let x = b.ent(m, kk - 1) as int;
        let y = c.ent(kk - 1, j) as int;
        assert(z * (x * y) == (z * x) * y) by (nonlinear_arith);
    }
}

/// The triple sum over no `k` terms is zero however many `m` terms there are.
proof fn lemma_trip_sum_mk_zero(
    a: MatModel,
    b: MatModel,
    c: MatModel,
    i: int,
    j: int,
    kk: int,
    mm: int,
)
    requires
        kk <= 0,
    ensures
        trip_sum_mk(a, b, c, i, j, kk, mm) == 0,
    decreases mm,
{
    if mm > 0 {
        lemma_trip_sum_mk_zero(a, b, c, i, j, kk, mm - 1);
    }
}

/// Peeling the last `k` layer off the `m`-first triple sum.
proof fn lemma_trip_sum_mk_unfold(
    a: MatModel,
    b: MatModel,
    c: MatModel,
    i: int,
    j: int,
    kk: int,
    mm: int,
)
    requires
        kk >= 1,
    ensures
        trip_sum_mk(a, b, c, i, j, kk, mm) == trip_sum_mk(a, b, c, i, j, kk - 1, mm)
            + trip_sum_m(a, b, c, i, j, kk - 1, mm),
    decreases mm,
{
    if mm > 0 {
        lemma_trip_sum_mk_unfold(a, b, c, i, j, kk, mm - 1);
    }
}

/// The order of summation of the triple sum does not matter.
proof fn lemma_trip_sum_exchange(
    a: MatModel,
    b: MatModel,
    c: MatModel,
    i: int,
    j: int,
    kk: int,
    mm: int,
)
    ensures
        trip_sum_km(a, b, c, i, j, kk, mm) == trip_sum_mk(a, b, c, i, j, kk, mm),
    decreases kk,
{
    if kk <= 0 {
        lemma_trip_sum_mk_zero(a, b, c, i, j, kk, mm);
    } else {
        lemma_trip_sum_exchange(a, b, c, i, j, kk - 1, mm);
        lemma_trip_sum_mk_unfold(a, b, c, i, j, kk, mm);
    }
}

/// The exact dot product behind an entry of `(a b) c` is congruent to the
/// triple sum summed over `k` then `m`.
proof fn lemma_left_product_mod(
    a: MatModel,
    b: MatModel,
    c: MatModel,
    i: int,
    j: int,
    kk: int,
)
    requires
        a.cols == b.rows,
        0 <= i < a.rows,
        0 <= j < c.cols,
        0 <= kk <= b.cols,
    ensures
        dotx(mmul(a, b), c, i, j, kk) % wrap_span() == trip_sum_km(
            a,
            b,
            c,
            i,
            j,
            kk,
            a.cols as int,
        ) % wrap_span(),
    decreases kk,
{
    if kk > 0 {
        lemma_left_product_mod(a, b, c, i, j, kk - 1);
        let k = kk - 1;
        lemma_mmul_ent(a, b, i, k);
        lemma_dotw_is_crop(a, b, i, k, a.cols as int);
        let xab = dotx(a, b, i, k, a.cols as int);
        let z = c.ent(k, j) as int;
        lemma_crop_mod(xab);
        lemma_mul_mod_congruent_left(crop(xab) as int, xab, z);
        lemma_dotx_scale_right(a, b, c, i, j, k, a.cols as int);
        lemma_add_mod_congruent(
            dotx(mmul(a, b), c, i, j, kk - 1),
            (mmul(a, b).ent(i, k) as int) * z,
            trip_sum_km(a, b, c, i, j, kk - 1, a.cols as int),
            trip_sum_m(a, b, c, i, j, k, a.cols as int),
        );
    }
}

/// The exact dot product behind an entry of `a (b c)` is congruent to the
/// triple sum summed over `m` then `k`.
proof fn lemma_right_product_mod(
    a: MatModel,
    b: MatModel,
    c: MatModel,
    i: int,
    j: int,
    mm: int,
)
    requires
        b.cols == c.rows,
        0 <= i < a.rows,
        0 <= j < c.cols,
        0 <= mm <= b.rows,
    ensures
        dotx(a, mmul(b, c), i, j, mm) % wrap_span() == trip_sum_mk(
            a,
            b,
            c,
            i,
            j,
            b.cols as int,
            mm,
        ) % wrap_span(),
    decreases mm,
{
    if mm > 0 {
        lemma_right_product_mod(a, b, c, i, j, mm - 1);
        let m = mm - 1;
        lemma_mmul_ent(b, c, m, j);
        lemma_dotw_is_crop(b, c, m, j, b.cols as int);
        let xbc = dotx(b, c, m, j, b.cols as int);
        let z = a.ent(i, m) as int;
        lemma_crop_mod(xbc);
        lemma_mul_mod_congruent_right(z, crop(xbc) as int, xbc);
        lemma_dotx_scale_left(a, b, c, i, j, m, b.cols as int);
        lemma_add_mod_congruent(
            dotx(a, mmul(b, c), i, j, mm - 1),
            z * (mmul(b, c).ent(m, j) as int),
            trip_sum_mk(a, b, c, i, j, b.cols as int, mm - 1),
            trip_sum_k(a, b, c, i, j, m, b.cols as int),
        );
    }
}

/// Matrix multiplication is associative.
pub proof fn lemma_mmul_assoc(a: MatModel, b: MatModel, c: MatModel)
    requires
        a.wf(),
        b.wf(),
        c.wf(),
        a.cols == b.rows,
        b.cols == c.rows,
    ensures
        mmul(mmul(a, b), c) == mmul(a, mmul(b, c)),
{
    let lhs = mmul(mmul(a, b), c);
    let rhs = mmul(a, mmul(b, c));
    assert forall|t: int| 0 <= t < a.rows * c.cols implies lhs.data[t] == rhs.data[t] by {
        assert(c.cols > 0) by (nonlinear_arith)
            requires
                0 <= t < a.rows * c.cols,
        ;
        lemma_flat_split(t, a.rows as int, c.cols as int);
        let i = t / (c.cols as int);
        let j = t % (c.cols as int);
        lemma_left_product_mod(a, b, c, i, j, b.cols as int);
        lemma_right_product_mod(a, b, c, i, j, a.cols as int);
        lemma_trip_sum_exchange(a, b, c, i, j, b.cols as int, a.cols as int);
        lemma_dotw_is_crop(mmul(a, b), c, i, j, b.cols as int);
        lemma_dotw_is_crop(a, mmul(b, c), i, j, a.cols as int);
        lemma_crop_of_mod_eq(
            dotx(mmul(a, b), c, i, j, b.cols as int),
            dotx(a, mmul(b, c), i, j, a.cols as int),
        );
    }
    assert(lhs.data =~= rhs.data);
    assert(lhs =~= rhs);
}

/// The partial dot product against the identity on the left picks out one entry.
proof fn lemma_dotx_ident_left(a: MatModel, i: int, j: int, kk: int)
    requires
        0 <= i < a.rows,
        0 <= kk <= a.rows,
    ensures
        dotx(mident(a.rows), a, i, j, kk) == if i < kk {
            a.ent(i, j) as int
        } else {
            0
        },
    decreases kk,
{
    if kk > 0 {
        lemma_dotx_ident_left(a, i, j, kk - 1);
        lemma_mident_ent(a.rows, i, kk - 1);
    }
}

/// Multiplying by the identity on the left changes nothing.
pub proof fn lemma_mmul_ident_left(a: MatModel)
    requires
        a.wf(),
    ensures
        mmul(mident(a.rows), a) == a,
{
    let lhs = mmul(mident(a.rows), a);
    assert forall|t: int| 0 <= t < a.rows * a.cols implies lhs.data[t] == a.data[t] by {
        lemma_flat_split(t, a.rows as int, a.cols as int);
        let i = t / (a.cols as int);
        let j = t % (a.cols as int);
        lemma_dotx_ident_left(a, i, j, a.rows as int);
        lemma_dotw_is_crop(mident(a.rows), a, i, j, a.rows as int);
        lemma_crop_exact(a.ent(i, j) as int);
    }
    assert(lhs.data =~= a.data);
    assert(lhs =~= a);
}

/// The partial dot product against the identity on the right picks out one entry.
proof fn lemma_dotx_ident_right(a: MatModel, i: int, j: int, kk: int)
    requires
        0 <= j < a.cols,
        0 <= kk <= a.cols,
    ensures
        dotx(a, mident(a.cols), i, j, kk) == if j < kk {
            a.ent(i, j) as int
        } else {
            0
        },
    decreases kk,
{
    if kk > 0 {
        lemma_dotx_ident_right(a, i, j, kk - 1);
        lemma_mident_ent(a.cols, kk - 1, j);
    }
}

/// Multiplying by the identity on the right changes nothing.
pub proof fn lemma_mmul_ident_right(a: MatModel)
    requires
        a.wf(),
    ensures
        mmul(a, mident(a.cols)) == a,
{
    let lhs = mmul(a, mident(a.cols));
    assert forall|t: int| 0 <= t < a.rows * a.cols implies lhs.data[t] == a.data[t] by {
        lemma_flat_split(t, a.rows as int, a.cols as int);
        let i = t / (a.cols as int);
        let j = t % (a.cols as int);
        lemma_dotx_ident_right(a, i, j, a.cols as int);
        lemma_dotw_is_crop(a, mident(a.cols), i, j, a.cols as int);
        lemma_crop_exact(a.ent(i, j) as int);
    }
    assert(lhs.data =~= a.data);
    assert(lhs =~= a);
}

/// Powers of a square matrix keep its shape.
pub proof fn lemma_mpow_shape(a: MatModel, e: nat)
    requires
        a.wf(),
        a.square(),
    ensures
        mpow(a, e).wf(),
        mpow(a, e).rows == a.rows,
        mpow(a, e).cols == a.cols,
    decreases e,
{
    if e > 0 {
        lemma_mpow_shape(a, (e - 1) as nat);
    }
}

/// The first power is the matrix itself.
pub proof fn lemma_mpow_one(a: MatModel)
    requires
        a.wf(),
        a.square(),
    ensures
        mpow(a, 1) == a,
{
    assert(mpow(a, 0) == mident(a.rows));
    assert(mpow(a, 1) == mmul(mident(a.rows), a));
    lemma_mmul_ident_left(a);
}

/// Powers add: `a^(x + y) == a^x * a^y`.
pub proof fn lemma_mpow_add(a: MatModel, x: nat, y: nat)
    requires
        a.wf(),
        a.square(),
    ensures
        mpow(a, x + y) == mmul(mpow(a, x), mpow(a, y)),
    decreases y,
{
    lemma_mpow_shape(a, x);
    if y == 0 {
        lemma_mpow_shape(a, x);
        lemma_mmul_ident_right(mpow(a, x));
    } else {
        lemma_mpow_add(a, x, (y - 1) as nat);
        lemma_mpow_shape(a, (y - 1) as nat);
        lemma_mmul_assoc(mpow(a, x), mpow(a, (y - 1) as nat), a);
        assert(x + y - 1 == x + (y - 1) as nat);
    }
}

/// Powers of the square of a matrix are even powers of the matrix.
pub proof fn lemma_mpow_square(a: MatModel, k: nat)
    requires
        a.wf(),
        a.square(),
    ensures
        mpow(mmul(a, a), k) == mpow(a, 2 * k),
    decreases k,
{
    let aa = mmul(a, a);
    if k == 0 {
    } else {
        lemma_mpow_square(a, (k - 1) as nat);
        lemma_mpow_one(a);
        lemma_mpow_add(a, 1, 1);
        assert(mpow(a, 2) == mmul(a, a));
        lemma_mpow_add(a, (2 * k - 2) as nat, 2);
        assert(2 * k - 2 + 2 == 2 * k);
    }
}

} // verus!
