//! Verified text: decimal renderings of integers, the error messages, and
//! the textual rendering of a matrix.
//!
//! `dec_rep` is the decimal digit sequence of a natural number and
//! `int_rep` the signed form; the executable converters are proved to
//! produce exactly those sequences.  `render_rep` is the full rendering of
//! a matrix: every element right-aligned to the width of the widest
//! element's magnitude, rows newline-terminated, and a final
//! `Shape: <rows>x<cols>` line.

use crate::model::MatModel;
use vstd::arithmetic::div_mod::lemma_fundamental_div_mod;
use vstd::prelude::*;
use vstd::string::StringExecFns;

verus! {

/// The character for a single decimal digit.
pub open spec fn digit_char(d: int) -> char {
    if d == 0 {
        '0'
    } else if d == 1 {
        '1'
    } else if d == 2 {
        '2'
    } else if d == 3 {
        '3'
    } else if d == 4 {
        '4'
    } else if d == 5 {
        '5'
    } else if d == 6 {
        '6'
    } else if d == 7 {
        '7'
    } else if d == 8 {
        '8'
    } else {
        '9'
    }
}

/// The decimal digits of `n`, most significant first.
pub open spec fn dec_rep(n: nat) -> Seq<char>
    decreases n,
{
    if n < 10 {
        seq![digit_char(n as int)]
    } else {
        dec_rep(n / 10).push(digit_char((n % 10) as int))
    }
}

/// The decimal rendering of a signed integer: a leading `-` for negatives.
pub open spec fn int_rep(v: int) -> Seq<char> {
    if v < 0 {
        seq!['-'] + dec_rep((-v) as nat)
    } else {
        dec_rep(v as nat)
    }
}

/// The magnitude of an element.
pub open spec fn mag(v: i64) -> nat {
    if v < 0 {
        (-(v as int)) as nat
    } else {
        v as nat
    }
}

/// The printed digit width of an element: the digit count of its magnitude.
pub open spec fn wlen(v: i64) -> nat {
    dec_rep(mag(v)).len()
}

/// The common column width: the widest element magnitude, with a floor of one digit.
pub open spec fn max_wlen(s: Seq<i64>) -> nat
    decreases s.len(),
{
    if s.len() == 0 {
        1
    } else {
        let rest = max_wlen(s.drop_last());
        let w = wlen(s.last());
        if w > rest {
            w
        } else {
            rest
        }
    }
}

/// `n` space characters.
pub open spec fn spaces(n: nat) -> Seq<char> {
    Seq::new(n, |t: int| ' ')
}

/// Powers of ten.
pub open spec fn pow10(k: nat) -> nat
    decreases k,
{
    if k == 0 {
        1
    } else {
        10 * pow10((k - 1) as nat)
    }
}

/// A decimal rendering has at least one digit.
pub proof fn lemma_dec_rep_len_pos(n: nat)
    ensures
        dec_rep(n).len() >= 1,
    decreases n,
{
    if n >= 10 {
        lemma_dec_rep_len_pos(n / 10);
    }
}

/// A number below `10^k` has at most `k` digits.
proof fn lemma_dec_rep_len_bound(n: nat, k: nat)
    requires
        n < pow10(k),
        k >= 1,
    ensures
        dec_rep(n).len() <= k,
    decreases k,
{
    if n < 10 {
    } else {
        assert(pow10(1) == 10) by {
            reveal_with_fuel(pow10, 2);
        }
        lemma_fundamental_div_mod(n as int, 10);
        if n / 10 >= pow10((k - 1) as nat) {
            assert(10 * (n as int / 10) >= 10 * pow10((k - 1) as nat)) by (nonlinear_arith)
                requires
                    n as int / 10 >= pow10((k - 1) as nat),
            ;
            assert(false);
        }
        lemma_dec_rep_len_bound(n / 10, (k - 1) as nat);
    }
}

/// Any `u64` value has at most 20 decimal digits.
pub proof fn lemma_dec_rep_u64_bound(n: nat)
    requires
        n < 0x1_0000_0000_0000_0000,
    ensures
        dec_rep(n).len() <= 20,
{
    assert(pow10(20) == 100000000000000000000) by {
        reveal_with_fuel(pow10, 21);
    }
    lemma_dec_rep_len_bound(n, 20);
}

/// Every element's width is bounded by the common column width.
pub proof fn lemma_max_wlen_ge(s: Seq<i64>, t: int)
    requires
        0 <= t < s.len(),
    ensures
        wlen(s[t]) <= max_wlen(s),
    decreases s.len(),
{
    if t == s.len() - 1 {
    } else {
        lemma_max_wlen_ge(s.drop_last(), t);
    }
}

/// The common column width is at least one.
pub proof fn lemma_max_wlen_pos(s: Seq<i64>)
    ensures
        max_wlen(s) >= 1,
    decreases s.len(),
{
    if s.len() > 0 {
        lemma_max_wlen_pos(s.drop_last());
    }
}

/// One rendered cell of row `i`: padding, the element, and a separating
/// space unless the cell ends its row.
pub open spec fn cell_rep(m: MatModel, i: int, k: int, w: nat) -> Seq<char> {
    let e = m.ent(i, k);
    spaces((w - wlen(e)) as nat) + int_rep(e as int) + if k + 1 < m.cols {
        seq![' ']
    } else {
        Seq::<char>::empty()
    }
}

/// The first `j` cells of row `i`, rendered.
pub open spec fn row_rep(m: MatModel, i: int, j: int, w: nat) -> Seq<char>
    decreases j,
{
    if j <= 0 {
        Seq::empty()
    } else {
        row_rep(m, i, j - 1, w) + cell_rep(m, i, j - 1, w)
    }
}

/// The first `i` rows, each rendered and newline-terminated.
pub open spec fn rows_rep(m: MatModel, i: int, w: nat) -> Seq<char>
    decreases i,
{
    if i <= 0 {
        Seq::empty()
    } else {
        rows_rep(m, i - 1, w) + row_rep(m, i - 1, m.cols as int, w) + seq!['\n']
    }
}

/// The full rendering of a matrix.
pub open spec fn render_rep(m: MatModel) -> Seq<char> {
    rows_rep(m, m.rows as int, max_wlen(m.data)) + "Shape: "@ + dec_rep(m.rows) + seq!['x']
        + dec_rep(m.cols)
}

/// The message reported when two shapes cannot be added.
pub open spec fn shape_add_err(ar: nat, ac: nat, br: nat, bc: nat) -> Seq<char> {
    "Matrices of different shapes cannot be added together. Left("@ + dec_rep(ar) + ", "@
        + dec_rep(ac) + "), Right("@ + dec_rep(br) + ", "@ + dec_rep(bc) + ")"@
}

/// The message reported when two shapes cannot be multiplied.
pub open spec fn shape_mul_err(ar: nat, ac: nat, br: nat, bc: nat) -> Seq<char> {
    "LHS cols must be same as RHS rows to multiply. LHS: ("@ + dec_rep(ar) + ","@ + dec_rep(ac)
        + "), RHS: ("@ + dec_rep(br) + ", "@ + dec_rep(bc) + ")"@
}

/// The message reported for an out-of-bounds element access.
pub open spec fn index_err(ar: nat, ac: nat, i: nat, j: nat) -> Seq<char> {
    "index out of bounds: the shape is ("@ + dec_rep(ar) + ", "@ + dec_rep(ac)
        + ") but the index is ("@ + dec_rep(i) + ", "@ + dec_rep(j) + ")."@
}

/// The one-character string for a decimal digit.
fn digit_str(d: u64) -> (r: &'static str)
    requires
        d < 10,
    ensures
        r@ == seq![digit_char(d as int)],
{
    proof {
        reveal_strlit("0");
        reveal_strlit("1");
        reveal_strlit("2");
        reveal_strlit("3");
        reveal_strlit("4");
        reveal_strlit("5");
        reveal_strlit("6");
        reveal_strlit("7");
        reveal_strlit("8");
        reveal_strlit("9");
    }
    if d == 0 {
        "0"
    } else if d == 1 {
        "1"
    } else if d == 2 {
        "2"
    } else if d == 3 {
        "3"
    } else if d == 4 {
        "4"
    } else if d == 5 {
        "5"
    } else if d == 6 {
        "6"
    } else if d == 7 {
        "7"
    } else if d == 8 {
        "8"
    } else {
        "9"
    }
}

/// The decimal string of a `u64`.
pub fn u64_to_string(n: u64) -> (s: String)
    ensures
        s@ == dec_rep(n as nat),
    decreases n,
{
    if n < 10 {
        digit_str(n).to_owned()
    } else {
        let mut s = u64_to_string(n / 10);
        s.append(digit_str(n % 10));
        proof {
            assert(dec_rep((n / 10) as nat).push(digit_char((n % 10) as int)) =~= dec_rep(
                (n / 10) as nat,
            ) + seq![digit_char((n % 10) as int)]);
        }
        s
    }
}

/// The decimal string of a `usize`.
pub fn usize_to_string(n: usize) -> (s: String)
    ensures
        s@ == dec_rep(n as nat),
    decreases n,
{
    if n < 10 {
        digit_str(n as u64).to_owned()
    } else {
        let mut s = usize_to_string(n / 10);
        s.append(digit_str((n % 10) as u64));
        proof {
            assert(dec_rep((n / 10) as nat).push(digit_char((n % 10) as int)) =~= dec_rep(
                (n / 10) as nat,
            ) + seq![digit_char((n % 10) as int)]);
        }
        s
    }
}

/// The magnitude of an `i64` as a `u64`.
pub fn mag_u64(v: i64) -> (m: u64)
    ensures
        m as nat == mag(v),
{
    if v >= 0 {
        v as u64
    } else if v == i64::MIN {
        9223372036854775808u64
    } else {
        (-v) as u64
    }
}

/// The decimal string of an `i64`, with a leading `-` for negatives.
pub fn i64_to_string(v: i64) -> (s: String)
    ensures
        s@ == int_rep(v as int),
{
    if v >= 0 {
        u64_to_string(v as u64)
    } else {
        let mut s = "-".to_owned();
        proof {
            reveal_strlit("-");
            assert("-"@ =~= seq!['-']);
        }
        let m = u64_to_string(mag_u64(v));
        s.append(m.as_str());
        s
    }
}

/// The number of decimal digits of a `u64`.
pub fn dec_len_u64(n: u64) -> (l: usize)
    ensures
        l as nat == dec_rep(n as nat).len(),
        1 <= l <= 20,
    decreases n,
{
    proof {
        lemma_dec_rep_u64_bound(n as nat);
        lemma_dec_rep_len_pos(n as nat);
    }
    if n < 10 {
        1
    } else {
        let r = dec_len_u64(n / 10);
        r + 1
    }
}

/// The printed digit width of an element.
pub fn width_of(v: i64) -> (w: usize)
    ensures
        w as nat == wlen(v),
        1 <= w <= 20,
{
    dec_len_u64(mag_u64(v))
}

/// Builds the message for an impossible addition.
pub fn add_err_string(ar: usize, ac: usize, br: usize, bc: usize) -> (s: String)
    ensures
        s@ == shape_add_err(ar as nat, ac as nat, br as nat, bc as nat),
{
    let mut s = "Matrices of different shapes cannot be added together. Left(".to_owned();
    s.append(usize_to_string(ar).as_str());
    s.append(", ");
    s.append(usize_to_string(ac).as_str());
    s.append("), Right(");
    s.append(usize_to_string(br).as_str());
    s.append(", ");
    s.append(usize_to_string(bc).as_str());
    s.append(")");
    s
}

/// Builds the message for an impossible multiplication.
pub fn mul_err_string(ar: usize, ac: usize, br: usize, bc: usize) -> (s: String)
    ensures
        s@ == shape_mul_err(ar as nat, ac as nat, br as nat, bc as nat),
{
    let mut s = "LHS cols must be same as RHS rows to multiply. LHS: (".to_owned();
    s.append(usize_to_string(ar).as_str());
    s.append(",");
    s.append(usize_to_string(ac).as_str());
    s.append("), RHS: (");
    s.append(usize_to_string(br).as_str());
    s.append(", ");
    s.append(usize_to_string(bc).as_str());
    s.append(")");
    s
}

/// Builds the message for an out-of-bounds access.
pub fn index_err_string(ar: usize, ac: usize, i: usize, j: usize) -> (s: String)
    ensures
        s@ == index_err(ar as nat, ac as nat, i as nat, j as nat),
{
    let mut s = "index out of bounds: the shape is (".to_owned();
    s.append(usize_to_string(ar).as_str());
    s.append(", ");
    s.append(usize_to_string(ac).as_str());
    s.append(") but the index is (");
    s.append(usize_to_string(i).as_str());
    s.append(", ");
    s.append(usize_to_string(j).as_str());
    s.append(").");
    s
}

} // verus!
