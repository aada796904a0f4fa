use linalg::Matrix;

#[test]
fn from_scalar_fills_every_entry() {
    let m = Matrix::from_scalar(2, 3, 7);
    let mut i: usize = 0;
    while i < 2 {
        let mut j: usize = 0;
        while j < 3 {
            assert_eq!(m.get(i, j).unwrap(), 7);
            j += 1;
        }
        i += 1;
    }
    assert_eq!(m.shape(), (2, 3));
}

#[test]
fn identity_diagonal() {
    let m = Matrix::identity(3);
    let mut i: usize = 0;
    while i < 3 {
        let mut j: usize = 0;
        while j < 3 {
            let expected: i64 = if i == j { 1 } else { 0 };
            assert_eq!(m.get(i, j).unwrap(), expected);
            j += 1;
        }
        i += 1;
    }
}

#[test]
fn equality_reflexive_and_symmetric() {
    let a = Matrix::from_2d_vec(2, 2, vec![vec![1, 2], vec![3, 4]]).unwrap();
    let b = a.clone();
    assert_eq!(a, a.clone());
    assert_eq!(a == b, b == a);
}

#[test]
fn zero_matrices_of_different_shapes_differ() {
    let a = Matrix::from_scalar(2, 3, 0);
    let b = Matrix::from_scalar(2, 2, 0);
    assert!(a != b);
}

#[test]
fn add_shape_mismatch_reports_shapes() {
    let a = Matrix::from_scalar(2, 3, 1);
    let b = Matrix::from_scalar(2, 2, 1);
    let err = a.add(b).unwrap_err();
    assert_eq!(
        err,
        "Matrices of different shapes cannot be added together. Left(2, 3), Right(2, 2)"
    );
}

#[test]
fn add_commutes() {
    let a = Matrix::from_2d_vec(2, 2, vec![vec![1, -2], vec![30, 4]]).unwrap();
    let b = Matrix::from_2d_vec(2, 2, vec![vec![5, 6], vec![-7, 8]]).unwrap();
    let left = a.clone().add(b.clone()).unwrap();
    let right = b.add(a).unwrap();
    assert_eq!(left, right);
}

#[test]
fn multiply_shape_mismatch_reports_shapes() {
    let a = Matrix::from_scalar(2, 3, 1);
    let b = Matrix::from_scalar(2, 2, 1);
    let err = a.multiply(b).unwrap_err();
    assert_eq!(
        err,
        "LHS cols must be same as RHS rows to multiply. LHS: (2,3), RHS: (2, 2)"
    );
}

#[test]
fn multiply_rectangular() {
    let a = Matrix::from_2d_vec(2, 3, vec![vec![1000, 0, 1], vec![0, 3, 5]]).unwrap();
    let b = Matrix::from_2d_vec(3, 2, vec![vec![11, 3], vec![7, 11], vec![2, 5]]).unwrap();
    let ab = a.clone().multiply(b.clone()).unwrap();
    assert_eq!(ab.shape(), (2, 2));
    let expected = Matrix::from_2d_vec(2, 2, vec![vec![11002, 3005], vec![31, 58]]).unwrap();
    assert_eq!(ab, expected);

    let ba = b.multiply(a).unwrap();
    assert_eq!(ba.shape(), (3, 3));
    assert!(ab != ba);
}

#[test]
fn multiply_in_place_replaces() {
    let mut a = Matrix::from_2d_vec(2, 2, vec![vec![1, 2], vec![3, 4]]).unwrap();
    let b = Matrix::from_2d_vec(2, 2, vec![vec![1, 2], vec![3, 4]]).unwrap();
    a.multiply_in_place(b).unwrap();
    let expected = Matrix::from_2d_vec(2, 2, vec![vec![7, 10], vec![15, 22]]).unwrap();
    assert_eq!(a, expected);
}

#[test]
fn multiply_in_place_mismatch_keeps_value() {
    let mut a = Matrix::from_2d_vec(2, 2, vec![vec![1, 2], vec![3, 4]]).unwrap();
    let b = Matrix::from_scalar(3, 2, 1);
    let err = a.multiply_in_place(b).unwrap_err();
    assert_eq!(
        err,
        "LHS cols must be same as RHS rows to multiply. LHS: (2,2), RHS: (3, 2)"
    );
    let original = Matrix::from_2d_vec(2, 2, vec![vec![1, 2], vec![3, 4]]).unwrap();
    assert_eq!(a, original);
}

#[test]
fn scalar_both_orders() {
    let a = Matrix::from_2d_vec(2, 2, vec![vec![1, -2], vec![3, 4]]).unwrap();
    let left = Matrix::scalar_mul(15, a.clone());
    let right = a.mul_scalar(15);
    assert_eq!(left, right);
    let expected = Matrix::from_2d_vec(2, 2, vec![vec![15, -30], vec![45, 60]]).unwrap();
    assert_eq!(left, expected);
}

#[test]
fn get_out_of_bounds_reports_index() {
    let m = Matrix::from_scalar(2, 2, 0);
    let err = m.get(2, 0).unwrap_err();
    assert_eq!(
        err,
        "index out of bounds: the shape is (2, 2) but the index is (2, 0)."
    );
}

#[test]
fn set_then_get() {
    let mut m = Matrix::from_scalar(2, 2, 0);
    m.set(1, 0, 42).unwrap();
    assert_eq!(m.get(1, 0).unwrap(), 42);
    assert_eq!(m.get(0, 0).unwrap(), 0);
    let err = m.set(0, 5, 1).unwrap_err();
    assert_eq!(
        err,
        "index out of bounds: the shape is (2, 2) but the index is (0, 5)."
    );
}

#[test]
fn from_2d_vec_row_mismatch() {
    let err = Matrix::from_2d_vec(3, 2, vec![vec![1, 2], vec![3, 4]]).unwrap_err();
    assert_eq!(err, "Inconsistent row length");
}

#[test]
fn from_2d_vec_col_mismatch() {
    let err = Matrix::from_2d_vec(2, 2, vec![vec![1, 2], vec![3]]).unwrap_err();
    assert_eq!(err, "Inconsistent column length");
}

#[test]
fn render_rectangular() {
    let m = Matrix::from_2d_vec(2, 3, vec![vec![1000, 0, 1], vec![0, 3, 5]]).unwrap();
    assert_eq!(m.render(), "1000    0    1\n   0    3    5\nShape: 2x3");
}

#[test]
fn render_negative_elements() {
    let m = Matrix::from_2d_vec(1, 2, vec![vec![-5, 10]]).unwrap();
    assert_eq!(m.render(), " -5 10\nShape: 1x2");
}

#[test]
fn transpose_twice_is_identity() {
    let m = Matrix::from_2d_vec(2, 3, vec![vec![1, -2, 3], vec![4, 5, -6]]).unwrap();
    let back = m.clone().transpose().transpose();
    assert_eq!(back, m);
}

#[test]
fn addition_wraps_around() {
    let a = Matrix::from_scalar(1, 1, i64::MAX);
    let b = Matrix::from_scalar(1, 1, 1);
    let sum = a.add(b).unwrap();
    assert_eq!(sum.get(0, 0).unwrap(), i64::MIN);
}

#[test]
fn pow_zero_of_arbitrary_values() {
    let m = Matrix::from_2d_vec(2, 2, vec![vec![7, -3], vec![2, 9]]).unwrap();
    assert_eq!(m.pow(0), Matrix::identity(2));
}

#[test]
fn pow_exponents_add() {
    let m = Matrix::from_2d_vec(2, 2, vec![vec![1, 2], vec![3, 4]]).unwrap();
    let product = m.pow(2).multiply(m.pow(3)).unwrap();
    assert_eq!(product, m.pow(5));
}
