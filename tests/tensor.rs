use synapse_math::error::Error;
use synapse_math::matrix::Matrix;
use synapse_math::vector::Vector;

fn mul_add(acc: f64, a: f64, b: f64) -> f64 {
    acc + a * b
}

#[test]
fn vector_test() {
    let mut zero_vec = Vector::new(10, 0.0);
    let one_vec = Vector::new(12, 1.0);

    assert_eq!(zero_vec.len(), 10);
    assert_eq!(one_vec.len(), 12);

    assert_eq!(zero_vec.sum(0.0, |s, x| s + x), 0.0);
    assert_eq!(one_vec.sum(0.0, |s, x| s + x), 12.0);

    match zero_vec.set(0, 9.8) {
        Err(_) => println!("Error"),
        Ok(()) => (),
    }
    assert_eq!(zero_vec.get(0).unwrap(), 9.8);

    let one_vec_2 = Vector::new(12, 1.0);
    let mut res_vec = one_vec.zip_with(&one_vec_2, |a, b| a + b).unwrap();
    assert_eq!(res_vec.sum(0.0, |s, x| s + x), 24.0);
    res_vec = res_vec.zip_with(&one_vec_2, |a, b| a - b).unwrap();
    assert_eq!(res_vec.sum(0.0, |s, x| s + x), 12.0);

    res_vec = one_vec.map(|x| x * 3.0);
    assert_eq!(res_vec.sum(0.0, |s, x| s + x), 36.0);

    let res = one_vec.dot(&one_vec_2, 0.0, mul_add).unwrap();
    assert_eq!(res, 12.0);
}

#[test]
fn matrix_test() {
    let zero_mat = Matrix::new(2, 3, 0.0);
    let one_mat = Matrix::new(2, 3, 1.0);

    assert_eq!(zero_mat.shape(), (2, 3));
    assert_eq!(one_mat.shape(), (2, 3));

    assert_eq!(zero_mat.data, vec![0.0; 6]);
    assert_eq!(one_mat.data, vec![1.0; 6]);

    let mut identity_mat = Matrix::identity(3, 0.0, 1.0);
    assert_eq!(identity_mat.data, vec![1.0, 0.0, 0.0, 0.0, 1.0, 0.0, 0.0, 0.0, 1.0]);
    assert_eq!(identity_mat.shape(), (3, 3));

    assert_eq!(identity_mat.get(0, 0).unwrap(), 1.0);
    assert_eq!(identity_mat.get(1, 0).unwrap(), 0.0);

    identity_mat.set(0, 0, 3.6).unwrap();
    assert_eq!(identity_mat.get(0, 0).unwrap(), 3.6);

    let mut mat = Matrix::new(3, 3, 0.0);
    mat.set(0, 0, 1.2).unwrap();
    mat.set(0, 1, 3.6).unwrap();
    mat.set(0, 2, 4.6).unwrap();
    mat.set(1, 0, 48.6).unwrap();
    mat.set(1, 1, 46.0).unwrap();
    mat.set(1, 2, 26.8).unwrap();
    mat.set(2, 0, 8.6).unwrap();
    mat.set(2, 1, 6.0).unwrap();
    mat.set(2, 2, 2.8).unwrap();

    assert_eq!(mat.data, vec![1.2, 3.6, 4.6, 48.6, 46.0, 26.8, 8.6, 6.0, 2.8]);
    let trans_mat = mat.transpose();
    assert_eq!(trans_mat.data, vec![1.2, 48.6, 8.6, 3.6, 46.0, 6.0, 4.6, 26.8, 2.8]);

    let mat1 = Matrix::new(2, 3, 1.0);
    let mut mat2 = Matrix::new(3, 2, 1.0);
    mat2.set(0, 1, 2.0).unwrap();
    mat2.set(1, 1, 2.0).unwrap();
    mat2.set(2, 1, 2.0).unwrap();

    let res_mat = mat1.mat_mul(&mat2, 0.0, mul_add).unwrap();

    assert_eq!(res_mat.data, vec![3.0, 6.0, 3.0, 6.0]);

    let mut mat3 = Matrix::new(2, 3, 0.0);
    mat3.set(0, 0, 1.0).unwrap();
    mat3.set(0, 1, 2.0).unwrap();
    mat3.set(0, 2, 3.0).unwrap();
    mat3.set(1, 0, 4.0).unwrap();
    mat3.set(1, 1, 5.0).unwrap();
    mat3.set(1, 2, 6.0).unwrap();

    let mut vec = Vector::new(3, 0.0);
    vec.set(0, 1.0).unwrap();
    vec.set(1, 2.0).unwrap();
    vec.set(2, 3.0).unwrap();

    let result = mat3.vec_mul(&vec, 0.0, mul_add).unwrap();

    assert_eq!(result.get(0), Some(14.0));
    assert_eq!(result.get(1), Some(32.0));
}

#[test]
fn test_matrix_add_sub() {
    let mut mat1 = Matrix::new(2, 2, 0.0);
    mat1.set(0, 0, 1.0).unwrap();
    mat1.set(0, 1, 2.0).unwrap();
    mat1.set(1, 0, 3.0).unwrap();
    mat1.set(1, 1, 4.0).unwrap();

    let mut mat2 = Matrix::new(2, 2, 0.0);
    mat2.set(0, 0, 5.0).unwrap();
    mat2.set(0, 1, 6.0).unwrap();
    mat2.set(1, 0, 7.0).unwrap();
    mat2.set(1, 1, 8.0).unwrap();

    let sum = mat1.zip_with(&mat2, |a, b| a + b).unwrap();
    assert_eq!(sum.get(0, 0), Some(6.0));
    assert_eq!(sum.get(0, 1), Some(8.0));
    assert_eq!(sum.get(1, 0), Some(10.0));
    assert_eq!(sum.get(1, 1), Some(12.0));

    let diff = mat1.zip_with(&mat2, |a, b| a - b).unwrap();
    assert_eq!(diff.get(0, 0), Some(-4.0));
    assert_eq!(diff.get(0, 1), Some(-4.0));
    assert_eq!(diff.get(1, 0), Some(-4.0));
    assert_eq!(diff.get(1, 1), Some(-4.0));

    let mat3 = Matrix::new(2, 3, 0.0);
    assert!(matches!(
        mat1.zip_with(&mat3, |a, b| a + b),
        Err(Error::MatDimensionMismatch)
    ));
    assert!(matches!(
        mat1.zip_with(&mat3, |a, b| a - b),
        Err(Error::MatDimensionMismatch)
    ));
}

#[test]
fn vector_get_and_set_out_of_range() {
    let mut v = Vector::from_vec(vec![1.0, 2.0]);
    assert_eq!(v.get(2), None);
    assert_eq!(v.set(2, 5.0), Err(Error::IndexOutOfBounds));
    assert_eq!(v.data, vec![1.0, 2.0]);
    assert!(!v.is_empty());
    assert!(Vector::<f64>::from_vec(Vec::new()).is_empty());
}

#[test]
fn matrix_get_and_set_out_of_range() {
    let mut m = Matrix::new(2, 3, 0.0);
    assert_eq!(m.get(2, 0), None);
    assert_eq!(m.get(0, 3), None);
    assert_eq!(m.set(0, 3, 1.0), Err(Error::MatrixIndexOutOfBounds));
    assert_eq!(m.set(2, 0, 1.0), Err(Error::MatrixIndexOutOfBounds));
    assert_eq!(m.data, vec![0.0; 6]);
    m.set(1, 2, 7.0).unwrap();
    assert_eq!(m.data, vec![0.0, 0.0, 0.0, 0.0, 0.0, 7.0]);
}

#[test]
fn mismatched_shapes_give_errors_and_leave_operands() {
    let a = Vector::from_vec(vec![1.0, 2.0]);
    let b = Vector::from_vec(vec![1.0, 2.0, 3.0]);
    assert_eq!(a.zip_with(&b, |x, y| x + y).unwrap_err(), Error::VectorDimensionMismatch);
    assert_eq!(a.zip_with(&b, |x, y| x - y).unwrap_err(), Error::VectorDimensionMismatch);
    assert_eq!(a.dot(&b, 0.0, mul_add).unwrap_err(), Error::VectorDimensionMismatch);
    assert_eq!(a.data, vec![1.0, 2.0]);
    assert_eq!(b.data, vec![1.0, 2.0, 3.0]);

    let m = Matrix::new(2, 3, 1.0);
    let n = Matrix::new(2, 3, 1.0);
    assert_eq!(m.mat_mul(&n, 0.0, mul_add).unwrap_err(), Error::MatDimensionMismatch);
    assert_eq!(m.vec_mul(&a, 0.0, mul_add).unwrap_err(), Error::MatDimensionMismatch);
    let k = Matrix::new(3, 2, 1.0);
    assert_eq!(m.zip_with(&k, |x, y| x + y).unwrap_err(), Error::MatDimensionMismatch);
    assert_eq!(m.data, vec![1.0; 6]);
    assert_eq!(n.data, vec![1.0; 6]);
}

#[test]
fn transpose_twice_gives_back_the_matrix() {
    let m = Matrix { rows: 2, cols: 3, data: vec![1.0, 2.0, 3.0, 4.0, 5.0, 6.0] };
    let t = m.transpose();
    assert_eq!(t.shape(), (3, 2));
    assert_eq!(t.data, vec![1.0, 4.0, 2.0, 5.0, 3.0, 6.0]);
    let tt = t.transpose();
    assert_eq!(tt.shape(), (2, 3));
    assert_eq!(tt.data, m.data);
}

#[test]
fn dot_is_symmetric() {
    let v = Vector::from_vec(vec![1.5, -2.0, 3.25]);
    let w = Vector::from_vec(vec![4.0, 0.5, -1.0]);
    let vw = v.dot(&w, 0.0, mul_add).unwrap();
    let wv = w.dot(&v, 0.0, mul_add).unwrap();
    assert_eq!(vw, wv);
    assert_eq!(vw, 1.75);
}

#[test]
fn add_then_sub_round_trips() {
    let v: Vector<f64> = Vector::from_vec(vec![0.1, 2.5, -3.75, 1e6]);
    let w = Vector::from_vec(vec![0.2, -1.0, 8.0, 3.0]);
    let back = v
        .zip_with(&w, |a, b| a + b)
        .unwrap()
        .zip_with(&w, |a, b| a - b)
        .unwrap();
    for i in 0..v.len() {
        assert!((back.get(i).unwrap() - v.get(i).unwrap()).abs() < 1e-9);
    }
}

#[test]
fn identity_times_matrix_is_the_matrix() {
    let id = Matrix::identity(2, 0.0, 1.0);
    let m = Matrix { rows: 2, cols: 3, data: vec![1.0, 2.0, 3.0, 4.0, 5.0, 6.0] };
    let p = id.mat_mul(&m, 0.0, mul_add).unwrap();
    assert_eq!(p.shape(), (2, 3));
    assert_eq!(p.data, m.data);
    assert_eq!(Matrix::identity(0, 0.0, 1.0).data, Vec::<f64>::new());
}

#[test]
fn mat_mul_accumulates_row_by_column() {
    let a = Matrix { rows: 2, cols: 2, data: vec![1.0, 2.0, 3.0, 4.0] };
    let b = Matrix { rows: 2, cols: 2, data: vec![5.0, 6.0, 7.0, 8.0] };
    let p = a.mat_mul(&b, 0.0, mul_add).unwrap();
    assert_eq!(p.data, vec![19.0, 22.0, 43.0, 50.0]);
    let q = a.mat_mul(&b, 10.0, mul_add).unwrap();
    assert_eq!(q.data, vec![29.0, 32.0, 53.0, 60.0]);
}

#[test]
fn sum_folds_left_to_right() {
    let v = Vector::from_vec(vec![1.0, 2.0, 3.0]);
    assert_eq!(v.sum(0.0, |s, x| s * 10.0 + x), 123.0);
    assert_eq!(Vector::<f64>::from_vec(Vec::new()).sum(7.0, |s, x| s + x), 7.0);
}
