use neural_network::matrix::Matrix;

fn m(rows: usize, cols: usize, data: Vec<i64>) -> Matrix<i64> {
    Matrix::new(rows, cols, data)
}

#[test]
fn test_matrix_macro() {
    let m = Matrix::new(3, 3, vec![1.0, 2.0, 3.0, 4.0, 5.0, 6.0, 7.0, 8.0, 9.0]);
    assert_eq!(m.rows, 3);
    assert_eq!(m.cols, 3);
    assert_eq!(m.data, vec![1.0, 2.0, 3.0, 4.0, 5.0, 6.0, 7.0, 8.0, 9.0]);
}

#[test]
fn test_elementwise_multiply() {
    let matrix1 = m(2, 2, vec![1, 2, 3, 4]);
    let matrix2 = m(2, 2, vec![5, 6, 7, 8]);
    let result = matrix1.elementwise_multiply(&matrix2);
    let expected_result = m(2, 2, vec![5, 12, 21, 32]);
    assert_eq!(result, expected_result);
}

#[test]
fn test_subtract_same_dimensions() {
    let matrix1 = m(2, 2, vec![1, 2, 3, 4]);
    let matrix2 = m(2, 2, vec![5, 6, 7, 8]);
    let result = matrix1.subtract(&matrix2);
    let expected = m(2, 2, vec![-4, -4, -4, -4]);
    assert_eq!(result, expected);
}

#[test]
fn test_dot_multiply() {
    let a = m(2, 3, vec![1, 2, 3, 4, 5, 6]);
    let b = m(3, 2, vec![7, 8, 9, 10, 11, 12]);
    let result = a.dot_multiply(&b);
    let expected_result = m(2, 2, vec![58, 64, 139, 154]);
    assert_eq!(result, expected_result);
}

#[test]
fn test_matrix_addition() {
    let a = m(3, 3, vec![1, 2, 3, 4, 5, 6, 7, 8, 9]);
    let b = m(3, 3, vec![5, 6, 7, 8, 9, 10, 11, 12, 13]);
    let expected_result = m(3, 3, vec![6, 8, 10, 12, 14, 16, 18, 20, 22]);
    let result = a.add(&b);
    assert_eq!(result, expected_result);
}

#[test]
fn test_transpose_2x2() {
    let matrix = Matrix::new(2, 2, vec![1.0, 2.0, 3.0, 4.0]);
    let transposed = matrix.transpose();
    let expected = Matrix::new(2, 2, vec![1.0, 3.0, 2.0, 4.0]);
    assert_eq!(transposed, expected);
}

#[test]
fn test_transpose_3x3() {
    let matrix = Matrix::new(3, 3, vec![1.0, 2.0, 3.0, 4.0, 5.0, 6.0, 7.0, 8.0, 9.0]);
    let transposed = matrix.transpose();
    let expected = Matrix::new(3, 3, vec![1.0, 4.0, 7.0, 2.0, 5.0, 8.0, 3.0, 6.0, 9.0]);
    assert_eq!(transposed, expected);
}

#[test]
fn test_transpose_4x3() {
    let matrix = Matrix::new(
        4,
        3,
        vec![1.0, 2.0, 3.0, 4.0, 5.0, 6.0, 7.0, 8.0, 9.0, 10.0, 11.0, 12.0],
    );
    let transposed = matrix.transpose();
    let expected = Matrix::new(
        3,
        4,
        vec![1.0, 4.0, 7.0, 10.0, 2.0, 5.0, 8.0, 11.0, 3.0, 6.0, 9.0, 12.0],
    );
    assert_eq!(transposed, expected);
}

#[test]
fn test_map_add_one() {
    let matrix = Matrix { rows: 2, cols: 2, data: vec![1.0, 2.0, 3.0, 4.0] };
    let transformed = matrix.map(|x: f64| x + 1.0);
    let expected = Matrix { rows: 2, cols: 2, data: vec![2.0, 3.0, 4.0, 5.0] };
    assert_eq!(transformed, expected);
}

#[test]
fn test_map_square() {
    let matrix = Matrix { rows: 2, cols: 2, data: vec![1.0, 2.0, 3.0, 4.0] };
    let transformed = matrix.map(|x: f64| x * x);
    let expected = Matrix { rows: 2, cols: 2, data: vec![1.0, 4.0, 9.0, 16.0] };
    assert_eq!(transformed, expected);
}

#[test]
fn map_leaves_receiver_unchanged() {
    let matrix = m(1, 3, vec![1, 2, 3]);
    let _ = matrix.map(|x: i64| x * 10);
    assert_eq!(matrix, m(1, 3, vec![1, 2, 3]));
}

#[test]
fn map_twice_equals_map_of_composition() {
    let a = m(2, 2, vec![1, -2, 3, 7]);
    let f = |x: i64| x + 3;
    let g = |x: i64| x * 2;
    let twice = a.map(f).map(g);
    let once = a.map(|x: i64| g(f(x)));
    assert_eq!(twice, once);
    assert_eq!(once, m(2, 2, vec![8, 2, 12, 20]));
}

#[test]
fn transpose_twice_restores() {
    let a = m(2, 3, vec![1, 2, 3, 4, 5, 6]);
    let t = a.transpose();
    assert_eq!(t.rows, 3);
    assert_eq!(t.cols, 2);
    assert_eq!(t.transpose(), a);
}

#[test]
fn transpose_of_empty_shapes() {
    let a: Matrix<i64> = m(0, 4, vec![]);
    let t = a.transpose();
    assert_eq!(t.rows, 4);
    assert_eq!(t.cols, 0);
    assert!(t.data.is_empty());
}

#[test]
fn shapes_of_sum_and_product() {
    let a = m(2, 3, vec![1, 0, 2, 0, 1, 0]);
    let b = m(3, 4, vec![1; 12]);
    let s = a.add(&a);
    assert_eq!((s.rows, s.cols), (2, 3));
    let p = a.dot_multiply(&b);
    assert_eq!((p.rows, p.cols), (2, 4));
    assert_eq!(p.data, vec![3, 3, 3, 3, 1, 1, 1, 1]);
}

#[test]
fn dot_product_with_empty_inner_dimension_is_zero() {
    let a = m(2, 0, vec![]);
    let b = m(0, 3, vec![]);
    assert_eq!(a.dot_multiply(&b), m(2, 3, vec![0; 6]));
}

#[test]
fn adding_zeros_changes_nothing() {
    let a = m(2, 3, vec![4, -1, 0, 9, 2, -7]);
    assert_eq!(a.add(&Matrix::zeros(2, 3)), a);
}

#[test]
fn multiplying_by_ones_changes_nothing() {
    let a = m(2, 2, vec![4, -1, 0, 9]);
    let ones = Matrix::zeros(2, 2).map(|_x: i64| 1);
    assert_eq!(a.elementwise_multiply(&ones), a);
}

#[test]
fn zeros_has_shape_and_zero_entries() {
    let z: Matrix<i64> = Matrix::zeros(3, 2);
    assert_eq!(z.rows, 3);
    assert_eq!(z.cols, 2);
    assert_eq!(z.data, vec![0; 6]);
}

#[test]
fn from_vector_is_one_column() {
    let c = Matrix::from_vector(vec![1.5, 2.5, 3.5]);
    assert_eq!((c.rows, c.cols), (3, 1));
    assert_eq!(c.data, vec![1.5, 2.5, 3.5]);
    let d: Matrix<f64> = Matrix::from(vec![1.5, 2.5, 3.5]);
    assert_eq!(c, d);
}

#[test]
fn duplicate_is_independent() {
    let a = m(1, 2, vec![1, 2]);
    let mut b = a.duplicate();
    assert_eq!(a, b);
    b.data[0] = 9;
    assert_eq!(a.data, vec![1, 2]);
}

#[test]
fn equals_compares_shape_and_entries() {
    let a = m(2, 2, vec![1, 2, 3, 4]);
    assert!(a.equals(&m(2, 2, vec![1, 2, 3, 4])));
    assert!(!a.equals(&m(2, 2, vec![1, 2, 3, 5])));
    assert!(!a.equals(&m(1, 4, vec![1, 2, 3, 4])));
    assert!(!a.equals(&m(4, 1, vec![1, 2, 3, 4])));
}

#[test]
fn integer_arithmetic_wraps() {
    let a = m(1, 2, vec![i64::MAX, i64::MIN]);
    let b = m(1, 2, vec![1, 1]);
    assert_eq!(a.add(&b), m(1, 2, vec![i64::MIN, i64::MIN + 1]));
    assert_eq!(a.subtract(&b), m(1, 2, vec![i64::MAX - 1, i64::MAX]));
    let two = m(1, 2, vec![2, 2]);
    assert_eq!(a.elementwise_multiply(&two), m(1, 2, vec![-2, 0]));
}
