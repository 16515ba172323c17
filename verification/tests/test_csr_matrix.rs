use extended_matrix::{BasicOperationsTrait, CsrMatrix, SquareMatrix};

const ABS_TOL: f64 = 1e-12;

fn mat2x2(a11: f64, a12: f64, a21: f64, a22: f64) -> SquareMatrix<f64> {
    SquareMatrix::create(2, &[a11, a12, a21, a22])
}

#[test]
fn test_csr_from_square_matrix_and_spmv() {
    // A = [[4, 0],
    //      [1, 3]]
    let a = mat2x2(4.0, 0.0, 1.0, 3.0);
    let csr = CsrMatrix::from_square_matrix(&a).unwrap();

    // x = [1, 2]^T
    let x = vec![1.0_f64, 2.0_f64];
    let y = csr.spmv(&x).unwrap();

    // y = A x = [4*1 + 0*2, 1*1 + 3*2] = [4, 7]
    assert!((y[0] - 4.0).abs() < ABS_TOL);
    assert!((y[1] - 7.0).abs() < ABS_TOL);
}

#[test]
fn test_from_coo_basic_spmv() {
    // A = [4 1 0;
    //      1 3 1;
    //      0 1 2]
    let trip = vec![
        (0, 0, 4.0f64),
        (0, 1, 1.0),
        (1, 0, 1.0),
        (1, 1, 3.0),
        (1, 2, 1.0),
        (2, 1, 1.0),
        (2, 2, 2.0),
    ];

    let csr = CsrMatrix::from_coo(3, 3, &trip).unwrap();
    let y = csr.spmv(&[1.0, 2.0, 3.0]).unwrap();
    assert!((y[0] - 6.0).abs() < ABS_TOL);
    assert!((y[1] - 10.0).abs() < ABS_TOL);
    assert!((y[2] - 8.0).abs() < ABS_TOL);
}

#[test]
fn test_from_coo_sums_duplicates() {
    // A(0,0) = 1 + 2 = 3, A(1,1)=4
    let trip = vec![(0usize, 0usize, 1.0f64), (0, 0, 2.0), (1, 1, 4.0)];
    let csr = CsrMatrix::from_coo(2, 2, &trip).unwrap();
    let y = csr.spmv(&[1.0, 1.0]).unwrap();
    assert!((y[0] - 3.0).abs() < ABS_TOL);
    assert!((y[1] - 4.0).abs() < ABS_TOL);
}

#[test]
fn test_from_square_matrix_arrays() {
    let a = SquareMatrix::create(3, &[2.0, 0.0, 1.0, 0.0, 0.0, 0.0, 4.0, 5.0, 0.0]);
    let csr = CsrMatrix::from_square_matrix(&a).unwrap();

    assert_eq!(csr.get_n_rows(), 3);
    assert_eq!(csr.get_n_cols(), 3);
    assert_eq!(csr.get_values(), &[2.0, 1.0, 4.0, 5.0]);
    assert_eq!(csr.get_col_index(), &[0, 2, 0, 1]);
    assert_eq!(csr.get_row_ptr(), &[0, 2, 2, 4]);
    assert!(csr.check());
}

#[test]
fn test_from_coo_arrays_are_sorted_by_row_and_column() {
    let trip = vec![(2usize, 1usize, 6.0f64), (0, 2, 1.0), (2, 0, 5.0), (0, 0, 2.0), (2, 1, 0.5)];
    let csr = CsrMatrix::from_coo(3, 3, &trip).unwrap();

    assert_eq!(csr.get_values(), &[2.0, 1.0, 5.0, 6.5]);
    assert_eq!(csr.get_col_index(), &[0, 2, 0, 1]);
    assert_eq!(csr.get_row_ptr(), &[0, 2, 2, 4]);
}

#[test]
fn test_from_square_matrix_fails_on_a_matrix_that_is_not_square() {
    let mut a = SquareMatrix::create(2, &[1.0, 2.0, 3.0, 4.0]);
    a.shape = extended_matrix::Shape(2, 3);

    assert_eq!(
        CsrMatrix::from_square_matrix(&a).err(),
        Some("CsrMatrix::from_square_matrix: matrix is not square".to_string())
    );
}

#[test]
fn test_create_checks_the_lengths() {
    let short_row_ptr = CsrMatrix::create(2, 2, vec![1.0, 2.0], vec![0, 1], vec![0, 2]);
    let mismatch = CsrMatrix::create(2, 2, vec![1.0, 2.0], vec![0], vec![0, 1, 2]);
    let last = CsrMatrix::create(2, 2, vec![1.0, 2.0], vec![0, 1], vec![0, 1, 1]);
    let fine = CsrMatrix::create(2, 2, vec![1.0, 2.0], vec![0, 1], vec![0, 1, 2]);

    assert_eq!(
        short_row_ptr.err(),
        Some("CsrMatrix::new: row_ptr length must be n_rows + 1".to_string())
    );
    assert_eq!(
        mismatch.err(),
        Some("CsrMatrix::new: values and col_index length mismatch".to_string())
    );
    assert_eq!(
        last.err(),
        Some("CsrMatrix::new: last row_ptr must equal values.len()".to_string())
    );
    let fine = fine.unwrap();
    assert!(fine.check());
    assert_eq!(fine.spmv(&[10.0, 100.0]).unwrap(), vec![10.0, 200.0]);
}

#[test]
fn test_check_finds_arrays_that_do_not_fit() {
    let column_outside = CsrMatrix::create(2, 2, vec![1.0, 2.0], vec![0, 2], vec![0, 1, 2]);
    let step_down = CsrMatrix::create(2, 2, vec![1.0, 2.0], vec![0, 1], vec![3, 1, 2]);

    assert!(!column_outside.unwrap().check());
    assert!(!step_down.unwrap().check());
}

#[test]
fn test_spmv_dimension_mismatch() {
    let a = mat2x2(4.0, 0.0, 1.0, 3.0);
    let csr = CsrMatrix::from_square_matrix(&a).unwrap();

    assert_eq!(
        csr.spmv(&[1.0, 2.0, 3.0]),
        Err("CsrMatrix::spmv: dimension mismatch: A is 2x2, x has len 3".to_string())
    );
}

#[test]
fn test_spmv_equals_the_dense_product() {
    let values: [f64; 16] = [2.0, -1.0, 0.0, 0.5, 0.0, 3.0, 0.0, 0.0, 4.0, 0.0, 0.0, -2.0, 1.5, 0.0, 1.0, 2.5];
    let a = SquareMatrix::create(4, &values);
    let x: [f64; 4] = [1.0, -2.0, 3.0, 0.5];
    let y = CsrMatrix::from_square_matrix(&a).unwrap().spmv(&x).unwrap();

    for i in 0..4 {
        let mut dense: f64 = 0.0;
        for j in 0..4 {
            dense += values[i * 4 + j] * x[j];
        }
        assert!((y[i] - dense).abs() < ABS_TOL);
    }
}

#[test]
fn test_from_coo_of_many_scattered_triplets() {
    let order: usize = 40;
    let mut triplets: Vec<(usize, usize, f64)> = Vec::new();
    let mut step: usize = 0;
    while step < 400 {
        let row = (step * 17 + 3) % order;
        let column = (step * 29 + 11) % order;
        triplets.push((row, column, (step % 7) as f64 + 1.0));
        step += 1;
    }
    triplets.push((order, 0, 9.0));
    triplets.push((0, order, 9.0));

    let csr = CsrMatrix::from_coo(order, order, &triplets).unwrap();

    assert!(csr.check());
    assert_eq!(csr.get_row_ptr().len(), order + 1);
    let mut dense = vec![0.0f64; order * order];
    for (row, column, value) in triplets.iter() {
        if *row < order && *column < order {
            dense[row * order + column] += value;
        }
    }
    let mut at: usize = 0;
    for row in 0..order {
        assert_eq!(csr.get_row_ptr()[row], at);
        for column in 0..order {
            if dense[row * order + column] != 0.0 {
                assert_eq!(csr.get_col_index()[at], column);
                assert_eq!(csr.get_values()[at], dense[row * order + column]);
                at += 1;
            }
        }
    }
    assert_eq!(csr.get_values().len(), at);
    assert_eq!(csr.get_row_ptr()[order], at);
}

#[test]
fn test_from_square_matrix_of_a_large_sparse_matrix() {
    let order: usize = 1_000_000;
    let mut a = SquareMatrix::<f64>::create(order, &[]);
    a.add_value(extended_matrix::Position(999_999, 5), 2.0);
    a.add_value(extended_matrix::Position(7, 999_998), 3.0);
    a.add_value(extended_matrix::Position(7, 1), 4.0);

    let csr = CsrMatrix::from_square_matrix(&a).unwrap();

    assert_eq!(csr.get_values(), &[4.0, 3.0, 2.0]);
    assert_eq!(csr.get_col_index(), &[1, 999_998, 5]);
    assert_eq!(csr.get_row_ptr()[7], 0);
    assert_eq!(csr.get_row_ptr()[8], 2);
    assert_eq!(csr.get_row_ptr()[999_999], 2);
    assert_eq!(csr.get_row_ptr()[1_000_000], 3);
}

#[test]
fn test_from_square_matrix_keeps_a_value_right_of_the_matrix() {
    let mut a = SquareMatrix::create(2, &[4.0f64, 0.0, 1.0, 3.0]);
    a.get_mut_elements().insert(extended_matrix::Position(0, 5), 7.0);
    a.get_mut_elements().insert(extended_matrix::Position(1, 9), 0.0);

    let csr = CsrMatrix::from_square_matrix(&a).unwrap();

    assert_eq!(csr.get_n_rows(), 2);
    assert_eq!(csr.get_n_cols(), 2);
    assert_eq!(csr.get_values(), &[4.0, 7.0, 1.0, 3.0]);
    assert_eq!(csr.get_col_index(), &[0, 5, 0, 1]);
    assert_eq!(csr.get_row_ptr(), &[0, 2, 4]);
    assert!(!csr.check());
}

#[test]
fn test_from_square_matrix_fails_on_a_value_below_the_matrix() {
    let mut a = SquareMatrix::create(2, &[4.0f64, 0.0, 1.0, 3.0]);
    a.get_mut_elements().insert(extended_matrix::Position(2, 0), 7.0);
    let mut b = SquareMatrix::create(2, &[4.0f64, 0.0, 1.0, 3.0]);
    b.get_mut_elements().insert(extended_matrix::Position(2, 0), 0.0);

    assert_eq!(
        CsrMatrix::from_square_matrix(&a).err(),
        Some("CsrMatrix::new: last row_ptr must equal values.len()".to_string())
    );
    assert_eq!(CsrMatrix::from_square_matrix(&b).unwrap().get_values(), &[4.0, 1.0, 3.0]);
}
