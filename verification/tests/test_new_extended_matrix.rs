use extended_matrix::{
    BasicMatrixType, MatrixElementPosition, NewExtendedMatrix, Operation, Position, Shape,
};

fn at(row: u32, column: u32) -> MatrixElementPosition<u32> {
    MatrixElementPosition::create(row, column)
}

fn read(matrix: &NewExtendedMatrix<u32, f64>, row: u32, column: u32) -> f64 {
    matrix.ref_extended().copy_element_value_or_zero(at(row, column)).unwrap()
}

fn general() -> NewExtendedMatrix<u32, f64> {
    NewExtendedMatrix::create(3u32, 3, vec![2.0, 1.0, 1.0, 4.0, 3.0, 3.0, 8.0, 7.0, 9.0], 1e-12)
        .unwrap()
}

#[test]
fn test_lu_decomposition_without_pivoting() {
    let (l, u) = general().lu_decomposition().unwrap();

    let expected_l = [1.0, 0.0, 0.0, 2.0, 1.0, 0.0, 4.0, 3.0, 1.0];
    let expected_u = [2.0, 1.0, 1.0, 0.0, 1.0, 1.0, 0.0, 0.0, 2.0];
    for i in 0..3u32 {
        for j in 0..3u32 {
            assert_eq!(read(&l, i, j), expected_l[(i * 3 + j) as usize]);
            assert_eq!(read(&u, i, j), expected_u[(i * 3 + j) as usize]);
        }
    }
    assert_eq!(l.clone_all_elements_values().len(), 6);
    assert_eq!(u.clone_all_elements_values().len(), 6);
    assert_eq!(*l.ref_matrix_type(), BasicMatrixType::NonSymmetric);
    assert_eq!(general().determinant(), Ok(4.0));
}

#[test]
fn test_lu_decomposition_needs_a_square_matrix_of_two_rows() {
    let wide = NewExtendedMatrix::create(2u32, 3, vec![1.0f64, 2.0, 3.0, 4.0, 5.0, 6.0], 1e-12).unwrap();
    let single = NewExtendedMatrix::create(1u32, 1, vec![1.0f64], 1e-12).unwrap();

    assert_eq!(
        wide.lu_decomposition().err(),
        Some("Extended matrix: Matrix could not be decomposed!".to_string())
    );
    assert_eq!(
        single.determinant(),
        Err("Extended matrix: Matrix could not be decomposed!".to_string())
    );
    assert_eq!(
        wide.inverse().err(),
        Some("Extended matrix: Matrix could not be decomposed!".to_string())
    );
}

#[test]
fn test_new_extended_matrix_inverse() {
    let m = NewExtendedMatrix::create(2u32, 2, vec![4.0f64, 7.0, 2.0, 6.0], 1e-12).unwrap();

    let inverse = m.inverse().unwrap();

    let expected: [f64; 4] = [0.6, -0.7, -0.2, 0.4];
    for i in 0..2u32 {
        for j in 0..2u32 {
            assert!((read(&inverse, i, j) - expected[(i * 2 + j) as usize]).abs() < 1e-12);
        }
    }
    let product = m.multiply_by_matrix(&inverse).unwrap();
    assert!((read(&product, 0, 0) - 1.0).abs() < 1e-12);
    assert!((read(&product, 1, 1) - 1.0).abs() < 1e-12);
    assert!(read(&product, 0, 1).abs() < 1e-12);
    assert!(read(&product, 1, 0).abs() < 1e-12);
}

#[test]
fn test_inverse_fails_on_a_zero_pivot() {
    let m = NewExtendedMatrix::create(2u32, 2, vec![0.0f64, 1.0, 1.0, 0.0], 1e-12).unwrap();

    assert_eq!(m.inverse().err(), Some("Extended matrix: Matrix is singular!".to_string()));
}

#[test]
fn test_new_extended_matrix_direct_solution() {
    let m = NewExtendedMatrix::create(2u32, 2, vec![2.0f64, 1.0, 4.0, 5.0], 1e-12).unwrap();
    let b = NewExtendedMatrix::create(2u32, 1, vec![4.0f64, 14.0], 1e-12).unwrap();
    let long = NewExtendedMatrix::create(3u32, 1, vec![4.0f64, 14.0, 1.0], 1e-12).unwrap();

    let x = m.direct_solution(&b).unwrap();

    assert_eq!(read(&x, 0, 0), 1.0);
    assert_eq!(read(&x, 1, 0), 2.0);
    assert_eq!(
        m.direct_solution(&long).err(),
        Some("Extended matrix: Shapes of matrices does not conform to each other!".to_string())
    );
}

#[test]
fn test_add_subtract_matrix() {
    let a = NewExtendedMatrix::create(2u32, 2, vec![1.0f64, 2.0, 3.0, 4.0], 1e-12).unwrap();
    let b = NewExtendedMatrix::create(2u32, 2, vec![5.0f64, 6.0, 7.0, 8.0], 1e-12).unwrap();
    let wide = NewExtendedMatrix::create(2u32, 3, vec![1.0f64, 2.0, 3.0, 4.0, 5.0, 6.0], 1e-12).unwrap();

    let sum = a.add_subtract_matrix(&b, Operation::Addition).unwrap();
    let difference = a.add_subtract_matrix(&b, Operation::Subtraction).unwrap();

    assert_eq!(sum, a.add_matrix(&b).unwrap());
    assert_eq!(difference, a.subtract_matrix(&b).unwrap());
    assert_eq!(read(&sum, 1, 0), 10.0);
    assert_eq!(read(&difference, 1, 1), -4.0);
    assert_eq!(
        a.add_subtract_matrix(&b, Operation::Multiplication).err(),
        Some(
            "Extended matrix: Multiplication operation could not be applied for add_subtract \
             function!"
                .to_string()
        )
    );
    assert_eq!(
        a.add_matrix(&wide).err(),
        Some("Extended matrix: Shapes of matrices does not conform to each other!".to_string())
    );
    assert_eq!(
        wide.add_subtract_matrix(&a, Operation::Multiplication).err(),
        Some("Extended matrix: Shapes of matrices does not conform to each other!".to_string())
    );
    assert_eq!(
        a.matrices_dimensions_conformity_check(&wide, Operation::Multiplication),
        Ok((2, Shape(2, 3)))
    );
}

#[test]
fn test_new_extended_matrix_changes_in_place() {
    let mut m = NewExtendedMatrix::create(2u32, 2, vec![1.0f64, 2.0, 2.0, 3.0], 1e-12).unwrap();
    assert_eq!(*m.ref_matrix_type(), BasicMatrixType::Symmetric);

    m.multiply_by_number(2.0);
    assert_eq!(read(&m, 1, 0), 4.0);
    m.into_nonsymmetric();
    assert_eq!(m.clone_all_elements_values().len(), 4);
    m.try_to_symmetrize();
    assert_eq!(*m.ref_matrix_type(), BasicMatrixType::Symmetric);
    assert_eq!(m.clone_all_elements_values().get(&Position(1, 0)), None);
    m.transpose();
    assert_eq!(m.copy_shape(), Shape(2, 2));
    m.remove_selected_row(0);
    assert_eq!(m.copy_shape(), Shape(1, 2));
    assert_eq!(read(&m, 0, 1), 6.0);
    m.remove_selected_column(0);
    assert_eq!(m.copy_shape(), Shape(1, 1));
    assert_eq!(read(&m, 0, 0), 6.0);
    assert_eq!(m.remove_zeros_rows_columns(), vec![]);
}

#[test]
fn test_new_extended_matrix_assemblage() {
    let mut assemblage =
        NewExtendedMatrix::create(2u32, 2, vec![1.0f64, 0.0, 0.0, 2.0], 1e-12).unwrap();
    let mut submatrix =
        NewExtendedMatrix::create(2u32, 2, vec![10.0f64, 0.0, 0.0, 20.0], 1e-12).unwrap();

    assemblage.add_submatrix_to_assemblage(
        &mut submatrix,
        &[at(0, 0), at(1, 1), at(0, 1)],
        &[at(1, 1), at(0, 0), at(0, 1)],
    );

    assert_eq!(read(&assemblage, 0, 0), 21.0);
    assert_eq!(read(&assemblage, 1, 1), 12.0);
    assert_eq!(read(&assemblage, 0, 1), 0.0);
}
