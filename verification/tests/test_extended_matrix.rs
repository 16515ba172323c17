use extended_matrix::{
    BasicMatrix, BasicMatrixType, ExtendedMatrix, MatrixElementPosition, Operation, Position,
    Shape,
};

const TOLERANCE: f32 = 1e-12;

#[test]
fn test_matrices_dimensions_conformity_check() -> Result<(), String> {
    let m_1 = ExtendedMatrix::create(3u8, 2, vec![1.0, 2.0, 3.0, 4.0, 5.0, 6.0], TOLERANCE)?;
    let m_2 = ExtendedMatrix::create(2, 3, vec![1.0, 2.0, 3.0, 4.0, 5.0, 6.0], TOLERANCE)?;

    let addition = Operation::Addition;
    let multiplication = Operation::Multiplication;

    assert_eq!(
        m_1.matrices_dimensions_conformity_check(&m_2, addition),
        Err("Extended matrix: Shapes of matrices do not conform to each other!".to_string())
    );

    let matrix_shape = Shape(3, 3);
    let matrix_basic_dimension = 2;
    assert_eq!(
        m_1.matrices_dimensions_conformity_check(&m_2, multiplication),
        Ok((matrix_basic_dimension, matrix_shape))
    );

    Ok(())
}

#[test]
fn test_add_matrix() -> Result<(), String> {
    let m_1 = ExtendedMatrix::create(2u16, 2, vec![1.0, 2.0, 3.0, 4.0], TOLERANCE)?;
    let m_2 = ExtendedMatrix::create(2, 2, vec![5.0, 6.0, 7.0, 8.0], TOLERANCE)?;

    let mut result = m_1.add_matrix(&m_2)?;
    result.try_to_symmetrize(TOLERANCE);

    let expected = ExtendedMatrix::create(2, 2, vec![6.0, 8.0, 10.0, 12.0], TOLERANCE)?;

    assert_eq!(result, expected);

    Ok(())
}

#[test]
fn test_subtract_matrix() -> Result<(), String> {
    let m_1 = ExtendedMatrix::create(2usize, 2, vec![1.0, 2.0, 3.0, 4.0], TOLERANCE)?;
    let m_2 = ExtendedMatrix::create(2, 2, vec![5.0, 6.0, 7.0, 8.0], TOLERANCE)?;

    let mut result = m_1.subtract_matrix(&m_2)?;
    result.try_to_symmetrize(TOLERANCE);

    let expected = ExtendedMatrix::create(2, 2, vec![-4.0, -4.0, -4.0, -4.0], TOLERANCE)?;

    assert_eq!(result, expected);

    Ok(())
}

fn at(row: u32, column: u32) -> MatrixElementPosition<u32> {
    MatrixElementPosition::create(row, column)
}

#[test]
fn test_create_finds_the_kind_of_matrix() {
    let symmetric =
        ExtendedMatrix::create(2u32, 2, vec![1.0f64, 2.0, 2.0, 3.0], 1e-9).unwrap();
    let general = ExtendedMatrix::create(2u32, 2, vec![1.0f64, 2.0, 2.5, 3.0], 1e-9).unwrap();
    let small = ExtendedMatrix::create(2u32, 2, vec![1.0f64, 1e-12, 0.0, 3.0], 1e-9).unwrap();
    let short = ExtendedMatrix::create(2u32, 2, vec![1.0f64, 2.0, 2.0], 1e-9);

    assert_eq!(*symmetric.ref_matrix_type(), BasicMatrixType::Symmetric);
    assert_eq!(symmetric.ref_elements_values().len(), 3);
    assert_eq!(symmetric.copy_element_value_or_zero(at(1, 0)), Ok(2.0));
    assert_eq!(*general.ref_matrix_type(), BasicMatrixType::NonSymmetric);
    assert_eq!(general.ref_elements_values().len(), 4);
    assert_eq!(*small.ref_matrix_type(), BasicMatrixType::Symmetric);
    assert_eq!(small.ref_elements_values().len(), 2);
    assert_eq!(small.copy_element_value_or_zero(at(0, 1)), Ok(0.0));
    assert_eq!(short.err(), Some("Basic matrix: Incorrect number of elements!".to_string()));
    assert_eq!(
        general.copy_element_value_or_zero(at(2, 0)),
        Err("Basic matrix: Inputted indexes are out of matrix size!".to_string())
    );
}

#[test]
fn test_multiply_by_matrix_and_number() {
    let a = ExtendedMatrix::create(2u32, 3, vec![1.0f64, 2.0, 3.0, 4.0, 5.0, 6.0], 1e-9).unwrap();
    let b = ExtendedMatrix::create(3u32, 2, vec![1.0f64, 0.0, 0.0, 1.0, 2.0, 2.0], 1e-9).unwrap();

    let mut product = a.multiply_by_matrix(&b).unwrap();

    assert_eq!(product.copy_shape(), Shape(2, 2));
    assert_eq!(product.copy_element_value_or_zero(at(0, 0)), Ok(7.0));
    assert_eq!(product.copy_element_value_or_zero(at(0, 1)), Ok(8.0));
    assert_eq!(product.copy_element_value_or_zero(at(1, 0)), Ok(16.0));
    assert_eq!(product.copy_element_value_or_zero(at(1, 1)), Ok(17.0));
    product.multiply_by_number(0.5);
    assert_eq!(product.copy_element_value_or_zero(at(1, 1)), Ok(8.5));
    assert_eq!(
        a.multiply_by_matrix(&a).err(),
        Some("Extended matrix: Shapes of matrices do not conform to each other!".to_string())
    );
}

#[test]
fn test_transpose_and_unfold() {
    let mut general =
        ExtendedMatrix::create(2u32, 3, vec![1.0f64, 2.0, 3.0, 4.0, 5.0, 6.0], 1e-9).unwrap();
    let mut symmetric =
        ExtendedMatrix::create(2u32, 2, vec![1.0f64, 2.0, 2.0, 3.0], 1e-9).unwrap();

    general.transpose();
    symmetric.transpose();

    assert_eq!(general.copy_shape(), Shape(3, 2));
    assert_eq!(general.copy_element_value_or_zero(at(2, 0)), Ok(3.0));
    assert_eq!(general.copy_element_value_or_zero(at(0, 1)), Ok(4.0));
    assert_eq!(symmetric.ref_elements_values().len(), 3);

    symmetric.into_nonsymmetric();

    assert_eq!(*symmetric.ref_matrix_type(), BasicMatrixType::NonSymmetric);
    assert_eq!(symmetric.ref_elements_values().len(), 4);
    assert_eq!(symmetric.ref_elements_values().get(&Position(1, 0)), Some(&2.0));
}

#[test]
fn test_remove_rows_and_columns() {
    let mut m = ExtendedMatrix::create(
        3u32,
        3,
        vec![1.0f64, 0.0, 2.0, 0.0, 0.0, 0.0, 3.0, 0.0, 4.0],
        1e-9,
    )
    .unwrap();

    let removed = m.remove_zeros_rows_columns();

    assert_eq!(removed, vec![at(1, 1)]);
    assert_eq!(m.copy_shape(), Shape(2, 2));
    assert_eq!(m.copy_element_value_or_zero(at(0, 1)), Ok(2.0));
    assert_eq!(m.copy_element_value_or_zero(at(1, 0)), Ok(3.0));
    assert_eq!(m.copy_element_value_or_zero(at(1, 1)), Ok(4.0));

    m.remove_selected_row(0);
    assert_eq!(m.copy_shape(), Shape(1, 2));
    assert_eq!(m.copy_element_value_or_zero(at(0, 0)), Ok(3.0));
    m.remove_selected_column(0);
    assert_eq!(m.copy_shape(), Shape(1, 1));
    assert_eq!(m.copy_element_value_or_zero(at(0, 0)), Ok(4.0));
}

#[test]
fn test_determinant_2x2() {
    let m = ExtendedMatrix::create(2u32, 2, vec![1.0f64, 2.0, 3.0, 4.0], 1e-9).unwrap();
    let wide =
        ExtendedMatrix::create(2u32, 3, vec![1.0f64, 2.0, 3.0, 4.0, 5.0, 6.0], 1e-9).unwrap();

    assert_eq!(m.determinant_2x2(), Ok(-2.0));
    assert_eq!(
        wide.determinant_2x2(),
        Err(
            "Extended matrix: Could not find determinant of matrix! Rows number: 2, columns \
             number: 3"
                .to_string()
        )
    );
}

#[test]
fn test_add_submatrix_to_assemblage() {
    let mut assemblage = ExtendedMatrix::create(
        3u32,
        3,
        vec![1.0f64, 0.0, 5.0, 0.0, 2.0, 0.0, 6.0, 0.0, 3.0],
        1e-9,
    )
    .unwrap();
    let mut submatrix =
        ExtendedMatrix::create(2u32, 2, vec![10.0f64, 20.0, 20.0, 30.0], 1e-9).unwrap();

    assemblage.add_submatrix_to_assemblage(
        &mut submatrix,
        &[at(0, 0), at(0, 2), at(2, 2), at(1, 1)],
        &[at(0, 0), at(0, 1), at(1, 1), at(1, 0)],
    );

    assert_eq!(*assemblage.ref_matrix_type(), BasicMatrixType::NonSymmetric);
    assert_eq!(*submatrix.ref_matrix_type(), BasicMatrixType::NonSymmetric);
    assert_eq!(assemblage.copy_element_value_or_zero(at(0, 0)), Ok(11.0));
    assert_eq!(assemblage.copy_element_value_or_zero(at(0, 2)), Ok(25.0));
    assert_eq!(assemblage.copy_element_value_or_zero(at(2, 2)), Ok(33.0));
    assert_eq!(assemblage.copy_element_value_or_zero(at(1, 1)), Ok(22.0));
    assert_eq!(assemblage.copy_element_value_or_zero(at(2, 0)), Ok(6.0));
}

#[test]
fn test_basic_matrix_elements_are_stored_above_the_tolerance() {
    let mut m = BasicMatrix::<u32, f64>::create_default(2, 2, BasicMatrixType::Symmetric);

    m.insert_matrix_element(at(0, 1), 5.0, 1e-9);
    m.insert_matrix_element(at(1, 0), 7.0, 1e-9);
    m.insert_matrix_element(at(1, 1), 1e-12, 1e-9);
    assert_eq!(m.ref_elements_values().len(), 1);
    assert_eq!(m.copy_element_value_or_zero(at(1, 0)), Ok(5.0));

    m.add_sub_mul_assign_matrix_element_value(at(0, 1), 2.0, Operation::Multiplication);
    m.add_sub_mul_assign_matrix_element_value(at(0, 0), 3.0, Operation::Subtraction);
    m.add_sub_mul_assign_matrix_element_value(at(1, 1), 4.0, Operation::Addition);
    m.add_sub_mul_assign_matrix_element_value(at(1, 0), 4.0, Operation::Addition);
    assert_eq!(m.copy_element_value_or_zero(at(0, 1)), Ok(10.0));
    assert_eq!(m.copy_element_value_or_zero(at(0, 0)), Ok(-3.0));
    assert_eq!(m.copy_element_value_or_zero(at(1, 1)), Ok(4.0));
    assert_eq!(m.ref_elements_values().len(), 3);

    m.remove_matrix_element(at(0, 1));
    assert_eq!(m.copy_element_value_or_zero(at(1, 0)), Ok(0.0));
    assert_eq!(m.copy_shape(), Shape(2, 2));
}

#[test]
fn test_values_outside_the_matrix_are_kept() {
    let mut m = BasicMatrix::<u32, f64>::create_default(2, 3, BasicMatrixType::NonSymmetric);
    m.insert_matrix_element(at(0, 1), 2.0, 1e-9);
    m.insert_matrix_element(at(5, 7), 3.0, 1e-9);

    m.multiply_by_number(2.0);
    assert_eq!(m.ref_elements_values().len(), 2);
    assert_eq!(m.ref_elements_values().get(&Position(0, 1)), Some(&4.0));
    assert_eq!(m.ref_elements_values().get(&Position(5, 7)), Some(&6.0));

    let before = m.clone();
    m.transpose();
    assert_eq!(m.copy_shape(), Shape(3, 2));
    assert_eq!(m.ref_elements_values().len(), 2);
    assert_eq!(m.ref_elements_values().get(&Position(1, 0)), Some(&4.0));
    assert_eq!(m.ref_elements_values().get(&Position(7, 5)), Some(&6.0));
    m.transpose();
    assert_eq!(m, before);

    m.remove_selected_row(1);
    assert_eq!(m.copy_shape(), Shape(1, 3));
    assert_eq!(m.ref_elements_values().get(&Position(0, 1)), Some(&4.0));
    assert_eq!(m.ref_elements_values().get(&Position(4, 7)), Some(&6.0));
    m.remove_selected_column(0);
    assert_eq!(m.copy_shape(), Shape(1, 2));
    assert_eq!(m.ref_elements_values().get(&Position(0, 0)), Some(&4.0));
    assert_eq!(m.ref_elements_values().get(&Position(4, 6)), Some(&6.0));
}

#[test]
fn test_empty_rows_and_columns_are_taken_out_around_a_value_outside() {
    let mut m = BasicMatrix::<u32, f64>::create_default(1, 1, BasicMatrixType::NonSymmetric);
    m.insert_matrix_element(at(3, 2), 5.0, 1e-9);

    let removed = m.remove_zeros_rows_columns();

    assert_eq!(removed, vec![at(0, 0)]);
    assert_eq!(m.copy_shape(), Shape(0, 0));
    assert_eq!(m.ref_elements_values().len(), 1);
    assert_eq!(m.ref_elements_values().get(&Position(2, 1)), Some(&5.0));
}

#[test]
fn test_a_value_beside_the_removed_row_stays_unless_one_moves_onto_it() {
    let mut m = BasicMatrix::<u32, f64>::create_default(2, 2, BasicMatrixType::NonSymmetric);
    m.insert_matrix_element(at(0, 5), 1.0, 1e-9);
    m.insert_matrix_element(at(0, 6), 2.0, 1e-9);
    m.insert_matrix_element(at(1, 6), 3.0, 1e-9);
    m.insert_matrix_element(at(0, 1), 4.0, 1e-9);

    m.remove_selected_row(0);

    assert_eq!(m.ref_elements_values().len(), 2);
    assert_eq!(m.ref_elements_values().get(&Position(0, 5)), Some(&1.0));
    assert_eq!(m.ref_elements_values().get(&Position(0, 6)), Some(&3.0));
}

#[test]
fn test_unfolding_and_symmetrizing_reach_every_stored_value() {
    let mut m = BasicMatrix::<u32, f64>::create_default(2, 3, BasicMatrixType::Symmetric);
    m.insert_matrix_element(at(0, 2), 7.0, 1e-9);
    m.insert_matrix_element(at(1, 1), 8.0, 1e-9);

    m.into_nonsymmetric();
    assert_eq!(m.ref_elements_values().len(), 3);
    assert_eq!(m.ref_elements_values().get(&Position(2, 0)), Some(&7.0));

    m.try_to_symmetrize(1e-9);
    assert_eq!(*m.ref_matrix_type(), BasicMatrixType::Symmetric);
    assert_eq!(m.ref_elements_values().len(), 2);
    assert_eq!(m.ref_elements_values().get(&Position(0, 2)), Some(&7.0));
}

#[test]
fn test_a_matrix_equals_one_that_stores_its_values_and_more() {
    let small = BasicMatrix::create(2u32, 2, vec![1.0f64, 0.0, 0.0, 0.0], 1e-12).unwrap();
    let large = BasicMatrix::create(2u32, 2, vec![1.0f64, 0.0, 0.0, 2.0], 1e-12).unwrap();
    let other = BasicMatrix::create(2u32, 2, vec![3.0f64, 0.0, 0.0, 2.0], 1e-12).unwrap();
    let wide = BasicMatrix::create(2u32, 3, vec![1.0f64, 0.0, 0.0, 0.0, 0.0, 0.0], 1e-12).unwrap();
    let mut unfolded = small.clone();
    unfolded.into_nonsymmetric();

    assert!(small == small.clone());
    assert!(small == large);
    assert!(large != small);
    assert!(small != other);
    assert!(small != wide);
    assert!(small != unfolded);

    let first = ExtendedMatrix::create(2u32, 2, vec![1.0f64, 0.0, 0.0, 0.0], 1e-12).unwrap();
    let second = ExtendedMatrix::create(2u32, 2, vec![1.0f64, 0.0, 0.0, 2.0], 1e-12).unwrap();
    let third = ExtendedMatrix::create(2u32, 2, vec![1.0f64, 0.0, 0.0, 0.0], 1e-9).unwrap();
    assert!(first == second);
    assert!(second != first);
    assert!(first != third);
}
