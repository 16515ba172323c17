use extended_matrix::extended_matrix::Failure;
use extended_matrix::functions::{
    copy_value_by_index, decompose, matrix_element_value_extractor, matrix_size_check, pivot,
    substitute, try_to_compact_matrix,
};
use extended_matrix::{
    BasicMatrixType, ExtendedMatrix, MatrixElementPosition, SquareMatrix, SquareMatrixTrait,
    Vector,
};
use extended_matrix::{BasicOperationsTrait, Position};

fn at(row: u32, column: u32) -> MatrixElementPosition<u32> {
    MatrixElementPosition::create(row, column)
}

fn stiffness() -> Vec<f64> {
    vec![5.0, -4.0, 1.0, 0.0, -4.0, 6.0, -4.0, 1.0, 1.0, -4.0, 6.0, -4.0, 0.0, 1.0, -4.0, 5.0]
}

#[test]
fn test_matrix_size_check() {
    assert_eq!(matrix_size_check(1u8, 2u8, (2, 3)), Ok(()));
    assert_eq!(
        matrix_size_check(2u8, 2u8, (2, 3)),
        Err("Basic matrix: Inputted indexes are out of matrix size!")
    );
    assert_eq!(
        matrix_size_check(1u8, 3u8, (2, 3)),
        Err("Basic matrix: Inputted indexes are out of matrix size!")
    );
}

#[test]
fn test_copy_value_by_index() {
    let indexes = [4u32, 7, 9, 7];
    let values = [1.5f64, 2.5, 3.5, 4.5];

    assert_eq!(copy_value_by_index(7, &indexes, &values), 2.5);
    assert_eq!(copy_value_by_index(9, &indexes, &values), 3.5);
    assert_eq!(copy_value_by_index(5, &indexes, &values), 0.0);
}

#[test]
fn test_matrix_element_value_extractor() {
    let m = ExtendedMatrix::create(2u32, 2, vec![1.0f64, 2.0, 2.0, 3.0], 1e-9).unwrap();

    assert_eq!(matrix_element_value_extractor(1, 0, &m), Ok(2.0));
    assert_eq!(
        matrix_element_value_extractor(0, 2, &m),
        Err("Basic matrix: Inputted indexes are out of matrix size!".to_string())
    );
}

#[test]
fn test_try_to_compact_matrix() {
    let m = ExtendedMatrix::create(
        5u32,
        5,
        vec![
            2.0f64, -2.0, 0.0, 0.0, -1.0, -2.0, 3.0, -2.0, 0.0, 0.0, 0.0, -2.0, 5.0, -3.0, 0.0,
            0.0, 0.0, -3.0, 10.0, 4.0, -1.0, 0.0, 0.0, 4.0, 10.0,
        ],
        1e-9,
    )
    .unwrap();
    let with_zero =
        ExtendedMatrix::create(2u32, 2, vec![1.0f64, 2.0, 2.0, 0.0], 1e-9).unwrap();
    let wide =
        ExtendedMatrix::create(1u32, 2, vec![1.0f64, 2.0], 1e-9).unwrap();

    assert_eq!(*m.ref_matrix_type(), BasicMatrixType::Symmetric);
    assert_eq!(
        try_to_compact_matrix(&m),
        Ok((
            vec![2.0, 3.0, -2.0, 5.0, -2.0, 10.0, -3.0, 10.0, 4.0, 0.0, 0.0, -1.0],
            vec![0, 1, 3, 5, 7, 12]
        ))
    );
    assert_eq!(
        try_to_compact_matrix(&with_zero),
        Err("Try to compact matrix action: Diagonal element 1, 1 equals to zero".to_string())
    );
    assert_eq!(
        try_to_compact_matrix(&wide),
        Err("Basic matrix: Inputted indexes are out of matrix size!".to_string())
    );
}

#[test]
fn test_decompose_and_substitute_solve_the_system() {
    let mut a = ExtendedMatrix::create(4u32, 4, stiffness(), 1e-12).unwrap();
    a.into_nonsymmetric();
    let mut o = vec![0usize; 4];
    let mut s = vec![0.0f64; 4];

    assert_eq!(decompose(&mut a, 4, 1e-12, &mut o, &mut s), Ok(()));
    assert_eq!(s, vec![5.0, 6.0, 6.0, 5.0]);
    let mut listed = o.clone();
    listed.sort();
    assert_eq!(listed, vec![0, 1, 2, 3]);
    assert_eq!(o[0], 0);

    let mut b = vec![0.0, 1.0, 0.0, 0.0];
    let mut x = vec![0.0; 4];
    assert_eq!(substitute(&a, &o, 4, &mut b, &mut x), Ok(()));

    let sm = SquareMatrix::create(4, &stiffness());
    let rhs = Vector::create(&[0.0, 1.0, 0.0, 0.0]);
    let mut expected = Vector::create(&[0.0; 4]);
    sm.lup_decomp(&rhs, &mut expected, 1e-12).unwrap();
    for i in 0..4 {
        assert_eq!(x[i], *expected.get_element_value(&Position(i, 0)).unwrap());
    }
}

#[test]
fn test_pivot_brings_the_largest_ratio_up() {
    let a = ExtendedMatrix::create(3u32, 3, vec![1.0f64, 2.0, 3.0, 8.0, 1.0, 1.0, 4.0, 0.5, 9.0], 1e-12)
        .unwrap();
    let mut o = vec![0usize, 1, 2];
    let s = vec![3.0, 8.0, 9.0];

    assert_eq!(pivot(&a, &mut o, &s, 3, 0), Ok(()));
    assert_eq!(o, vec![1, 0, 2]);
}

#[test]
fn test_decompose_reports_the_small_pivot() {
    let mut a = ExtendedMatrix::create(2u32, 2, vec![0.0f64, 1.0, 0.0, 1.0], 1e-9).unwrap();
    a.into_nonsymmetric();
    let before = a.clone();
    let mut o = vec![0usize; 2];
    let mut s = vec![0.0f64; 2];

    assert_eq!(decompose(&mut a, 2, 1e-9, &mut o, &mut s), Err(0.0));
    assert_eq!(a, before);
}

#[test]
fn test_lu_decomposition_and_determinant() {
    let m = ExtendedMatrix::create(2u32, 2, vec![4.0f64, 3.0, 6.0, 3.0], 1e-12).unwrap();
    let wide = ExtendedMatrix::create(2u32, 3, vec![1.0f64, 2.0, 3.0, 4.0, 5.0, 6.0], 1e-12).unwrap();
    let singular = ExtendedMatrix::create(2u32, 2, vec![0.0f64, 1.0, 0.0, 1.0], 1e-9).unwrap();
    let cancelling = ExtendedMatrix::create(2u32, 2, vec![1.0f64, 2.0, 2.0, 4.0], 1e-9).unwrap();

    let decomposed = m.lu_decomposition().unwrap();

    assert_eq!(decomposed.copy_element_value_or_zero(at(0, 0)), Ok(4.0));
    assert_eq!(decomposed.copy_element_value_or_zero(at(0, 1)), Ok(3.0));
    assert_eq!(decomposed.copy_element_value_or_zero(at(1, 0)), Ok(1.5));
    assert_eq!(decomposed.copy_element_value_or_zero(at(1, 1)), Ok(-1.5));
    assert_eq!(m.determinant(), Ok(-6.0));
    assert_eq!(cancelling.determinant(), Ok(4.0));
    assert_eq!(
        wide.lu_decomposition(),
        Err(Failure::Message(
            "Extended matrix: Could not decompose matrix! Rows number 2 does not match to \
             columns number 3"
                .to_string()
        ))
    );
    assert_eq!(
        wide.determinant(),
        Err(Failure::Message(
            "Extended matrix: Could not find determinant of matrix! Rows number 2 does not \
             match to columns number 3"
                .to_string()
        ))
    );
    assert_eq!(singular.determinant(), Err(Failure::SmallPivot(0.0)));
}

#[test]
fn test_extended_matrix_inverse() {
    let m = ExtendedMatrix::create(4u32, 4, stiffness(), 1e-12).unwrap();
    let singular = ExtendedMatrix::create(2u32, 2, vec![0.0f64, 1.0, 0.0, 1.0], 1e-9).unwrap();

    let inverse = m.inverse().unwrap();

    let sm = SquareMatrix::create(4, &stiffness());
    let mut x = Vector::create(&[0.0; 4]);
    let expected = sm.inverse(&mut x, 1e-12).unwrap();
    for i in 0..4u32 {
        for j in 0..4u32 {
            assert_eq!(
                inverse.copy_element_value_or_zero(at(i, j)),
                Ok(expected.get_element_value_or_zero(&Position(i as usize, j as usize)))
            );
        }
    }
    assert_eq!(*inverse.ref_matrix_type(), BasicMatrixType::NonSymmetric);
    assert_eq!(singular.inverse(), Err(Failure::SmallPivot(0.0)));
}

#[test]
fn test_direct_solution() {
    let m = ExtendedMatrix::create(4u32, 4, stiffness(), 1e-12).unwrap();
    let b = ExtendedMatrix::create(4u32, 1, vec![0.0f64, 1.0, 0.0, 0.0], 1e-12).unwrap();
    let general = ExtendedMatrix::create(2u32, 2, vec![2.0f64, 1.0, 4.0, 5.0], 1e-12).unwrap();
    let rhs = ExtendedMatrix::create(2u32, 1, vec![4.0f64, 14.0], 1e-12).unwrap();
    let two_columns =
        ExtendedMatrix::create(2u32, 2, vec![4.0f64, 1.0, 14.0, 1.0], 1e-12).unwrap();
    let with_zero_pivot =
        ExtendedMatrix::create(2u32, 2, vec![0.0f64, 1.0, 4.0, 5.0], 1e-12).unwrap();

    let x = m.direct_solution(&b).unwrap();
    let expected = [1.6, 2.6, 2.4, 1.4];
    for i in 0..4u32 {
        let value: f64 = x.copy_element_value_or_zero(at(i, 0)).unwrap();
        assert!((value - expected[i as usize]).abs() < 1e-9);
    }

    let y = general.direct_solution(&rhs).unwrap();
    assert_eq!(y.copy_element_value_or_zero(at(0, 0)), Ok(1.0));
    assert_eq!(y.copy_element_value_or_zero(at(1, 0)), Ok(2.0));
    assert_eq!(
        general.direct_solution(&b).err(),
        Some("Extended matrix: Shapes of matrices do not conform to each other!".to_string())
    );
    assert_eq!(
        general.direct_solution(&two_columns).err(),
        Some("Basic matrix: Incorrect number of elements!".to_string())
    );
    assert_eq!(
        with_zero_pivot.direct_solution(&rhs).err(),
        Some("Extended matrix: Matrix is singular!".to_string())
    );
}

#[test]
fn test_direct_solution_of_matrices_that_are_not_square() {
    let tall = ExtendedMatrix::create(3u32, 2, vec![2.0f64, 1.0, 4.0, 5.0, 9.0, 9.0], 1e-12).unwrap();
    let rhs = ExtendedMatrix::create(2u32, 1, vec![4.0f64, 14.0], 1e-12).unwrap();
    let wide = ExtendedMatrix::create(2u32, 3, vec![2.0f64, 1.0, 1.0, 4.0, 5.0, 1.0], 1e-12).unwrap();
    let wide_with_zero =
        ExtendedMatrix::create(2u32, 3, vec![0.0f64, 1.0, 1.0, 4.0, 5.0, 1.0], 1e-12).unwrap();
    let flat = ExtendedMatrix::create(1u32, 2, vec![2.0f64, 1.0], 1e-12).unwrap();
    let long = ExtendedMatrix::create(3u32, 1, vec![4.0f64, 14.0, 1.0], 1e-12).unwrap();
    let square = ExtendedMatrix::create(2u32, 2, vec![2.0f64, 1.0, 4.0, 5.0], 1e-12).unwrap();
    let square_with_zero =
        ExtendedMatrix::create(2u32, 2, vec![0.0f64, 1.0, 4.0, 5.0], 1e-12).unwrap();
    let without_columns = ExtendedMatrix::create(2u32, 0, vec![], 1e-12).unwrap();

    let x = tall.direct_solution(&rhs).unwrap();
    assert_eq!(x.copy_shape(), extended_matrix::Shape(3, 1));
    assert_eq!(x.copy_element_value_or_zero(at(0, 0)), Ok(1.0));
    assert_eq!(x.copy_element_value_or_zero(at(1, 0)), Ok(2.0));
    assert_eq!(x.copy_element_value_or_zero(at(2, 0)), Ok(0.0));
    assert_eq!(x.ref_elements_values().len(), 2);

    let outside = Some("Basic matrix: Inputted indexes are out of matrix size!".to_string());
    let singular = Some("Extended matrix: Matrix is singular!".to_string());
    assert_eq!(wide.direct_solution(&long).err(), outside);
    assert_eq!(wide_with_zero.direct_solution(&long).err(), singular);
    assert_eq!(flat.direct_solution(&rhs).err(), outside);
    assert_eq!(square.direct_solution(&without_columns).err(), outside);
    assert_eq!(square_with_zero.direct_solution(&without_columns).err(), singular);
}

#[test]
fn test_inverse_of_matrices_that_are_not_square() {
    let wide = ExtendedMatrix::create(2u32, 3, vec![1.0f64, 2.0, 3.0, 4.0, 5.0, 6.0], 1e-12).unwrap();
    let tall = ExtendedMatrix::create(3u32, 2, vec![1.0f64, 2.0, 3.0, 4.0, 5.0, 6.0], 1e-12).unwrap();

    assert_eq!(
        wide.inverse(),
        Err(Failure::Message("Basic matrix: Incorrect number of elements!".to_string()))
    );
    assert_eq!(
        tall.inverse(),
        Err(Failure::Message(
            "Extended matrix: Inverse matrix calculation: Ill conditioned system: \"Basic \
             matrix: Inputted indexes are out of matrix size!\""
                .to_string()
        ))
    );
}

#[test]
fn test_decompose_leaves_the_factors_found_before_the_small_pivot() {
    let mut a = ExtendedMatrix::create(2u32, 2, vec![1.0f64, 2.0, 100.0, 200.01], 1e-3).unwrap();
    a.into_nonsymmetric();
    let mut o = vec![0usize; 2];
    let mut s = vec![0.0f64; 2];
    let rest = 200.01 - 100.0 * 2.0;

    assert_eq!(decompose(&mut a, 2, 1e-3, &mut o, &mut s), Err(rest / 200.01));

    assert_eq!(o, vec![0, 1]);
    assert_eq!(s, vec![2.0, 200.01]);
    assert_eq!(a.copy_element_value_or_zero(at(0, 0)), Ok(1.0));
    assert_eq!(a.copy_element_value_or_zero(at(0, 1)), Ok(2.0));
    assert_eq!(a.copy_element_value_or_zero(at(1, 0)), Ok(100.0));
    assert_eq!(a.copy_element_value_or_zero(at(1, 1)), Ok(rest));
}

#[test]
fn test_decompose_leaves_the_order_of_the_small_pivot() {
    let mut a = ExtendedMatrix::create(2u32, 2, vec![0.001f64, 1.0, 0.002, 1.0], 1e-9).unwrap();
    a.into_nonsymmetric();
    let before = a.clone();
    let mut o = vec![0usize; 2];
    let mut s = vec![0.0f64; 2];

    assert_eq!(decompose(&mut a, 2, 0.01, &mut o, &mut s), Err(0.002));

    assert_eq!(o, vec![1, 0]);
    assert_eq!(s, vec![1.0, 1.0]);
    assert_eq!(a, before);
}
