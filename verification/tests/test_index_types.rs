use extended_matrix::functions::{conversion_uint_into_usize, conversion_usize_into_uint};
use extended_matrix::basic_matrix::non_symmetric_matrix::NonSymmetricMatrix;
use extended_matrix::basic_matrix::symmetric_matrix::SymmetricMatrix;
use extended_matrix::{BasicMatrixType, MatrixElementPosition, One, Shape, UIntTrait};

#[test]
fn test_conversions_between_index_types() {
    assert_eq!(conversion_uint_into_usize(7u8), 7usize);
    assert_eq!(conversion_uint_into_usize(70000u32), 70000usize);
    assert_eq!(conversion_usize_into_uint::<u16>(513), 513u16);
    assert_eq!(conversion_usize_into_uint::<u64>(0), 0u64);
    assert_eq!(u32::from_usize(12).into_usize(), 12);
}

#[test]
fn test_one() {
    assert_eq!(u8::one(), 1);
    assert_eq!(u16::one(), 1);
    assert_eq!(u32::one(), 1);
    assert_eq!(u64::one(), 1);
    assert_eq!(usize::one(), 1);
}

#[test]
fn test_matrix_element_position() {
    let mut position = MatrixElementPosition::create(2u8, 5u8);

    assert_eq!(*position.ref_row(), 2);
    assert_eq!(*position.ref_column(), 5);

    position.swap_row_and_column();
    assert_eq!(position, MatrixElementPosition::create(5, 2));

    position.decrease_row_number();
    position.decrease_column_number();
    assert_eq!(position, MatrixElementPosition::create(4, 1));
}

#[test]
fn test_non_symmetric_matrix_lists() {
    let mut m = NonSymmetricMatrix::create(3u32, 3u32, vec![0, 4, 5, 8], vec![1.0f64, 2.0, 3.0, 4.0]);

    assert_eq!(*m.ref_rows_number(), 3);
    assert_eq!(*m.ref_columns_number(), 3);
    assert_eq!(m.ref_elements_indexes(), &[0, 4, 5, 8]);
    assert_eq!(m.ref_elements_values(), &[1.0, 2.0, 3.0, 4.0]);
    assert_eq!(m.define_type(), BasicMatrixType::NonSymmetric);
    assert_eq!(m.read_element_value(1, 2), Ok(3.0));
    assert_eq!(m.read_element_value(2, 0), Ok(0.0));
    assert_eq!(
        m.read_element_value(3, 0),
        Err("Basic matrix: Inputted indexes are out of matrix size!")
    );

    m.multiply_by_number(2.0);
    assert_eq!(m.ref_elements_values(), &[2.0, 4.0, 6.0, 8.0]);

    m.remove_row(1);
    assert_eq!(*m.ref_rows_number(), 2);
    assert_eq!(m.ref_elements_indexes(), &[0, 1, 2, 5]);

    let mut n = NonSymmetricMatrix::create(2u32, 3u32, vec![0, 2, 4, 5], vec![1.0f64, 2.0, 3.0, 4.0]);
    n.remove_column(1);
    assert_eq!(*n.ref_columns_number(), 2);
    assert_eq!(n.ref_elements_indexes(), &[0, 1, 3, 3]);
}

#[test]
fn test_symmetric_matrix_lists() {
    let mut m = SymmetricMatrix::create(3u32, vec![0, 1, 4, 8], vec![1.0f64, 2.0, 3.0, 4.0]);

    assert_eq!(*m.ref_rows_and_columns_number(), 3);
    assert_eq!(m.ref_elements_indexes(), &[0, 1, 4, 8]);
    assert_eq!(m.ref_elements_values(), &[1.0, 2.0, 3.0, 4.0]);
    assert_eq!(m.copy_shape(), Shape(3, 3));
    assert_eq!(m.define_type(), BasicMatrixType::Symmetric);
    assert_eq!(m.read_element_value(0, 1), Ok(2.0));
    assert_eq!(m.read_element_value(1, 0), Ok(2.0));
    assert_eq!(m.read_element_value(2, 1), Ok(0.0));
    assert_eq!(
        m.read_element_value(0, 3),
        Err("Basic matrix: Inputted indexes are out of matrix size!")
    );

    m.transpose();
    m.multiply_by_number(0.5);
    assert_eq!(m.ref_elements_values(), &[0.5, 1.0, 1.5, 2.0]);
}
