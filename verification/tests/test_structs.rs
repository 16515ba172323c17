use extended_matrix::{Position, Shape};

#[test]
fn test_swap_row_and_column() {
    let mut p = Position(0, 3);

    let expected = Position(3, 0);

    p.swap_row_and_column();

    assert_eq!(p, expected);
}

#[test]
fn test_update() {
    let mut s = Shape(2, 3);

    let expected = Shape(3, 2);

    s.update(3, 2);

    assert_eq!(s, expected);
}

#[test]
fn test_swap_rows_and_columns_number() {
    let mut s = Shape(1, 3);

    let expected = Shape(3, 1);

    s.swap_rows_number_and_columns_number();

    assert_eq!(s, expected);
}
