use extended_matrix::{
    BasicOperationsTrait, Elements, IntoMatrixTrait, Matrix, Position, Shape, Vector3,
};

#[test]
fn test_vec_3_create() {
    let v = Vector3::create(&[1.0, 2.0, 3.0]);

    let v_expected = Vector3 {
        shape: Shape(3, 1),
        elements: Elements::from_entries(&[
            (Position(0, 0), 1.0),
            (Position(1, 0), 2.0),
            (Position(2, 0), 3.0),
        ]),
    };

    assert_eq!(v, v_expected);
}

#[test]
fn test_vec_3_test_get_shape() {
    let v = Vector3::create(&[1.0, 2.0, 3.0]);

    let s_expected = &Shape(3, 1);

    assert_eq!(v.get_shape(), s_expected);
}

#[test]
fn test_vec_3_test_get_mut_shape() {
    let mut v = Vector3::create(&[1.0, 2.0, 3.0]);

    let s_expected = &mut Shape(3, 1);

    assert_eq!(v.get_mut_shape(), s_expected);
}

#[test]
fn test_vec_3_test_get_elements() {
    let v = Vector3::create(&[1.0, 2.0, 3.0]);

    let e_expected = &Elements::from_entries(&[
        (Position(0, 0), 1.0),
        (Position(1, 0), 2.0),
        (Position(2, 0), 3.0),
    ]);

    assert_eq!(v.get_elements(), e_expected);
}

#[test]
fn test_vec_3_test_get_mut_elements() {
    let mut v = Vector3::create(&[1.0, 2.0, 3.0]);

    let e_expected = &mut Elements::from_entries(&[
        (Position(0, 0), 1.0),
        (Position(1, 0), 2.0),
        (Position(2, 0), 3.0),
    ]);

    assert_eq!(v.get_mut_elements(), e_expected);
}

#[test]
fn test_vec_3_test_into_matrix() {
    let v = Vector3::create(&[1.0, 2.0, 3.0]);

    let m_expected = Matrix {
        shape: Shape(3, 1),
        elements: Elements::from_entries(&[
            (Position(0, 0), 1.0),
            (Position(1, 0), 2.0),
            (Position(2, 0), 3.0),
        ]),
    };

    assert_eq!(v.into_matrix(), m_expected);
}
