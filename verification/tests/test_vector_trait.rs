use extended_matrix::{BasicOperationsTrait, Matrix, Shape, Vector, Vector3, VectorTrait};

#[test]
fn test_dot_product() {
    let v_1 = Vector3::create(&[1.0, 3.0, -5.0]);
    let v_2 = Vector3::create(&[4.0, -2.0, -1.0]);
    let v_3 = v_1.transpose();
    let v_4 = v_2.transpose();
    let v_5 = Vector::create(&[1.0, 3.0, -5.0, 8.0]);
    let v_6 = Vector::create(&[4.0, -2.0, -1.0, 2.0]);
    assert_eq!(v_1.dot_product(&v_2), Ok(3.0));
    assert_eq!(v_3.dot_product(&v_2), Ok(3.0));
    assert_eq!(v_3.dot_product(&v_4), Ok(3.0));
    assert_eq!(v_1.dot_product(&v_4), Ok(3.0));
    assert_eq!(v_5.dot_product(&v_6), Ok(19.0));
}

#[test]
fn test_sum_of_squares() {
    let v_1 = Vector3::create(&[1.0, 2.0, 3.0]);
    let v_2 = Vector::create(&[1.0, 2.0, 3.0, 4.0]);
    assert_eq!(v_1.sum_of_squares(), Ok(14.0));
    assert_eq!(v_2.sum_of_squares(), Ok(30.0));
}

#[test]
fn test_vector_shape_conformity_check() {
    let upright = Vector::create(&[1.0, 2.0]);
    let lying = upright.transpose();
    let mut table = Vector::create(&[1.0, 2.0]);
    table.shape = Shape(2, 2);
    let short = Vector::create(&[1.0]);

    assert_eq!(upright.vector_shape_conformity_check(), Ok(()));
    assert_eq!(lying.vector_shape_conformity_check(), Ok(()));
    assert_eq!(table.vector_shape_conformity_check(), Err("Not a vector".to_string()));
    assert_eq!(table.dot_product(&upright), Err("Not a vector".to_string()));
    assert_eq!(
        upright.dot_product(&short),
        Err("Shapes of matrices do not conform to each other!".to_string())
    );
    assert_eq!(*lying.get_shape(), Shape(1, 2));
}

#[test]
fn test_shape_does_not_depend_on_missing_entries() {
    let m = Matrix::<f64>::create(0, 3, &[]);

    assert_eq!(*m.get_shape(), Shape(0, 3));
    assert_eq!(m.get_elements().len(), 0);
}

#[test]
fn test_norm() {
    let v_1 = Vector3::create(&[1.0, 2.0, 3.0]);
    let v_2 = Vector::create(&[1.0, 2.0, 3.0, 4.0]);
    assert_eq!(v_1.sum_of_squares().map(f64::sqrt), Ok(14f64.sqrt()));
    assert_eq!(v_2.sum_of_squares().map(f64::sqrt), Ok(30f64.sqrt()));
}

#[test]
fn test_sum_of_squares_takes_every_stored_value() {
    let mut v = Vector::create(&[1.0f64, 2.0]);
    v.get_mut_elements().insert(extended_matrix::Position(7, 3), 2.0);
    let mut table = Vector::create(&[1.0f64, 2.0]);
    *table.get_mut_shape() = Shape(2, 2);

    assert_eq!(v.sum_of_squares(), Ok(9.0));
    assert_eq!(table.sum_of_squares(), Err("Not a vector".to_string()));
}
