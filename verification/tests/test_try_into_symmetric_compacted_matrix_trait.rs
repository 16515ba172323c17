use extended_matrix::{SquareMatrix, TryIntoSymmetricCompactedMatrixTrait};

#[test]
fn test_try_into_symmetric_compacted_matrix() {
    let sm_1 = SquareMatrix::create(
        4,
        &[
            5.0, -4.0, 1.0, 0.0, -4.000001, 6.0, -4.0, 1.0, 1.0, -4.0, 6.0, -4.0, 0.0, 1.0, -4.0,
            5.0,
        ],
    );
    let sm_2 = SquareMatrix::create(
        5,
        &[
            2.0, -2.0, 0.0, 0.0, -1.0, -2.0, 3.0, -2.0, 0.0, 0.0, 0.0, -2.0, 5.0, -3.0, 0.0, 0.0,
            0.0, -3.0, 10.0, 4.0, -1.0, 0.0, 0.0, 4.0, 10.0,
        ],
    );
    let sm_3 = SquareMatrix::create(
        4,
        &[
            5.0, -4.0, 1.0, 0.0, -4.000001, 6.0, -4.0, 1.0, 1.0, -4.0, 6.0, -4.0, 0.0, 1.0, -4.0,
            0.0,
        ],
    );
    let sm_4 = SquareMatrix::create(
        4,
        &[
            5.0, -4.0, 1.0, 0.0, -4.25, 6.0, -4.0, 1.0, 1.0, -4.0, 6.0, -4.0, 0.0, 1.0, -4.0, 0.0,
        ],
    );

    let expected_a_1 = vec![5.0, 6.0, -4.0, 6.0, -4.0, 1.0, 5.0, -4.0, 1.0];
    let expected_maxa_1 = vec![0i64, 1, 3, 6, 9];
    let expected_a_2 = vec![2.0, 3.0, -2.0, 5.0, -2.0, 10.0, -3.0, 10.0, 4.0, 0.0, 0.0, -1.0];
    let expected_maxa_2 = vec![0, 1, 3, 5, 7, 12];

    assert_eq!(
        sm_1.try_into_symmetric_compacted_matrix(1e-6),
        Ok((expected_a_1, expected_maxa_1))
    );
    assert_eq!(
        sm_2.try_into_symmetric_compacted_matrix(1e-6),
        Ok((expected_a_2, expected_maxa_2))
    );
    assert_eq!(
        sm_3.try_into_symmetric_compacted_matrix(1e-6),
        Err("Diagonal element [3, 3] equals to zero!".to_string())
    );
    assert_eq!(
        sm_4.try_into_symmetric_compacted_matrix(1e-6),
        Err("Element [0, 1] does not match with [1, 0]!".to_string())
    );
}

#[test]
fn test_forced_into_symmetric_compacted_matrix() {
    let mut warnings_1 = Vec::new();
    let sm_1 = SquareMatrix::create(
        4,
        &[
            5.0, -4.0, 1.0, 0.0, -4.000001, 6.0, -4.0, 1.0, 1.0, -4.0, 6.0, -4.0, 0.0, 1.0, -4.0,
            5.0,
        ],
    );
    let mut warnings_2 = Vec::new();
    let sm_2 = SquareMatrix::create(
        5,
        &[
            2.0, -2.0, 0.0, 0.0, -1.0, -2.0, 3.0, -2.0, 0.0, 0.0, 0.0, -2.0, 5.0, -3.0, 0.0, 0.0,
            0.0, -3.0, 10.0, 4.0, -1.0, 0.0, 0.0, 4.0, 10.0,
        ],
    );
    let mut warnings_3 = Vec::new();
    let sm_3 = SquareMatrix::create(
        4,
        &[
            5.0, -4.0, 1.0, 0.0, -4.25, 6.0, -4.0, 1.0, 1.0, -4.0, 6.0, -4.0, 0.0, 1.0, -4.0, 0.0,
        ],
    );

    let expected_warnings_1: Vec<String> = Vec::new();
    let expected_a_1 = vec![5.0, 6.0, -4.0, 6.0, -4.0, 1.0, 5.0, -4.0, 1.0];
    let expected_maxa_1 = vec![0i64, 1, 3, 6, 9];
    let expected_warnings_2: Vec<String> = Vec::new();
    let expected_a_2 = vec![2.0, 3.0, -2.0, 5.0, -2.0, 10.0, -3.0, 10.0, 4.0, 0.0, 0.0, -1.0];
    let expected_maxa_2 = vec![0, 1, 3, 5, 7, 12];
    let expected_warnings_3: Vec<String> = vec![
        "Element [0, 1] does not match with [1, 0]!".to_string(),
        "Diagonal element [3, 3] equals to zero!".to_string(),
    ];
    let expected_a_3 = vec![5.0, 6.0, -4.0, 6.0, -4.0, 1.0, 0.0, -4.0, 1.0];
    let expected_maxa_3 = vec![0i64, 1, 3, 6, 9];

    assert_eq!(
        sm_1.forced_into_symmetric_compacted_matrix(1e-6, &mut warnings_1),
        (expected_a_1, expected_maxa_1)
    );
    assert_eq!(warnings_1, expected_warnings_1);
    assert_eq!(
        sm_2.forced_into_symmetric_compacted_matrix(1e-6, &mut warnings_2),
        (expected_a_2, expected_maxa_2)
    );
    assert_eq!(warnings_2, expected_warnings_2);
    assert_eq!(
        sm_3.forced_into_symmetric_compacted_matrix(1e-6, &mut warnings_3),
        (expected_a_3, expected_maxa_3)
    );
    assert_eq!(warnings_3, expected_warnings_3);
}

#[test]
fn test_compaction_diagonal_offsets() {
    let sm = SquareMatrix::create(
        5,
        &[
            2.0, -2.0, 0.0, 0.0, -1.0, -2.0, 3.0, -2.0, 0.0, 0.0, 0.0, -2.0, 5.0, -3.0, 0.0, 0.0,
            0.0, -3.0, 10.0, 4.0, -1.0, 0.0, 0.0, 4.0, 10.0,
        ],
    );

    let (_, diag_index) = sm.try_into_symmetric_compacted_matrix(1e-6).unwrap();

    assert_eq!(diag_index, vec![0, 1, 3, 5, 7, 12]);
}

#[test]
fn test_compaction_can_be_read_back() {
    let values: [f64; 25] = [
        2.0, -2.0, 0.0, 0.0, -1.0, -2.0, 3.0, -2.0, 0.0, 0.0, 0.0, -2.0, 5.0, -3.0, 0.0, 0.0, 0.0,
        -3.0, 10.0, 4.0, -1.0, 0.0, 0.0, 4.0, 10.0,
    ];
    let sm = SquareMatrix::create(5, &values);

    let (packed, diag_index) = sm.try_into_symmetric_compacted_matrix(1e-6).unwrap();

    for column in 0..5usize {
        let start = diag_index[column] as usize;
        let height = (diag_index[column + 1] - diag_index[column]) as usize;
        for row in 0..=column {
            let read = if column - row < height { packed[start + column - row] } else { 0.0 };
            assert_eq!(read, values[row * 5 + column]);
        }
    }
}

#[test]
fn test_compaction_of_a_single_value_and_of_nothing() {
    let single = SquareMatrix::create(1, &[7.0]);
    let nothing = SquareMatrix::<f64>::create(0, &[]);

    assert_eq!(single.try_into_symmetric_compacted_matrix(1e-6), Ok((vec![7.0], vec![0, 1])));
    assert_eq!(nothing.try_into_symmetric_compacted_matrix(1e-6), Ok((vec![], vec![0])));
}
