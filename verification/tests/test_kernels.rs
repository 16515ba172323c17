use extended_matrix::gep::{eliminate_gep, row_scales, substitute_gep};
use extended_matrix::lup::{decompose_lup, substitute_lup};
use extended_matrix::row_order::{merge, ordered, stands_before};
use extended_matrix::Position;

#[test]
fn test_eliminate_gep_brings_the_system_to_upper_form() {
    let mut a = vec![vec![2.0f64, 1.0], vec![4.0, 3.0]];
    let mut b = vec![3.0f64, 7.0];
    let mut s = row_scales(&a, 2);
    assert_eq!(s, vec![2.0, 4.0]);

    assert_eq!(eliminate_gep(&mut a, &mut s, 2, &mut b, 1e-9), Ok(0));

    assert_eq!(a, vec![vec![2.0, 1.0], vec![4.0, 1.0]]);
    assert_eq!(b, vec![3.0, 1.0]);
    let mut x = vec![0.0f64; 2];
    substitute_gep(&a, 2, &b, &mut x);
    assert_eq!(x, vec![1.0, 1.0]);
}

#[test]
fn test_eliminate_gep_counts_the_row_exchanges() {
    let mut a = vec![vec![1.0f64, 4.0], vec![3.0, 4.0]];
    let mut b = vec![9.0f64, 11.0];
    let mut s = row_scales(&a, 2);

    assert_eq!(eliminate_gep(&mut a, &mut s, 2, &mut b, 1e-9), Ok(1));

    assert_eq!(a[0], vec![3.0, 4.0]);
    assert_eq!(b[0], 11.0);
    assert_eq!(s, vec![4.0, 4.0]);
}

#[test]
fn test_eliminate_gep_stops_at_the_small_pivot() {
    let mut a = vec![vec![1.0f64, 2.0], vec![2.0, 4.0]];
    let mut b = vec![1.0f64, 5.0];
    let mut s = row_scales(&a, 2);

    assert_eq!(
        eliminate_gep(&mut a, &mut s, 2, &mut b, 1e-9),
        Err("Ill conditioned system".to_string())
    );

    assert_eq!(a, vec![vec![1.0, 2.0], vec![2.0, 0.0]]);
    assert_eq!(b, vec![1.0, 3.0]);
    assert_eq!(s, vec![2.0, 4.0]);
}

#[test]
fn test_eliminate_gep_stops_at_a_small_first_pivot() {
    let mut a = vec![vec![0.0f64, 2.0], vec![0.0, 4.0]];
    let mut b = vec![1.0f64, 5.0];
    let mut s = row_scales(&a, 2);

    assert!(eliminate_gep(&mut a, &mut s, 2, &mut b, 1e-9).is_err());

    assert_eq!(a, vec![vec![0.0, 2.0], vec![0.0, 4.0]]);
    assert_eq!(b, vec![1.0, 5.0]);
}

#[test]
fn test_decompose_lup_keeps_the_factors_and_the_order() {
    let mut a = vec![vec![1.0f64, 4.0], vec![3.0, 4.0]];
    let mut o = vec![0usize; 2];
    let mut s = vec![0.0f64; 2];

    assert_eq!(decompose_lup(&mut a, 2, 1e-9, &mut o, &mut s, None), Ok(()));

    assert_eq!(o, vec![1, 0]);
    assert_eq!(s, vec![4.0, 4.0]);
    assert_eq!(a[1], vec![3.0, 4.0]);
    assert_eq!(a[0], vec![1.0 / 3.0, 4.0 - (1.0 / 3.0) * 4.0]);
    let mut b = vec![9.0f64, 11.0];
    let mut x = vec![0.0f64; 2];
    substitute_lup(&a, &o, 2, &mut b, &mut x);
    assert!((x[0] - 1.0).abs() < 1e-12);
    assert!((x[1] - 2.0).abs() < 1e-12);
}

#[test]
fn test_decompose_lup_stops_at_the_small_pivot() {
    let mut a = vec![vec![1.0f64, 2.0], vec![2.0, 4.0]];
    let mut o = vec![0usize; 2];
    let mut s = vec![0.0f64; 2];

    assert_eq!(decompose_lup(&mut a, 2, 1e-9, &mut o, &mut s, None), Err(0.0));

    assert_eq!(o, vec![0, 1]);
    assert_eq!(s, vec![2.0, 4.0]);
    assert_eq!(a, vec![vec![1.0, 2.0], vec![2.0, 0.0]]);
}

#[test]
fn test_decompose_lup_with_a_threshold_keeps_the_old_value() {
    let mut a = vec![vec![1.0f64, 2.0], vec![2.0, 4.0]];
    let mut o = vec![0usize; 2];
    let mut s = vec![0.0f64; 2];

    assert_eq!(decompose_lup(&mut a, 2, 1e-9, &mut o, &mut s, Some(1e-9)), Ok(()));

    assert_eq!(a, vec![vec![1.0, 2.0], vec![2.0, 4.0]]);
}

#[test]
fn test_stands_before_goes_by_row_and_then_by_column() {
    assert!(stands_before(Position(0, 5), Position(1, 0)));
    assert!(stands_before(Position(1, 0), Position(1, 1)));
    assert!(!stands_before(Position(1, 1), Position(1, 1)));
    assert!(!stands_before(Position(2, 0), Position(1, 9)));
}

#[test]
fn test_merge_of_two_ascending_lists() {
    let left = vec![(Position(0, 1), 1.0f64), (Position(2, 0), 2.0)];
    let right = vec![(Position(0, 0), 3.0f64), (Position(1, 7), 4.0), (Position(2, 1), 5.0)];

    assert_eq!(
        merge(&left, &right),
        vec![
            (Position(0, 0), 3.0),
            (Position(0, 1), 1.0),
            (Position(1, 7), 4.0),
            (Position(2, 0), 2.0),
            (Position(2, 1), 5.0),
        ]
    );
    assert_eq!(merge(&left, &Vec::new()), left);
    assert_eq!(merge(&Vec::new(), &right), right);
}

#[test]
fn test_ordered_puts_a_part_of_a_list_in_order() {
    let listed = vec![
        (Position(9, 9), 0.5f64),
        (Position(2, 1), 1.0),
        (Position(0, 3), 2.0),
        (Position(2, 0), 3.0),
        (Position(1, 1), 4.0),
        (Position(0, 0), 5.0),
    ];

    assert_eq!(
        ordered(&listed, 1, 5),
        vec![
            (Position(0, 3), 2.0),
            (Position(1, 1), 4.0),
            (Position(2, 0), 3.0),
            (Position(2, 1), 1.0),
        ]
    );
    assert_eq!(ordered(&listed, 3, 3), Vec::new());
    assert_eq!(ordered(&listed, 0, 1), vec![(Position(9, 9), 0.5)]);
    assert_eq!(ordered(&listed, 0, 6).len(), 6);
    assert_eq!(ordered(&listed, 0, 6)[0], (Position(0, 0), 5.0));
    assert_eq!(ordered(&listed, 0, 6)[5], (Position(9, 9), 0.5));
}
