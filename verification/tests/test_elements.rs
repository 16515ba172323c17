use extended_matrix::{Elements, Position};

#[test]
fn test_elements_store_by_position() {
    let mut elements = Elements::new();

    assert_eq!(elements.len(), 0);
    assert_eq!(elements.insert(Position(1, 2), 3.5), None);
    assert_eq!(elements.insert(Position(2, 1), 4.5), None);
    assert_eq!(elements.insert(Position(1, 2), 5.5), Some(3.5));
    assert_eq!(elements.len(), 2);
    assert!(elements.contains(&Position(2, 1)));
    assert!(!elements.contains(&Position(1, 1)));
    assert_eq!(elements.get(&Position(1, 2)), Some(&5.5));
    assert_eq!(elements.remove(&Position(2, 1)), Some(4.5));
    assert_eq!(elements.remove(&Position(2, 1)), None);
    assert_eq!(elements, Elements::from_entries(&[(Position(1, 2), 0.0), (Position(1, 2), 5.5)]));
    assert_eq!(elements.clone(), elements);

    elements.clear();
    assert_eq!(elements.len(), 0);
}

#[test]
fn test_elements_keep_far_positions_apart() {
    let mut elements = Elements::new();

    elements.insert(Position(usize::MAX, 0), 1.0);
    elements.insert(Position(0, usize::MAX), 2.0);
    elements.insert(Position(usize::MAX, usize::MAX), 3.0);
    elements.insert(Position(1, 0), 4.0);
    elements.insert(Position(0, 1), 5.0);

    assert_eq!(elements.len(), 5);
    assert_eq!(elements.get(&Position(usize::MAX, 0)), Some(&1.0));
    assert_eq!(elements.get(&Position(0, usize::MAX)), Some(&2.0));
    assert_eq!(elements.get(&Position(usize::MAX, usize::MAX)), Some(&3.0));
    assert_eq!(elements.get(&Position(1, 0)), Some(&4.0));
    assert_eq!(elements.get(&Position(0, 1)), Some(&5.0));
}

#[test]
fn test_elements_list_their_entries() {
    let elements = Elements::from_entries(&[
        (Position(2, 1), 1.5),
        (Position(0, 7), 2.5),
        (Position(usize::MAX, 3), 3.5),
    ]);

    let mut entries = elements.entries();
    entries.sort_by(|a, b| (a.0 .0, a.0 .1).cmp(&(b.0 .0, b.0 .1)));

    assert_eq!(
        entries,
        vec![(Position(0, 7), 2.5), (Position(2, 1), 1.5), (Position(usize::MAX, 3), 3.5)]
    );
    assert_eq!(Elements::<f64>::new().entries(), vec![]);
}
