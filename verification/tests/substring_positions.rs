use kaniran_core::substring::remove_duplicates;

/// Keep-last semantics: `(1 2 1)` becomes `(2 1)`.
#[test]
fn remove_duplicates_keeps_last() {
    assert_eq!(remove_duplicates(&[1, 2, 1]), vec![2, 1]);
    assert_eq!(remove_duplicates(&[5, 3]), vec![5, 3]);
    assert_eq!(remove_duplicates(&[]), Vec::<usize>::new());
    assert_eq!(remove_duplicates(&[2, 2, 2]), vec![2]);
}
