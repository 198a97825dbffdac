use workshop_cleaner::order::descending_order;

#[test]
fn ranking_puts_larger_keys_first() {
    assert_eq!(descending_order(&vec![5, 9, 1, 7]), vec![1, 3, 0, 2]);
}

#[test]
fn ranking_keeps_equal_keys_in_place() {
    assert_eq!(descending_order(&vec![2, 2, 3, 2, 3]), vec![2, 4, 0, 1, 3]);
    assert_eq!(descending_order(&vec![4, 4, 4]), vec![0, 1, 2]);
}

#[test]
fn ranking_of_nothing_is_empty() {
    assert!(descending_order(&Vec::new()).is_empty());
    assert_eq!(descending_order(&vec![u64::MAX]), vec![0]);
}
