use anymock::entries::{contains_window, matches_at};
use anymock::matchers::{
    binary_any, binary_contains, binary_eq, binary_fn, binary_none, same_bytes,
};

#[test]
fn binary_tests_score_their_fixed_ranks() {
    let value: Vec<u8> = vec![1, 2, 3, 4];

    assert_eq!(4, binary_eq(vec![1, 2, 3, 4]).score(Some(&value)));
    assert_eq!(0, binary_eq(vec![1, 2, 3]).score(Some(&value)));
    assert_eq!(0, binary_eq(vec![1, 2, 3, 5]).score(Some(&value)));
    assert_eq!(3, binary_contains(vec![2, 3]).score(Some(&value)));
    assert_eq!(3, binary_contains(vec![1, 2, 3, 4]).score(Some(&value)));
    assert_eq!(3, binary_contains(vec![4]).score(Some(&value)));
    assert_eq!(0, binary_contains(vec![3, 2]).score(Some(&value)));
    assert_eq!(0, binary_contains(vec![1, 2, 3, 4, 5]).score(Some(&value)));
    assert_eq!(2, binary_none().score(None));
    assert_eq!(0, binary_none().score(Some(&value)));
    assert_eq!(1, binary_any().score(Some(&value)));
    assert_eq!(0, binary_any().score(None));
    assert_eq!(0, binary_eq(vec![]).score(None));
}

#[test]
fn binary_contains_holds_of_the_empty_run() {
    assert_eq!(3, binary_contains(vec![]).score(Some(&vec![1, 2])));
    assert_eq!(3, binary_contains(vec![]).score(Some(&vec![])));
}

#[test]
fn binary_fn_returns_what_the_function_says() {
    let matcher = binary_fn(|value: Option<&Vec<u8>>| match value {
        Some(bytes) => bytes.len() as u16,
        None => 7,
    });

    assert_eq!(3, matcher.score(Some(&vec![9, 9, 9])));
    assert_eq!(7, matcher.score(None));
}

#[test]
fn should_preserve_binary_matcher_priority_order() {
    let value: Vec<u8> = vec![1, 2, 3];

    let eq_score = binary_eq(vec![1, 2, 3]).score(Some(&value));
    let contains_score = binary_contains(vec![2]).score(Some(&value));
    let any_score = binary_any().score(Some(&value));
    let none_score = binary_none().score(None);

    assert!(eq_score > contains_score && contains_score > none_score && none_score > any_score);
}

#[test]
fn windows_are_found_where_they_stand() {
    let hay: [u8; 5] = [1, 2, 1, 2, 3];

    assert!(matches_at(&hay, &[1, 2], 0));
    assert!(!matches_at(&hay, &[1, 2], 1));
    assert!(matches_at(&hay, &[1, 2, 3], 2));
    assert!(matches_at(&hay, &[], 5));
    assert!(contains_window(&hay, &[1, 2, 3]));
    assert!(contains_window(&hay, &[3]));
    assert!(!contains_window(&hay, &[3, 1]));
    assert!(!contains_window(&[], &[1]));
    assert!(contains_window(&[], &[]));
}

#[test]
fn same_bytes_compares_length_and_content() {
    assert!(same_bytes(&[1, 2], &[1, 2]));
    assert!(same_bytes(&[], &[]));
    assert!(!same_bytes(&[1, 2], &[1, 3]));
    assert!(!same_bytes(&[1, 2], &[1, 2, 3]));
}
