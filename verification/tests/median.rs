use weibull::median::median;

#[test]
fn odd_length_returns_middle_element() {
    let v: Vec<u64> = vec![1, 2, 3, 4, 5];
    assert_eq!(median(&v), Some((3, 3)));
}

#[test]
fn even_length_returns_both_middle_elements() {
    // Corrected zero-based convention: for length 4 the middle elements are
    // at indices 1 and 2 of the sorted copy; their mean, 2.5 here, is the
    // median and is taken by the caller.
    let v: Vec<u64> = vec![1, 2, 3, 4];
    assert_eq!(median(&v), Some((2, 3)));
}

#[test]
fn empty_sample_has_no_median() {
    let v: Vec<u64> = Vec::new();
    assert_eq!(median(&v), None);
}

#[test]
fn unordered_input_is_sorted_first() {
    let v: Vec<u64> = vec![5, 1, 4, 2, 3];
    assert_eq!(median(&v), Some((3, 3)));
}

#[test]
fn input_is_not_mutated() {
    let v: Vec<u64> = vec![5, 1, 4, 2, 3];
    let copy = v.clone();
    let _ = median(&v);
    assert_eq!(v, copy);
}

#[test]
fn single_element_is_its_own_median() {
    let v: Vec<u64> = vec![17];
    assert_eq!(median(&v), Some((17, 17)));
}

#[test]
fn two_elements_are_both_reported() {
    let v: Vec<u64> = vec![9, 3];
    assert_eq!(median(&v), Some((3, 9)));
}

#[test]
fn duplicates_are_handled() {
    let v: Vec<u64> = vec![2, 2, 2, 1, 3, 3];
    assert_eq!(median(&v), Some((2, 2)));
}

#[test]
fn same_sample_gives_same_median_twice() {
    let v: Vec<u64> = vec![8, 6, 7, 5, 3, 0, 9];
    assert_eq!(median(&v), median(&v));
}
