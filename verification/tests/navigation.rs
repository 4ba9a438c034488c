//! Nearest-match lookup on concrete sorted index sets.

use grep_pager::utils::find_closest_index;

#[test]
fn find_closest_index_test() {
    let test_data = (10..20 + 1).collect::<Vec<usize>>();

    assert_eq!(Some(10), find_closest_index(&test_data, 9));
    assert_eq!(Some(10), find_closest_index(&test_data, 1));
    assert_eq!(Some(20), find_closest_index(&test_data, 21));
    assert_eq!(Some(10), find_closest_index(&test_data, 10));
    assert_eq!(Some(20), find_closest_index(&test_data, 100));
}

#[test]
fn find_closest_index_more_data_test() {
    let mut first = (10..20 + 1).collect::<Vec<usize>>();
    let second = (40..60 + 1).collect::<Vec<usize>>();
    first.extend(second);
    let test_data = first;

    assert_eq!(Some(10), find_closest_index(&test_data, 9));
    assert_eq!(Some(10), find_closest_index(&test_data, 1));
    assert_eq!(Some(20), find_closest_index(&test_data, 21));
    assert_eq!(Some(10), find_closest_index(&test_data, 10));
    assert_eq!(Some(15), find_closest_index(&test_data, 15));
    assert_eq!(Some(60), find_closest_index(&test_data, 100));
}

#[test]
fn find_closest_index_empty_test() {
    let test_data = Vec::new();

    assert_eq!(None, find_closest_index(&test_data, 10));
}

#[test]
fn find_closest_index_tie_resolves_low() {
    // 15 is equally near to 10 and 20: the lower one wins.
    let test_data = vec![10, 20];
    assert_eq!(Some(10), find_closest_index(&test_data, 15));
}
