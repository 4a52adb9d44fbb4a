use more_itertools::error::{any_error, value_error, Kind};
use std::collections::HashMap;

use more_itertools::utils::{
    any, any_result, are_same, argsort, counter, extract_value_from_result_vec,
    join_char_vec_second_level, join_string_vec,
};

#[test]
fn utils_test1() {
    let v = vec![Ok(4), Ok(3), Ok(3)];
    let a = extract_value_from_result_vec(v);
    assert!(!a.1);
    assert_eq!(vec![4, 3, 3], a.0);

    let v = vec![Ok(4), Err(any_error(Kind::OverflowError, "Overflow".to_string())), Ok(3)];
    let a = extract_value_from_result_vec(v);
    assert!(a.1);
    assert_eq!(vec![4], a.0);
}

#[test]
fn utils_test2() {
    let v = vec!['a', 'b', 'c'];
    assert_eq!(join_string_vec(&v), "abc".to_string());
}

#[test]
fn test_any() {
    let v = vec![true, true];
    assert_eq!(true, any(&v));

    let v = vec![true, false];
    assert_eq!(true, any(&v));

    let v: Vec<bool> = vec![false, false];
    assert_eq!(false, any(&v));
}

#[test]
fn test_are_same() {
    assert!(are_same(None::<&i32>, None));
    assert!(!are_same(None, Some(&1)));
    assert!(!are_same(Some(&1), None));
    assert!(are_same(Some(&1), Some(&1)));
    assert!(!are_same(Some(&2), Some(&1)));
}

#[test]
fn any_result_cases() {
    assert!(any_result(Ok(vec![false, true])));
    assert!(!any_result(Ok(vec![false])));
    assert!(!any_result(Err(value_error("x".to_string()))));
}

#[test]
fn join_second_level() {
    let l = vec![vec!['h', 'i'], vec![], vec!['x']];
    assert_eq!(vec!["hi".to_string(), "".to_string(), "x".to_string()], join_char_vec_second_level(&l));
}

#[test]
fn test_argsort() {
    let v = [3, 1, 2, 4];
    let ret = argsort(v.as_slice());
    assert_eq!(vec![1usize, 2usize, 0usize, 3usize], ret);
}

#[test]
fn argsort_keeps_equal_elements_in_order() {
    let v = [2, 1, 2, 1, 0];
    assert_eq!(vec![4usize, 1, 3, 0, 2], argsort(v.as_slice()));
    let empty: [i32; 0] = [];
    assert_eq!(Vec::<usize>::new(), argsort(empty.as_slice()));
}

#[test]
fn test_counter() {
    let v = vec![5, 1, 2, 2, 3, 3, 3, 4, 4, 4, 4, 5, 5, 5, 5];
    let mut hm = HashMap::new();
    counter(&mut hm, v);
    assert_eq!(&1, hm.get(&1).unwrap());
    assert_eq!(&2, hm.get(&2).unwrap());
    assert_eq!(&3, hm.get(&3).unwrap());
    assert_eq!(&4, hm.get(&4).unwrap());
    assert_eq!(&5, hm.get(&5).unwrap());
}

#[test]
fn counter_adds_to_existing_counts() {
    let mut hm = HashMap::new();
    hm.insert(7, 2usize);
    counter(&mut hm, vec![7, 8, 7]);
    assert_eq!(Some(&4), hm.get(&7));
    assert_eq!(Some(&1), hm.get(&8));
    assert_eq!(None, hm.get(&9));
}
