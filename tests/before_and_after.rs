use more_itertools::selecting::before_and_after::before_and_after;

#[test]
fn before_and_after_test1() {
    let v1 = String::from("ABCdEfGhI");
    let baa = before_and_after(v1.chars().collect::<Vec<char>>(), |x: &char| x.is_ascii_uppercase());

    assert_eq!(vec!['A', 'B', 'C'], baa.before);

    let v = baa.collect();
    assert_eq!(vec!['d', 'E', 'f', 'G', 'h', 'I'], v);
}

#[test]
fn before_and_after_all_pass() {
    let mut baa = before_and_after(vec![1, 2, 3], |x: &i32| *x > 0);
    assert_eq!(vec![1, 2, 3], baa.before);
    assert_eq!(None, baa.next());
    assert_eq!(None, baa.next());
}

#[test]
fn before_and_after_getter_and_whole_input() {
    let src = vec![2, 4, 5, 6, 7];
    let baa = before_and_after(src.clone(), |x: &i32| *x % 2 == 0);
    let mut all = baa.before().clone();
    assert_eq!(vec![2, 4], all);
    all.extend(baa.collect());
    assert_eq!(src, all);
}
