use more_itertools::grouping::split_into::split_into;

#[test]
fn split_into_test1() {
    let v = vec![1, 2, 3, 4, 5, 6];
    let sizes = vec![1, 2, 3];
    let si = split_into(v, sizes);
    let ret = si.collect();
    assert_eq!(vec![vec![1], vec![2, 3], vec![4, 5, 6]], ret);

    let v = vec![1, 2, 3, 4, 5, 6];
    let sizes = vec![2, 3];
    let si = split_into(v, sizes);
    let ret = si.collect();
    assert_eq!(vec![vec![1, 2], vec![3, 4, 5]], ret);

    let v = vec![1, 2, 3, 4];
    let sizes = vec![1, 2, 3, 4];
    let si = split_into(v, sizes);
    let ret = si.collect();
    assert_eq!(vec![vec![1], vec![2, 3], vec![4], vec![]], ret);

    let v = vec![1, 2, 3, 4];
    let sizes = vec![1, 2, 0, 3, 4];
    let si = split_into(v, sizes);
    let ret = si.collect();
    assert_eq!(vec![vec![1], vec![2, 3], vec![], vec![4], vec![]], ret);
}

#[test]
fn split_into_stays_exhausted() {
    let mut si = split_into(vec![1, 2, 3], vec![2]);
    assert_eq!(Some(vec![1, 2]), si.next());
    assert_eq!(None, si.next());
    assert_eq!(None, si.next());
}

#[test]
fn split_into_empty_sizes() {
    let mut si = split_into(vec![1, 2, 3], Vec::new());
    assert_eq!(None, si.next());
}

#[test]
fn split_into_empty_source() {
    let mut si = split_into(Vec::<i32>::new(), vec![2, 0, 1]);
    assert_eq!(Some(vec![]), si.next());
    assert_eq!(Some(vec![]), si.next());
    assert_eq!(Some(vec![]), si.next());
    assert_eq!(None, si.next());
}

#[test]
fn split_into_leading_zero_size() {
    let mut si = split_into(vec![7, 8], vec![0, 1]);
    assert_eq!(Some(vec![]), si.next());
    assert_eq!(Some(vec![7]), si.next());
    assert_eq!(None, si.next());
}
