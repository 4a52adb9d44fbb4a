use more_itertools::error::Kind;
use more_itertools::windowing::windowed::windowed;

#[test]
fn windowed_test1() {
    let v = vec![1, 2, 3, 4, 5];
    let mut w = windowed(v, 3, 1);

    assert_eq!(vec![1, 2, 3], w.next().unwrap().ok().unwrap());
    assert_eq!(vec![2, 3, 4], w.next().unwrap().ok().unwrap());
    assert_eq!(vec![3, 4, 5], w.next().unwrap().ok().unwrap());
    assert_eq!(None, w.next());
}

#[test]
fn windowed_test2() {
    let v = vec![1, 2, 3, 4, 5, 6, 7, 8];
    let mut w = windowed(v, 3, 2);
    assert_eq!(vec![1, 2, 3], w.next().unwrap().ok().unwrap());
    assert_eq!(vec![3, 4, 5], w.next().unwrap().ok().unwrap());
    assert_eq!(vec![5, 6, 7], w.next().unwrap().ok().unwrap());
    assert_eq!(None, w.next());
}

#[test]
fn windowed_test3() {
    let v = vec![1, 2];
    let mut w = windowed(v, 3, 1);
    assert_eq!(None, w.next());

    let v = vec![1, 2];
    let mut w = windowed(v, 0, 1);
    assert_eq!(Kind::ValueError, w.next().unwrap().err().unwrap().kind());
}

#[test]
fn windowed_zero_size_fails_on_every_call() {
    let mut w = windowed(vec![1, 2, 3], 0, 2);
    for _ in 0..4 {
        assert_eq!(Kind::ValueError, w.next().unwrap().err().unwrap().kind());
    }
}

#[test]
fn windowed_stays_exhausted() {
    let mut w = windowed(vec![1, 2, 3, 4], 3, 1);
    assert_eq!(vec![1, 2, 3], w.next().unwrap().ok().unwrap());
    assert_eq!(vec![2, 3, 4], w.next().unwrap().ok().unwrap());
    for _ in 0..3 {
        assert_eq!(None, w.next());
    }
}

#[test]
fn windowed_step_larger_than_size() {
    let mut w = windowed(vec![1, 2, 3, 4, 5, 6, 7, 8, 9], 2, 3);
    assert_eq!(vec![1, 2], w.next().unwrap().ok().unwrap());
    assert_eq!(vec![4, 5], w.next().unwrap().ok().unwrap());
    assert_eq!(vec![7, 8], w.next().unwrap().ok().unwrap());
    assert_eq!(None, w.next());
}

#[test]
fn windowed_zero_step_repeats_first_window() {
    let mut w = windowed(vec![1, 2, 3], 2, 0);
    assert_eq!(vec![1, 2], w.next().unwrap().ok().unwrap());
    assert_eq!(vec![1, 2], w.next().unwrap().ok().unwrap());
}

#[test]
fn windowed_empty_source() {
    let mut w = windowed(Vec::<i32>::new(), 1, 1);
    assert_eq!(None, w.next());
    assert_eq!(None, w.next());
}
