use more_itertools::error::Kind;
use more_itertools::grouping::distribute::{distribute, Cursor};
use more_itertools::sequence::create_seq_from_vec;

#[test]
fn distribute_test1() {
    let v = create_seq_from_vec(vec![1, 2, 3, 4, 5, 6, 7, 8, 9, 10]);
    let dist = distribute(v, 3);

    let mut cur_0 = dist.iter(0);
    assert_eq!(1, cur_0.next().unwrap().ok().unwrap());
    assert_eq!(4, cur_0.next().unwrap().ok().unwrap());
    assert_eq!(7, cur_0.next().unwrap().ok().unwrap());
    assert_eq!(10, cur_0.next().unwrap().ok().unwrap());
    assert_eq!(None, cur_0.next());
}

#[test]
fn distribute_test2() {
    let v = create_seq_from_vec(vec![1, 2, 3, 4, 5, 6, 7, 8, 9, 10]);
    let dist = distribute(v, 3);

    let mut cur_0: Cursor<i32> = dist.iter(0);
    let mut cur_1 = dist.iter(1);
    let mut cur_2 = dist.iter(2);
    assert_eq!(1, cur_0.next().unwrap().ok().unwrap());
    assert_eq!(2, cur_1.next().unwrap().ok().unwrap());
    assert_eq!(3, cur_2.next().unwrap().ok().unwrap());

    assert_eq!(4, cur_0.next().unwrap().ok().unwrap());
    assert_eq!(5, cur_1.next().unwrap().ok().unwrap());
    assert_eq!(6, cur_2.next().unwrap().ok().unwrap());

    assert_eq!(7, cur_0.next().unwrap().ok().unwrap());
    assert_eq!(8, cur_1.next().unwrap().ok().unwrap());
    assert_eq!(9, cur_2.next().unwrap().ok().unwrap());

    assert_eq!(10, cur_0.next().unwrap().ok().unwrap());
    assert_eq!(None, cur_1.next());
    assert_eq!(None, cur_2.next());

    assert_eq!(None, cur_0.next());
}

#[test]
fn distribute_test3() {
    let v = create_seq_from_vec(vec![1, 2, 3]);
    let dist = distribute(v, 5);

    let mut cur_0 = dist.iter(0);
    let mut cur_1 = dist.iter(1);
    let mut cur_2 = dist.iter(2);
    let mut cur_3 = dist.iter(3);
    let mut cur_4 = dist.iter(4);

    assert_eq!(1, cur_0.next().unwrap().ok().unwrap());
    assert_eq!(2, cur_1.next().unwrap().ok().unwrap());
    assert_eq!(3, cur_2.next().unwrap().ok().unwrap());
    assert_eq!(None, cur_3.next());
    assert_eq!(None, cur_4.next());
}

fn drain(mut c: Cursor<i32>) -> Vec<i32> {
    let mut out = Vec::new();
    while let Some(r) = c.next() {
        out.push(r.ok().unwrap());
    }
    out
}

#[test]
fn distribute_one_at_a_time() {
    let dist = distribute(create_seq_from_vec(vec![1, 2, 3, 4, 5, 6, 7, 8, 9, 10]), 3);
    assert_eq!(vec![1, 4, 7, 10], drain(dist.iter(0)));
    assert_eq!(vec![2, 5, 8], drain(dist.iter(1)));
    assert_eq!(vec![3, 6, 9], drain(dist.iter(2)));
}

#[test]
fn distribute_cursor_overflow() {
    let dist = distribute(create_seq_from_vec(vec![1, 2, 3]), usize::MAX);
    let mut c0 = dist.iter(0);
    assert_eq!(1, c0.next().unwrap().ok().unwrap());
    assert_eq!(None, c0.next());
    let mut c1 = dist.iter(1);
    assert_eq!(Kind::OverflowError, c1.next().unwrap().err().unwrap().kind());
    assert_eq!(None, c1.next());
    assert_eq!(None, c1.next());
}

#[test]
fn distribute_stays_exhausted() {
    let dist = distribute(create_seq_from_vec(vec![1, 2]), 2);
    let mut c = dist.iter(1);
    assert_eq!(2, c.next().unwrap().ok().unwrap());
    assert_eq!(None, c.next());
    assert_eq!(None, c.next());
}
