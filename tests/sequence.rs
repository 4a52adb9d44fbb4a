use more_itertools::sequence::{create_seq_from_vec, Sequence};

#[test]
fn sequence_test1() {
    let v = vec![1, 2, 3];
    let v = create_seq_from_vec(v);
    assert_eq!(3, v.len());
    assert_eq!(1, *v.get(0).unwrap());
    assert_eq!(2, *v.get(1).unwrap());
    assert_eq!(3, *v.get(2).unwrap());
}

#[test]
fn sequence_out_of_range_and_slices() {
    let v = create_seq_from_vec(vec![4, 5, 6, 7]);
    assert!(v.get(4).is_none());
    assert_eq!(&[5, 6], v.slice(1, 3));
    assert_eq!(&[4, 5, 6, 7], v.as_slice());
}

#[test]
fn sequence_equals() {
    let a = create_seq_from_vec(vec![1, 2, 3]);
    let b = create_seq_from_vec(vec![1, 2, 3]);
    let c = create_seq_from_vec(vec![1, 2]);
    let d = create_seq_from_vec(vec![1, 2, 4]);
    assert!(a.equals(&b));
    assert!(!a.equals(&c));
    assert!(!c.equals(&a));
    assert!(!a.equals(&d));
}
