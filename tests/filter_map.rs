use more_itertools::error::{value_error, Error, Kind};
use more_itertools::selecting::filter_map::filter_map;

#[test]
fn filter_map_test1() {
    let iterable = vec!["1", "2", "three", "4", "5"];
    let mut fm = filter_map(iterable, |x| {
        let ret = x.parse::<i32>();
        match ret {
            Ok(v) => {
                return Ok(v);
            }
            Err(e) => {
                return Err(value_error(e.to_string()));
            }
        }
    });

    match fm.next() {
        Some(v) => match v {
            Ok(v2) => {
                assert_eq!(1, v2)
            }
            Err(_) => {
                assert!(false);
            }
        },
        None => {}
    }

    match fm.next() {
        Some(v) => match v {
            Ok(v2) => {
                assert_eq!(2, v2)
            }
            Err(_) => {
                assert!(false);
            }
        },
        None => {}
    }

    match fm.next() {
        Some(v) => match v {
            Ok(_) => {
                assert!(false);
            }
            Err(e) => {
                assert!(true);
                println!("{:?}", e);
            }
        },
        None => {}
    }

    match fm.next() {
        Some(_) => {
            assert!(false);
        }
        None => {
            assert!(true);
        }
    }
    match fm.next() {
        Some(_) => {
            assert!(false);
        }
        None => {
            assert!(true);
        }
    }
}

#[test]
fn filter_map_failure_keeps_kind_and_wraps_message() {
    let mut fm = filter_map(vec![1, 2], |x: &i32| {
        if *x == 2 {
            Err(value_error("even".to_string()))
        } else {
            Ok(*x * 10)
        }
    });
    assert_eq!(10, fm.next().unwrap().ok().unwrap());
    let e = fm.next().unwrap().err().unwrap();
    assert_eq!(Kind::ValueError, e.kind());
    assert_eq!(Some(&"func failed: even".to_string()), e.message());
    assert!(fm.next().is_none());
}

#[test]
fn filter_map_failure_without_message() {
    let mut fm = filter_map(vec![1], |_x: &i32| -> Result<i32, Error> { Err(Error::new(Kind::TypeError, None)) });
    let e = fm.next().unwrap().err().unwrap();
    assert_eq!(Kind::TypeError, e.kind());
    assert_eq!(Some(&"func failed".to_string()), e.message());
    assert!(fm.next().is_none());
}
