use my_remote_speaker::util::{find_four, AtomicInstant, IteratorExt};

#[test]
fn conditions_are_searched_together() {
    let two = vec![1, 5, 9].into_iter().find_conditions((|x: &i32| *x > 8, |x: &i32| *x < 0));
    assert_eq!(two, (true, false));
    let three = vec![1, 5, 9].into_iter().find_conditions((
        |x: &i32| *x == 5,
        |x: &i32| *x == 1,
        |x: &i32| *x == 9,
    ));
    assert_eq!(three, (true, true, true));
    let none: Vec<i32> = vec![];
    let empty = none.into_iter().find_conditions((|_: &i32| true, |_: &i32| true));
    assert_eq!(empty, (false, false));
    let four = find_four(
        vec![2, 4].into_iter(),
        (|x: &i32| *x == 2, |x: &i32| *x == 3, |x: &i32| *x == 4, |x: &i32| *x > 4),
    );
    assert_eq!(four, (true, false, true, false));
}

#[test]
fn search_stops_when_everything_is_found() {
    let mut looked = Vec::new();
    let items = vec![1, 2, 3, 4];
    let mut it = items.iter().map(|x| {
        looked.push(*x);
        *x
    });
    let found = it.by_ref().find_conditions((|x: &i32| *x == 1, |x: &i32| *x == 2));
    assert_eq!(found, (true, true));
    drop(it);
    assert_eq!(looked, vec![1, 2]);
}

#[test]
fn instant_is_read_back() {
    let mut i = AtomicInstant::new(1000);
    assert_eq!(i.load(), 1000);
    i.store(5000);
    assert_eq!(i.load(), 5000);
    i.store(7);
    assert_eq!(i.load(), 1000);
    i.store(1000 + (1u128 << 64) + 5);
    assert_eq!(i.load(), 1005);
}
