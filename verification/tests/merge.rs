use snippets_loader::merge::sort_by_time;
use snippets_loader::objects::{ObjectKind, TimedObject};

fn tap(start_time: i64, x: i32) -> TimedObject {
    TimedObject { start_time, kind: ObjectKind::Tap { x } }
}

#[test]
fn sorts_by_start_time() {
    let mut objects = vec![tap(30, 0), tap(-10, 1), tap(20, 2), tap(i64::MAX, 3), tap(i64::MIN, 4)];
    sort_by_time(&mut objects);
    assert_eq!(objects, vec![tap(i64::MIN, 4), tap(-10, 1), tap(20, 2), tap(30, 0), tap(i64::MAX, 3)]);
}

#[test]
fn equal_times_keep_their_order() {
    let mut objects = vec![tap(5, 0), tap(1, 1), tap(5, 2), tap(1, 3), tap(5, 4), tap(0, 5)];
    sort_by_time(&mut objects);
    assert_eq!(objects, vec![tap(0, 5), tap(1, 1), tap(1, 3), tap(5, 0), tap(5, 2), tap(5, 4)]);
}

#[test]
fn sorts_short_lists() {
    let mut none: Vec<TimedObject> = vec![];
    sort_by_time(&mut none);
    assert!(none.is_empty());
    let mut one = vec![tap(3, 3)];
    sort_by_time(&mut one);
    assert_eq!(one, vec![tap(3, 3)]);
    let mut sorted = vec![tap(1, 0), tap(2, 0), tap(3, 0)];
    sort_by_time(&mut sorted);
    assert_eq!(sorted, vec![tap(1, 0), tap(2, 0), tap(3, 0)]);
}

#[test]
fn agrees_with_the_stable_sort_of_std() {
    let mut objects: Vec<TimedObject> = (0..200).map(|i| tap((i * 37 % 23) as i64, i)).collect();
    let mut expected = objects.clone();
    expected.sort_by_key(|o| o.start_time);
    sort_by_time(&mut objects);
    assert_eq!(objects, expected);
}
