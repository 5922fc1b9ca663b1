use snippets_loader::objects::{ObjectKind, TimedObject};
use snippets_loader::preview::{looped, period_of, position_of, preview_clock, Playhead};

fn tap(start_time: i64, x: i32) -> TimedObject {
    TimedObject { start_time, kind: ObjectKind::Tap { x } }
}

fn hold(start_time: i64, x: i32, duration: i64) -> TimedObject {
    TimedObject { start_time, kind: ObjectKind::Hold { x, duration } }
}

fn playhead(clock: u64, scroll_time_ms: u32, speed: u32) -> Playhead {
    Playhead { clock, scroll_time_ms, speed, judgment_line_y: 700, height: 800 }
}

#[test]
fn period_is_the_end_of_the_latest_object_and_the_scroll_time() {
    assert_eq!(period_of(&vec![], 500), None);
    assert_eq!(period_of(&vec![tap(0, 0), tap(1000, 0)], 500), Some(1500));
    assert_eq!(period_of(&vec![tap(0, 0), hold(1000, 0, 200)], 500), Some(1700));
    assert_eq!(period_of(&vec![hold(3000, 0, 200), tap(10, 0)], 100), Some(3300));
    assert_eq!(period_of(&vec![tap(-800, 0)], 500), Some(-300));
    assert_eq!(
        period_of(&vec![hold(i64::MAX, 0, i64::MAX)], u32::MAX),
        Some(2 * (i64::MAX as i128) + u32::MAX as i128)
    );
}

#[test]
fn clock_is_taken_into_the_loop() {
    assert_eq!(looped(0, 1500), Some(0));
    assert_eq!(looped(1499, 1500), Some(1499));
    assert_eq!(looped(1500, 1500), Some(0));
    assert_eq!(looped(1600, 1500), Some(100));
    assert_eq!(looped(4600, 1500), Some(100));
    assert_eq!(looped(u64::MAX, 1 << 70), Some(u64::MAX));
    assert_eq!(looped(100, 0), None);
    assert_eq!(looped(100, -1500), None);
}

#[test]
fn position_follows_the_lead() {
    assert_eq!(position_of(0, &playhead(0, 500, 1000)), Some(-100));
    assert_eq!(position_of(-500, &playhead(0, 500, 1000)), Some(700));
    assert_eq!(position_of(-250, &playhead(0, 500, 1000)), Some(300));
    assert_eq!(position_of(0, &playhead(250, 500, 1000)), Some(300));
    assert_eq!(position_of(0, &playhead(500, 500, 1000)), Some(700));
    assert_eq!(position_of(0, &playhead(600, 500, 1000)), Some(860));
}

#[test]
fn speed_shortens_the_lead() {
    assert_eq!(position_of(0, &playhead(0, 500, 2000)), Some(300));
    assert_eq!(position_of(0, &playhead(0, 500, 500)), Some(-900));
    assert_eq!(position_of(0, &playhead(0, 500, 100)), Some(-7300));
    assert_eq!(position_of(0, &playhead(500, 500, 2000)), Some(700));
}

#[test]
fn position_rounds_down() {
    let unit = Playhead { clock: 0, scroll_time_ms: 3, speed: 1000, judgment_line_y: 10, height: 1 };
    assert_eq!(position_of(-2, &unit), Some(10));
    assert_eq!(position_of(-3, &unit), Some(10));
    assert_eq!(position_of(-4, &unit), Some(11));
    assert_eq!(position_of(0, &unit), Some(9));
    assert_eq!(position_of(2, &unit), Some(9));
    assert_eq!(position_of(3, &unit), Some(8));
}

#[test]
fn position_is_undefined_without_scroll_time_or_speed() {
    assert_eq!(position_of(0, &playhead(0, 0, 1000)), None);
    assert_eq!(position_of(0, &playhead(0, 500, 0)), None);
    assert_eq!(tap(0, 0).start_position(&playhead(0, 0, 1000)), None);
    assert_eq!(hold(0, 0, 5).end_position(&playhead(0, 500, 0)), None);
}

#[test]
fn position_at_the_ends_of_the_range() {
    let far = Playhead {
        clock: u64::MAX,
        scroll_time_ms: 1,
        speed: 1,
        judgment_line_y: i64::MIN,
        height: u32::MAX,
    };
    let time = -(1i128 << 65);
    let lead = time + 1 - u64::MAX as i128;
    assert_eq!(position_of(time, &far), Some(i64::MIN as i128 - lead * 1000 * u32::MAX as i128));
}

#[test]
fn objects_are_drawn_until_they_are_due() {
    let note = tap(1000, 0);
    assert_eq!(note.start_position(&playhead(0, 500, 1000)), Some(-1700));
    assert_eq!(note.start_position(&playhead(1000, 500, 1000)), Some(-100));
    assert_eq!(note.start_position(&playhead(1500, 500, 1000)), Some(700));
    assert_eq!(note.start_position(&playhead(1501, 500, 1000)), None);
    assert_eq!(note.end_position(&playhead(1500, 500, 1000)), Some(700));
    assert_eq!(note.end_position(&playhead(1501, 500, 1000)), None);
}

#[test]
fn hold_ends_later_than_it_starts() {
    let long = hold(1000, 0, 250);
    assert_eq!(long.start_position(&playhead(1600, 500, 1000)), None);
    assert_eq!(long.end_position(&playhead(1600, 500, 1000)), Some(460));
    assert_eq!(long.end_position(&playhead(1750, 500, 1000)), Some(700));
    assert_eq!(long.end_position(&playhead(1751, 500, 1000)), None);
}

#[test]
fn preview_repeats_after_one_period() {
    let objects = vec![tap(0, 0), tap(400, 0), tap(1000, 0)];
    let period = period_of(&objects, 500);
    assert_eq!(period, Some(1500));
    let first = looped(0, 1500);
    let again = looped(1500, 1500);
    assert_eq!(first, again);
    for object in &objects {
        assert_eq!(
            object.start_position(&playhead(first.unwrap_or(7), 500, 1000)),
            object.start_position(&playhead(again.unwrap_or(9), 500, 1000))
        );
    }
    assert_eq!(objects[1].start_position(&playhead(again.unwrap_or(9), 500, 1000)), Some(-740));
    for clock in [1u64, 250, 777, 1499] {
        assert_eq!(looped(clock, 1500), looped(clock + 3 * 1500, 1500));
    }
}

#[test]
fn preview_clock_is_stretched_by_the_speed() {
    assert_eq!(preview_clock(2000, 1000), 2000);
    assert_eq!(preview_clock(2000, 1500), 3000);
    assert_eq!(preview_clock(2000, 100), 200);
    assert_eq!(preview_clock(999, 1), 0);
    assert_eq!(preview_clock(u32::MAX, u32::MAX), 18_446_744_065_119_617);
}

#[test]
fn period_is_taken_from_the_latest_object() {
    assert_eq!(period_of(&vec![tap(2000, 0), tap(1000, 0)], 500), Some(2500));
    assert_eq!(looped(2000, 2500), Some(2000));
    assert_eq!(period_of(&vec![tap(5, 0), hold(900, 0, 50), tap(30, 0), tap(899, 0)], 100), Some(1050));
    assert_eq!(period_of(&vec![tap(-5, 0), tap(-900, 0)], 100), Some(95));
    assert_eq!(period_of(&vec![hold(i64::MIN, 0, 7)], 0), Some(i64::MIN as i128 + 7));
}

#[test]
fn of_objects_that_start_together_the_last_counts() {
    assert_eq!(period_of(&vec![hold(1000, 0, 200), tap(1000, 0)], 500), Some(1500));
    assert_eq!(period_of(&vec![tap(1000, 0), hold(1000, 0, 200)], 500), Some(1700));
    assert_eq!(period_of(&vec![hold(1000, 0, 200), tap(999, 0), hold(1000, 0, 300), tap(0, 0)], 500), Some(1800));
}
