use snippets_loader::error::SnippetError;
use snippets_loader::marker::{NextUpdate, SnippetsMaker};
use snippets_loader::objects::{Document, ObjectKind, TempoReference, TimedObject};
use snippets_loader::snippets::Snippets;

fn tap(start_time: i64, x: i32) -> TimedObject {
    TimedObject { start_time, kind: ObjectKind::Tap { x } }
}

fn hold(start_time: i64, x: i32, duration: i64) -> TimedObject {
    TimedObject { start_time, kind: ObjectKind::Hold { x, duration } }
}

fn tempo(time: i64, beat_len_us: i64) -> TempoReference {
    TempoReference { time, beat_len_us }
}

fn window(time_start: i32, time_end: i32) -> SnippetsMaker {
    SnippetsMaker { time_start, time_end, next_update: NextUpdate::TimeStart }
}

fn timeline(objects: Vec<TimedObject>, tempo_references: Vec<TempoReference>, lane_count: usize) -> Document {
    Document {
        title: String::from("song"),
        tags: String::from("a b"),
        lane_count,
        objects,
        tempo_references,
    }
}

#[test]
fn new_snippet_is_empty() {
    let snippet = Snippets::new();
    assert_eq!(snippet.name, "");
    assert!(snippet.hit_objects.is_empty());
    assert_eq!(snippet.timing_points, tempo(0, 1_000_000));
    assert!(!snippet.is_saved);
    assert!(!snippet.should_shuffle);
    assert_eq!(snippet.keycount, 4);
    assert!(snippet.tags.is_empty());
}

#[test]
fn collect_takes_the_closed_window() {
    let doc = timeline(
        vec![tap(999, 0), tap(1000, 64), hold(1500, 192, 300), tap(2000, 320), tap(2001, 448)],
        vec![tempo(0, 500_000)],
        4,
    );
    let mut snippet = Snippets::new();
    assert_eq!(snippet.collect_hit_objects(&doc, &window(1000, 2000)), Ok(()));
    assert_eq!(snippet.hit_objects, vec![tap(1000, 64), hold(1500, 192, 300), tap(2000, 320)]);
    assert_eq!(snippet.keycount, 4);
    assert_eq!(snippet.timing_points, tempo(0, 1_000_000));
}

#[test]
fn collect_appends_to_what_is_there() {
    let doc = timeline(vec![tap(10, 0), tap(20, 64)], vec![tempo(0, 500_000)], 4);
    let mut snippet = Snippets::new();
    snippet.hit_objects.push(tap(7, 448));
    assert_eq!(snippet.collect_hit_objects(&doc, &window(15, 25)), Ok(()));
    assert_eq!(snippet.hit_objects, vec![tap(7, 448), tap(20, 64)]);
}

#[test]
fn extraction_counts_times_from_the_window_start() {
    let doc = timeline(
        vec![tap(500, 0), tap(1000, 64), hold(1250, 192, 300), tap(1999, 320), tap(2600, 448)],
        vec![tempo(0, 400_000)],
        7,
    );
    let mut snippet = Snippets::new();
    snippet.name = String::from("kept");
    snippet.should_shuffle = true;
    assert_eq!(snippet.load_snippets_from_beatmap(&doc, &window(1000, 2000)), Ok(()));
    assert_eq!(snippet.hit_objects, vec![tap(0, 64), hold(250, 192, 300), tap(999, 320)]);
    assert_eq!(snippet.timing_points, tempo(0, 400_000));
    assert_eq!(snippet.keycount, 7);
    assert_eq!(snippet.name, "kept");
    assert!(snippet.should_shuffle);
    assert!(!snippet.is_saved);
    let least = snippet.hit_objects.iter().map(|o| o.start_time).min();
    assert_eq!(least, Some(0));
    assert!(snippet.hit_objects.iter().all(|o| o.start_time >= 0));
}

#[test]
fn extraction_without_object_at_the_start_has_a_later_minimum() {
    let doc = timeline(vec![tap(1500, 0)], vec![tempo(0, 400_000)], 4);
    let mut snippet = Snippets::new();
    assert_eq!(snippet.load_snippets_from_beatmap(&doc, &window(1000, 2000)), Ok(()));
    assert_eq!(snippet.hit_objects, vec![tap(500, 0)]);
}

#[test]
fn extraction_with_negative_window_start() {
    let doc = timeline(vec![tap(-300, 0), tap(-100, 64), tap(50, 128)], vec![tempo(0, 400_000)], 4);
    let mut snippet = Snippets::new();
    assert_eq!(snippet.load_snippets_from_beatmap(&doc, &window(-200, 50)), Ok(()));
    assert_eq!(snippet.hit_objects, vec![tap(100, 64), tap(250, 128)]);
}

#[test]
fn extraction_at_the_ends_of_the_time_range() {
    let doc = timeline(
        vec![tap(i64::MIN, 0), tap(i32::MIN as i64, 1), tap(i32::MAX as i64, 2), tap(i64::MAX, 3)],
        vec![tempo(i64::MAX, 1)],
        4,
    );
    let mut snippet = Snippets::new();
    assert_eq!(snippet.load_snippets_from_beatmap(&doc, &window(i32::MIN, i32::MAX)), Ok(()));
    assert_eq!(snippet.hit_objects, vec![tap(0, 1), tap(u32::MAX as i64, 2)]);
    assert_eq!(snippet.timing_points, tempo(i64::MAX, 1));
}

#[test]
fn empty_selection_still_takes_tempo_and_lanes() {
    let doc = timeline(vec![tap(100, 0)], vec![tempo(40, 300_000)], 6);
    let mut snippet = Snippets::new();
    assert_eq!(snippet.load_snippets_from_beatmap(&doc, &window(5000, 6000)), Ok(()));
    assert!(snippet.hit_objects.is_empty());
    assert_eq!(snippet.timing_points, tempo(40, 300_000));
    assert_eq!(snippet.keycount, 6);
}

#[test]
fn inverted_window_selects_nothing() {
    let doc = timeline(vec![tap(100, 0), tap(200, 0)], vec![tempo(0, 300_000)], 4);
    let mut snippet = Snippets::new();
    assert_eq!(snippet.load_snippets_from_beatmap(&doc, &window(200, 100)), Ok(()));
    assert!(snippet.hit_objects.is_empty());
}

#[test]
fn timeline_without_tempo_is_refused_unchanged() {
    let doc = timeline(vec![tap(100, 0)], vec![], 6);
    let mut snippet = Snippets::new();
    snippet.hit_objects.push(tap(1, 2));
    assert_eq!(
        snippet.load_snippets_from_beatmap(&doc, &window(0, 1000)),
        Err(SnippetError::NoTempoReference)
    );
    assert_eq!(snippet.hit_objects, vec![tap(1, 2)]);
    assert_eq!(snippet.keycount, 4);
    assert_eq!(snippet.timing_points, tempo(0, 1_000_000));
    assert_eq!(
        snippet.collect_timing_points(&doc, &window(0, 1000)),
        Err(SnippetError::NoTempoReference)
    );
    assert_eq!(snippet.timing_points, tempo(0, 1_000_000));
}

#[test]
fn tempo_closest_to_window_start_is_taken() {
    let doc = timeline(vec![], vec![tempo(0, 100), tempo(1000, 200), tempo(5000, 300)], 4);
    let mut snippet = Snippets::new();
    assert_eq!(snippet.collect_timing_points(&doc, &window(2000, 2500)), Ok(()));
    assert_eq!(snippet.timing_points, tempo(1000, 200));
}

#[test]
fn tempo_inside_window_wins_over_closer_ones() {
    let doc = timeline(vec![], vec![tempo(990, 100), tempo(1900, 200), tempo(1500, 300)], 4);
    let mut snippet = Snippets::new();
    assert_eq!(snippet.collect_timing_points(&doc, &window(1000, 2000)), Ok(()));
    assert_eq!(snippet.timing_points, tempo(1900, 200));
}

#[test]
fn tempo_on_the_window_edges_counts_as_inside() {
    let doc = timeline(vec![], vec![tempo(999, 100), tempo(2000, 200), tempo(1000, 300)], 4);
    let mut snippet = Snippets::new();
    assert_eq!(snippet.collect_timing_points(&doc, &window(1000, 2000)), Ok(()));
    assert_eq!(snippet.timing_points, tempo(2000, 200));
}

#[test]
fn tempo_tie_goes_to_the_first() {
    let doc = timeline(vec![], vec![tempo(3000, 100), tempo(1000, 200), tempo(3000, 300)], 4);
    let mut snippet = Snippets::new();
    assert_eq!(snippet.collect_timing_points(&doc, &window(2000, 2500)), Ok(()));
    assert_eq!(snippet.timing_points, tempo(3000, 100));
}

#[test]
fn tempo_far_away_is_measured_without_overflow() {
    let doc = timeline(vec![], vec![tempo(i64::MIN, 100), tempo(i64::MAX, 200)], 4);
    let mut snippet = Snippets::new();
    assert_eq!(snippet.collect_timing_points(&doc, &window(-1, -1)), Ok(()));
    assert_eq!(snippet.timing_points, tempo(i64::MIN, 100));
    assert_eq!(snippet.collect_timing_points(&doc, &window(0, 0)), Ok(()));
    assert_eq!(snippet.timing_points, tempo(i64::MAX, 200));
}

#[test]
fn memory_path_load_hands_failures_on() {
    let mut snippet = Snippets::new();
    assert_eq!(
        snippet.load_snippets_memory_path(Err(SnippetError::SourceUnavailable), &window(0, 10)),
        Err(SnippetError::SourceUnavailable)
    );
    assert_eq!(
        snippet.load_snippets_memory_path(Err(SnippetError::DecodeError), &window(0, 10)),
        Err(SnippetError::DecodeError)
    );
    assert!(snippet.hit_objects.is_empty());
    let doc = timeline(vec![tap(5, 0), tap(50, 0)], vec![tempo(0, 250_000)], 5);
    assert_eq!(snippet.load_snippets_memory_path(Ok(doc), &window(0, 10)), Ok(()));
    assert_eq!(snippet.hit_objects, vec![tap(5, 0)]);
    assert_eq!(snippet.keycount, 5);
    assert_eq!(snippet.timing_points, tempo(0, 250_000));
}

#[test]
fn well_formed_objects() {
    assert!(tap(0, 0).is_well_formed());
    assert!(hold(0, 0, 1).is_well_formed());
    assert!(!hold(0, 0, 0).is_well_formed());
    assert!(!hold(0, 0, -5).is_well_formed());
    assert!(TimedObject { start_time: -3, kind: ObjectKind::Other { handle: 9 } }.is_well_formed());
}

#[test]
fn objects_without_lane_are_counted() {
    let other = TimedObject { start_time: 4, kind: ObjectKind::Other { handle: 0 } };
    assert_eq!(snippets_loader::objects::count_without_lane(&vec![]), 0);
    assert_eq!(snippets_loader::objects::count_without_lane(&vec![tap(1, 2), hold(3, 4, 5)]), 0);
    assert_eq!(snippets_loader::objects::count_without_lane(&vec![other, tap(1, 2), other, other]), 3);
}
