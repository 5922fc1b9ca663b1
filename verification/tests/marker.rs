use snippets_loader::error::SnippetError;
use snippets_loader::marker::{NextUpdate, SnippetsMaker};

#[test]
fn new_marker_waits_for_a_start() {
    let maker = SnippetsMaker::new();
    assert_eq!(maker.time_start, 0);
    assert_eq!(maker.time_end, 0);
    assert_eq!(maker.next_update, NextUpdate::TimeStart);
}

#[test]
fn samples_go_to_start_then_end() {
    let mut maker = SnippetsMaker::new();
    assert_eq!(maker.set_ig_time(1500), Ok(NextUpdate::TimeEnd));
    assert_eq!(maker.time_start, 1500);
    assert_eq!(maker.time_end, 0);
    assert_eq!(maker.set_ig_time(4000), Ok(NextUpdate::TimeStart));
    assert_eq!(maker.time_start, 1500);
    assert_eq!(maker.time_end, 4000);
    assert_eq!(maker.set_ig_time(-20), Ok(NextUpdate::TimeEnd));
    assert_eq!(maker.time_start, -20);
    assert_eq!(maker.time_end, 4000);
}

#[test]
fn failed_reading_leaves_marker_unchanged() {
    let mut maker = SnippetsMaker::new();
    assert_eq!(maker.set_next(Some(700)), Ok(NextUpdate::TimeEnd));
    assert_eq!(maker.set_next(None), Err(SnippetError::SourceUnavailable));
    assert_eq!(maker.time_start, 700);
    assert_eq!(maker.time_end, 0);
    assert_eq!(maker.next_update, NextUpdate::TimeEnd);
    assert_eq!(maker.set_next(Some(900)), Ok(NextUpdate::TimeStart));
    assert_eq!(maker.time_end, 900);
}

#[test]
fn inverted_window_is_passed_through() {
    let mut maker = SnippetsMaker::new();
    let _ = maker.set_ig_time(5000);
    let _ = maker.set_ig_time(1000);
    assert_eq!(maker.time_start, 5000);
    assert_eq!(maker.time_end, 1000);
}
