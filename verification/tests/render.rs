use snippets_loader::objects::{ObjectKind, TimedObject};
use snippets_loader::render::{Area, ManiaRenderer, Shape, JUDGMENT_LINE_OFFSET};

fn tap(start_time: i64, x: i32) -> TimedObject {
    TimedObject { start_time, kind: ObjectKind::Tap { x } }
}

fn hold(start_time: i64, x: i32, duration: i64) -> TimedObject {
    TimedObject { start_time, kind: ObjectKind::Hold { x, duration } }
}

fn area() -> Area {
    Area { left: 10, top: 0, height: 800 }
}

fn frame() -> Vec<Shape> {
    vec![
        Shape::Column { x: 10, y: 0, width: 65, height: 800 },
        Shape::Column { x: 75, y: 0, width: 65, height: 800 },
        Shape::Column { x: 140, y: 0, width: 65, height: 800 },
        Shape::Column { x: 205, y: 0, width: 65, height: 800 },
        Shape::JudgmentLine { x_from: 10, x_to: 270, y: 700 },
    ]
}

#[test]
fn new_renderer() {
    let renderer = ManiaRenderer::new();
    assert_eq!(renderer, ManiaRenderer { column_width: 65, note_size: 65, snippet_speed: 1000 });
    assert_eq!(JUDGMENT_LINE_OFFSET, 100);
}

#[test]
fn empty_pattern_shows_lanes_and_line() {
    let mut renderer = ManiaRenderer::new();
    assert_eq!(renderer.render(&area(), &vec![], 250, 500, 1000, 4), frame());
}

#[test]
fn render_keeps_the_speed() {
    let mut renderer = ManiaRenderer::new();
    let _ = renderer.render(&area(), &vec![], 0, 500, 1750, 4);
    assert_eq!(renderer, ManiaRenderer { column_width: 65, note_size: 65, snippet_speed: 1750 });
}

#[test]
fn note_is_centred_on_its_time() {
    let mut renderer = ManiaRenderer::new();
    let shapes = renderer.render(&area(), &vec![tap(0, 64)], 250, 500, 1000, 4);
    let mut expected = frame();
    expected.push(Shape::Note { x: 10, y: 268, size: 65 });
    assert_eq!(shapes, expected);
}

#[test]
fn note_above_the_area_is_listed_all_the_same() {
    let mut renderer = ManiaRenderer::new();
    let shapes = renderer.render(&area(), &vec![tap(0, 64)], 0, 500, 1000, 4);
    let mut expected = frame();
    expected.push(Shape::Note { x: 10, y: -132, size: 65 });
    assert_eq!(shapes, expected);
}

#[test]
fn note_far_above_the_area_is_listed() {
    let mut renderer = ManiaRenderer::new();
    let small = Area { left: 0, top: 0, height: 600 };
    let shapes = renderer.render(&small, &vec![tap(1000, 64)], 0, 500, 1000, 4);
    assert_eq!(
        shapes,
        vec![
            Shape::Column { x: 0, y: 0, width: 65, height: 600 },
            Shape::Column { x: 65, y: 0, width: 65, height: 600 },
            Shape::Column { x: 130, y: 0, width: 65, height: 600 },
            Shape::Column { x: 195, y: 0, width: 65, height: 600 },
            Shape::JudgmentLine { x_from: 0, x_to: 260, y: 500 },
            Shape::Note { x: 0, y: -1332, size: 65 },
        ]
    );
}

#[test]
fn note_past_the_judgment_line_is_left_out() {
    let mut renderer = ManiaRenderer::new();
    let objects = vec![tap(0, 64), tap(400, 64)];
    let shapes = renderer.render(&area(), &objects, 501, 500, 1000, 4);
    let mut expected = frame();
    expected.push(Shape::Note { x: 10, y: 30, size: 65 });
    assert_eq!(shapes, expected);
}

#[test]
fn period_follows_the_latest_object_of_an_unordered_list() {
    let mut renderer = ManiaRenderer::new();
    let small = Area { left: 0, top: 0, height: 600 };
    let objects = vec![tap(2000, 64), tap(1000, 192)];
    let shapes = renderer.render(&small, &objects, 2000, 500, 1000, 4);
    assert_eq!(shapes.len(), 6);
    assert_eq!(shapes[4], Shape::JudgmentLine { x_from: 0, x_to: 260, y: 500 });
    assert_eq!(shapes[5], Shape::Note { x: 0, y: -132, size: 65 });
    let again = renderer.render(&small, &objects, 2000 + 2500, 500, 1000, 4);
    assert_eq!(again, shapes);
}

#[test]
fn hold_has_body_cap_and_head() {
    let mut renderer = ManiaRenderer::new();
    let shapes = renderer.render(&area(), &vec![hold(0, 320, 100)], 300, 500, 1000, 4);
    let mut expected = frame();
    expected.push(Shape::HoldBody { x: 146, y: 220, width: 52, height: 160 });
    expected.push(Shape::HoldCap { x: 146, y: 220, width: 52, height: 15 });
    expected.push(Shape::Note { x: 140, y: 348, size: 65 });
    assert_eq!(shapes, expected);
}

#[test]
fn hold_body_is_cut_at_the_judgment_line() {
    let mut renderer = ManiaRenderer::new();
    let shapes = renderer.render(&area(), &vec![hold(0, 320, 100)], 550, 500, 1000, 4);
    let mut expected = frame();
    expected.push(Shape::HoldBody { x: 146, y: 620, width: 52, height: 80 });
    expected.push(Shape::HoldCap { x: 146, y: 620, width: 52, height: 15 });
    assert_eq!(shapes, expected);
}

#[test]
fn holds_are_painted_below_notes() {
    let mut renderer = ManiaRenderer::new();
    let objects = vec![tap(0, 64), hold(100, 192, 100), tap(150, 448), hold(200, 0, 400)];
    let shapes = renderer.render(&area(), &objects, 500, 500, 1000, 4);
    let kinds: Vec<u8> = shapes
        .iter()
        .map(|s| match s {
            Shape::Column { .. } => 0,
            Shape::JudgmentLine { .. } => 1,
            Shape::HoldBody { .. } => 2,
            Shape::HoldCap { .. } => 3,
            Shape::Note { .. } => 4,
        })
        .collect();
    assert_eq!(kinds, vec![0, 0, 0, 0, 1, 2, 3, 2, 3, 4, 4, 4, 4]);
    assert_eq!(shapes[9], Shape::Note { x: 10, y: 668, size: 65 });
    assert_eq!(shapes[12], Shape::Note { x: 10, y: 348, size: 65 });
}

#[test]
fn objects_without_lane_are_not_painted() {
    let mut renderer = ManiaRenderer::new();
    let objects = vec![TimedObject { start_time: 0, kind: ObjectKind::Other { handle: 1 } }];
    assert_eq!(renderer.render(&area(), &objects, 250, 500, 1000, 4), frame());
}

#[test]
fn no_lanes_no_objects() {
    let mut renderer = ManiaRenderer::new();
    let shapes = renderer.render(&area(), &vec![tap(0, 64), hold(0, 64, 50)], 250, 500, 1000, 0);
    assert_eq!(shapes, vec![Shape::JudgmentLine { x_from: 10, x_to: 10, y: 700 }]);
}

#[test]
fn degenerate_settings_show_no_objects() {
    let mut renderer = ManiaRenderer::new();
    let objects = vec![tap(0, 64)];
    assert_eq!(renderer.render(&area(), &objects, 250, 0, 1000, 4), frame());
    assert_eq!(renderer.render(&area(), &objects, 250, 500, 0, 4), frame());
    assert_eq!(renderer.render(&area(), &vec![tap(-500, 64)], 250, 500, 1000, 4), frame());
}

#[test]
fn frame_repeats_after_one_period() {
    let mut renderer = ManiaRenderer::new();
    let objects = vec![tap(0, 64), hold(300, 192, 200), tap(1000, 448)];
    for clock in [0u64, 1, 480, 1499] {
        let first = renderer.render(&area(), &objects, clock, 500, 1000, 4);
        let again = renderer.render(&area(), &objects, clock + 1500, 500, 1000, 4);
        assert_eq!(first, again);
    }
}

#[test]
fn narrow_lanes_shift_wide_notes_left() {
    let mut renderer = ManiaRenderer { column_width: 40, note_size: 65, snippet_speed: 1000 };
    let shapes = renderer.render(&area(), &vec![tap(0, 200)], 250, 500, 1000, 4);
    assert_eq!(shapes[5], Shape::Note { x: 37, y: 268, size: 65 });
}
