use vstd::prelude::*;
use crate::arith::{floor_div, floor_div_i128};
use crate::lanes::{column_of, lane_of};
use crate::objects::{ObjectKind, TimedObject};
use crate::preview::{
    loop_clock, looped, pattern_duration, period_of, position_of, screen_y, Playhead,
};

verus! {

/// The part of the screen that the preview may draw on: its left and top
/// edges and its height. Coordinates grow to the right and downwards.
#[derive(Clone, Copy, Debug, PartialEq, Eq, Structural)]
pub struct Area {
    pub left: i32,
    pub top: i32,
    pub height: u32,
}

/// One thing to paint. Rectangles are given by their left top corner and
/// their size.
#[derive(Clone, Copy, Debug, PartialEq, Eq, Structural)]
pub enum Shape {
    /// The background of a lane.
    Column { x: i128, y: i128, width: i128, height: i128 },
    /// The line at which objects are due.
    JudgmentLine { x_from: i128, x_to: i128, y: i128 },
    /// The body of a hold, cut off at the judgment line.
    HoldBody { x: i128, y: i128, width: i128, height: i128 },
    /// The cap at the end of a hold.
    HoldCap { x: i128, y: i128, width: i128, height: i128 },
    /// A note: a tap, or the head of a hold.
    Note { x: i128, y: i128, size: i128 },
}

/// Draws the preview of a pattern in lanes side by side.
#[derive(Clone, Copy, Debug, PartialEq, Eq, Structural)]
pub struct ManiaRenderer {
    pub column_width: u32,
    pub note_size: u32,
    /// The speed of the last frame drawn, in thousandths.
    pub snippet_speed: u32,
}

/// How far above the lower edge of the area the judgment line lies.
pub const JUDGMENT_LINE_OFFSET: i64 = 100;

impl ManiaRenderer {
    /// The width of a hold: four fifths of a note.
    pub open spec fn hold_width(self) -> int {
        (self.note_size * 8) / 10
    }

    /// The height of a hold's cap: three tenths of its width.
    pub open spec fn cap_height(self) -> int {
        (self.hold_width() * 3) / 10
    }

    /// The left edge of a lane.
    pub open spec fn column_x(self, area: Area, column: int) -> int {
        area.left + column * self.column_width
    }

    /// Where the judgment line lies in the area.
    pub open spec fn judgment_line_y(area: Area) -> int {
        area.top + area.height - JUDGMENT_LINE_OFFSET
    }

    /// The playhead of a frame: the clock taken into the pattern's loop.
    pub open spec fn playhead(
        area: Area,
        objects: Seq<TimedObject>,
        current_time: u64,
        scroll_time_ms: u32,
        speed: u32,
    ) -> Playhead {
        Playhead {
            clock: loop_clock(
                current_time as int,
                pattern_duration(objects, scroll_time_ms as int),
            ) as u64,
            scroll_time_ms,
            speed,
            judgment_line_y: Self::judgment_line_y(area) as i64,
            height: area.height,
        }
    }

    /// The backgrounds of the lanes, from the left.
    pub open spec fn columns(self, area: Area, keycount: int) -> Seq<Shape> {
        Seq::new(
            keycount as nat,
            |i: int|
                Shape::Column {
                    x: self.column_x(area, i) as i128,
                    y: area.top as i128,
                    width: self.column_width as i128,
                    height: area.height as i128,
                },
        )
    }

    /// The judgment line, across all lanes.
    pub open spec fn line(self, area: Area, keycount: int) -> Shape {
        Shape::JudgmentLine {
            x_from: area.left as i128,
            x_to: self.column_x(area, keycount) as i128,
            y: Self::judgment_line_y(area) as i128,
        }
    }

    /// What is painted of an object as a hold: nothing, unless it is a hold
    /// whose end has not passed the judgment line; then its body, from its
    /// end down to its start or to the judgment line, and its cap.
    pub open spec fn hold_shapes(
        self,
        area: Area,
        object: TimedObject,
        playhead: Playhead,
        keycount: int,
    ) -> Seq<Shape> {
        match object.kind {
            ObjectKind::Hold { x, duration } => {
                let start_y = screen_y(object.start_time as int, playhead);
                let end_y = screen_y(object.end_time(), playhead);
                let line_y = playhead.judgment_line_y as int;
                if keycount > 0 && end_y <= line_y {
                    let left = self.column_x(area, lane_of(x as int, keycount)) + floor_div(
                        self.column_width - self.hold_width(),
                        2,
                    );
                    let upper = if start_y <= end_y {
                        start_y
                    } else {
                        end_y
                    };
                    let lower = if start_y <= end_y {
                        end_y
                    } else if start_y <= line_y {
                        start_y
                    } else {
                        line_y
                    };
                    seq![
                        Shape::HoldBody {
                            x: left as i128,
                            y: upper as i128,
                            width: self.hold_width() as i128,
                            height: (lower - upper) as i128,
                        },
                        Shape::HoldCap {
                            x: left as i128,
                            y: end_y as i128,
                            width: self.hold_width() as i128,
                            height: self.cap_height() as i128,
                        },
                    ]
                } else {
                    Seq::empty()
                }
            },
            _ => Seq::empty(),
        }
    }

    /// What is painted of an object as a note: nothing, unless it lies in a
    /// lane and its start has not passed the judgment line; then a square
    /// centred on its start. A note above the area is listed as well: it is
    /// for the drawing surface to cut it off.
    pub open spec fn note_shapes(
        self,
        area: Area,
        object: TimedObject,
        playhead: Playhead,
        keycount: int,
    ) -> Seq<Shape> {
        let y = screen_y(object.start_time as int, playhead);
        match object.kind.x() {
            Some(x) => if keycount > 0 && y <= playhead.judgment_line_y {
                seq![
                    Shape::Note {
                        x: (self.column_x(area, lane_of(x as int, keycount)) + floor_div(
                            self.column_width - self.note_size,
                            2,
                        )) as i128,
                        y: (y - self.note_size / 2) as i128,
                        size: self.note_size as i128,
                    },
                ]
            } else {
                Seq::empty()
            },
            None => Seq::empty(),
        }
    }

    /// Whether a frame shows objects at all: there are some, the pattern
    /// loops, and neither the scroll time nor the speed is 0.
    pub open spec fn shows_objects(objects: Seq<TimedObject>, scroll_time_ms: u32, speed: u32) -> bool {
        &&& objects.len() > 0
        &&& pattern_duration(objects, scroll_time_ms as int) > 0
        &&& scroll_time_ms > 0
        &&& speed > 0
    }

    /// All that a frame paints, in the order it is painted: the lanes, the
    /// judgment line, the holds, and the notes on top.
    pub open spec fn scene(
        self,
        area: Area,
        objects: Seq<TimedObject>,
        current_time: u64,
        scroll_time_ms: u32,
        keycount: int,
    ) -> Seq<Shape> {
        let frame = self.columns(area, keycount).push(self.line(area, keycount));
        if Self::shows_objects(objects, scroll_time_ms, self.snippet_speed) {
            let playhead = Self::playhead(
                area,
                objects,
                current_time,
                scroll_time_ms,
                self.snippet_speed,
            );
            frame + objects.flat_map(
                |o: TimedObject| self.hold_shapes(area, o, playhead, keycount),
            ) + objects.flat_map(|o: TimedObject| self.note_shapes(area, o, playhead, keycount))
        } else {
            frame
        }
    }

    /// A renderer with lanes and notes of 65 units, at the speed of the
    /// game.
    pub fn new() -> (renderer: Self)
        ensures
            renderer == (ManiaRenderer { column_width: 65, note_size: 65, snippet_speed: 1000 }),
    {
        ManiaRenderer { column_width: 65, note_size: 65, snippet_speed: 1000 }
    }

    /// The left edge of a lane.
    fn left_of(&self, area: &Area, column: usize) -> (x: i128)
        ensures
            x == self.column_x(*area, column as int),
            -0x8000_0000 <= x <= 0x8000_0000 + 0x1_0000_0000_0000_0000 * 0x1_0000_0000,
    {
        assert(0 <= column * self.column_width <= 0x1_0000_0000_0000_0000 * 0x1_0000_0000)
            by (nonlinear_arith)
            requires
                0 <= column <= 0x1_0000_0000_0000_0000,
                0 <= self.column_width <= 0x1_0000_0000,
        ;
        area.left as i128 + (column as i128) * (self.column_width as i128)
    }

    /// The body and the cap of a hold, if its end has not passed the
    /// judgment line.
    fn render_hold(
        &self,
        shapes: &mut Vec<Shape>,
        area: &Area,
        object: &TimedObject,
        playhead: &Playhead,
        keycount: usize,
    )
        requires
            playhead.is_defined(),
        ensures
            final(shapes)@ == old(shapes)@ + self.hold_shapes(
                *area,
                *object,
                *playhead,
                keycount as int,
            ),
    {
        let ghost drawn = self.hold_shapes(*area, *object, *playhead, keycount as int);
        match object.kind {
            ObjectKind::Hold { x, duration } => {
                let start = object.start_time as i128;
                let end = start + duration as i128;
                let line_y = playhead.judgment_line_y as i128;
                let start_y = match position_of(start, playhead) {
                    Some(y) => y,
                    None => line_y,
                };
                let end_y = match position_of(end, playhead) {
                    Some(y) => y,
                    None => line_y,
                };
                if keycount > 0 && end_y <= line_y {
                    let hold_width: i128 = (self.note_size as i128) * 8 / 10;
                    let cap_height: i128 = hold_width * 3 / 10;
                    let column = column_of(x, keycount);
                    let left = self.left_of(area, column) + floor_div_i128(
                        self.column_width as i128 - hold_width,
                        2,
                    );
                    let upper = if start_y <= end_y {
                        start_y
                    } else {
                        end_y
                    };
                    let lower = if start_y <= end_y {
                        end_y
                    } else if start_y <= line_y {
                        start_y
                    } else {
                        line_y
                    };
                    shapes.push(
                        Shape::HoldBody { x: left, y: upper, width: hold_width, height: lower - upper },
                    );
                    shapes.push(
                        Shape::HoldCap { x: left, y: end_y, width: hold_width, height: cap_height },
                    );
                    proof {
                        assert(shapes@ =~= old(shapes)@ + drawn);
                    }
                } else {
                    proof {
                        assert(shapes@ =~= old(shapes)@ + drawn);
                    }
                }
            },
            _ => {
                proof {
                    assert(shapes@ =~= old(shapes)@ + drawn);
                }
            },
        }
    }

    /// The note of an object, if it lies in a lane and has not passed the
    /// judgment line.
    fn render_note(
        &self,
        shapes: &mut Vec<Shape>,
        area: &Area,
        object: &TimedObject,
        playhead: &Playhead,
        keycount: usize,
    )
        requires
            playhead.is_defined(),
        ensures
            final(shapes)@ == old(shapes)@ + self.note_shapes(
                *area,
                *object,
                *playhead,
                keycount as int,
            ),
    {
        let ghost drawn = self.note_shapes(*area, *object, *playhead, keycount as int);
        let lane_x = match object.kind {
            ObjectKind::Tap { x } => Some(x),
            ObjectKind::Hold { x, .. } => Some(x),
            ObjectKind::Other { .. } => None,
        };
        let y = match position_of(object.start_time as i128, playhead) {
            Some(y) => y,
            None => playhead.judgment_line_y as i128,
        };
        match lane_x {
            Some(x) => {
                if keycount > 0 && y <= playhead.judgment_line_y as i128 {
                    let column = column_of(x, keycount);
                    let left = self.left_of(area, column) + floor_div_i128(
                        self.column_width as i128 - self.note_size as i128,
                        2,
                    );
                    shapes.push(
                        Shape::Note {
                            x: left,
                            y: y - (self.note_size / 2) as i128,
                            size: self.note_size as i128,
                        },
                    );
                }
            },
            None => {},
        }
        proof {
            assert(shapes@ =~= old(shapes)@ + drawn);
        }
    }

    /// All that one frame of the preview paints, in the order it is
    /// painted. The renderer keeps the speed of the frame.
    pub fn render(
        &mut self,
        area: &Area,
        hit_objects: &Vec<TimedObject>,
        current_time: u64,
        scroll_time_ms: u32,
        snippet_speed: u32,
        keycount: usize,
    ) -> (shapes: Vec<Shape>)
        ensures
            *final(self) == (ManiaRenderer { snippet_speed, ..*old(self) }),
            shapes@ == final(self).scene(
                *area,
                hit_objects@,
                current_time,
                scroll_time_ms,
                keycount as int,
            ),
    {
        self.snippet_speed = snippet_speed;
        let ghost columns = self.columns(*area, keycount as int);
        let mut shapes: Vec<Shape> = Vec::new();
        let mut i: usize = 0;
        while i < keycount
            invariant
                i <= keycount,
                *self == (ManiaRenderer { snippet_speed, ..*old(self) }),
                columns == self.columns(*area, keycount as int),
                shapes@ == columns.take(i as int),
            decreases keycount - i,
        {
            let x = self.left_of(area, i);
            shapes.push(
                Shape::Column {
                    x,
                    y: area.top as i128,
                    width: self.column_width as i128,
                    height: area.height as i128,
                },
            );
            i += 1;
            proof {
                assert(shapes@ =~= columns.take(i as int));
            }
        }
        let line_y: i64 = area.top as i64 + area.height as i64 - JUDGMENT_LINE_OFFSET;
        let right = self.left_of(area, keycount);
        shapes.push(Shape::JudgmentLine { x_from: area.left as i128, x_to: right, y: line_y as i128 });
        let ghost frame = columns.push(self.line(*area, keycount as int));
        proof {
            assert(columns.take(keycount as int) =~= columns);
            assert(shapes@ =~= frame);
        }
        if scroll_time_ms == 0 || snippet_speed == 0 {
            return shapes;
        }
        let clock = match period_of(hit_objects, scroll_time_ms) {
            Some(period) => match looped(current_time, period) {
                Some(clock) => clock,
                None => {
                    return shapes;
                },
            },
            None => {
                return shapes;
            },
        };
        let playhead = Playhead {
            clock,
            scroll_time_ms,
            speed: snippet_speed,
            judgment_line_y: line_y,
            height: area.height,
        };
        assert(playhead == Self::playhead(
            *area,
            hit_objects@,
            current_time,
            scroll_time_ms,
            snippet_speed,
        ));
        let ghost holds = |o: TimedObject| self.hold_shapes(*area, o, playhead, keycount as int);
        let ghost notes = |o: TimedObject| self.note_shapes(*area, o, playhead, keycount as int);
        let n = hit_objects.len();
        let mut i: usize = 0;
        proof {
            assert(hit_objects@.take(0).flat_map(holds) =~= Seq::<Shape>::empty());
            assert(shapes@ =~= frame + hit_objects@.take(0).flat_map(holds));
        }
        while i < n
            invariant
                i <= n,
                n == hit_objects@.len(),
                playhead.is_defined(),
                *self == (ManiaRenderer { snippet_speed, ..*old(self) }),
                holds == (|o: TimedObject|
                    self.hold_shapes(*area, o, playhead, keycount as int)),
                shapes@ == frame + hit_objects@.take(i as int).flat_map(holds),
            decreases n - i,
        {
            let ghost seen = hit_objects@.take(i as int);
            proof {
                assert(hit_objects@.take(i + 1) =~= seen.push(hit_objects@[i as int]));
                seen.lemma_flat_map_push(holds, hit_objects@[i as int]);
            }
            self.render_hold(&mut shapes, area, &hit_objects[i], &playhead, keycount);
            i += 1;
            proof {
                assert(shapes@ =~= frame + hit_objects@.take(i as int).flat_map(holds));
            }
        }
        let ghost below = frame + hit_objects@.flat_map(holds);
        let mut i: usize = 0;
        proof {
            assert(hit_objects@.take(n as int) =~= hit_objects@);
            assert(hit_objects@.take(0).flat_map(notes) =~= Seq::<Shape>::empty());
            assert(shapes@ =~= below + hit_objects@.take(0).flat_map(notes));
        }
        while i < n
            invariant
                i <= n,
                n == hit_objects@.len(),
                playhead.is_defined(),
                *self == (ManiaRenderer { snippet_speed, ..*old(self) }),
                notes == (|o: TimedObject|
                    self.note_shapes(*area, o, playhead, keycount as int)),
                shapes@ == below + hit_objects@.take(i as int).flat_map(notes),
            decreases n - i,
        {
            let ghost seen = hit_objects@.take(i as int);
            proof {
                assert(hit_objects@.take(i + 1) =~= seen.push(hit_objects@[i as int]));
                seen.lemma_flat_map_push(notes, hit_objects@[i as int]);
            }
            self.render_note(&mut shapes, area, &hit_objects[i], &playhead, keycount);
            i += 1;
            proof {
                assert(shapes@ =~= below + hit_objects@.take(i as int).flat_map(notes));
            }
        }
        proof {
            assert(hit_objects@.take(n as int) =~= hit_objects@);
        }
        shapes
    }
}

/// The preview loops: a frame drawn whole periods later has the playhead
/// of the frame drawn now, so every instant stands where it stood and the
/// same shapes are painted.
pub proof fn lemma_frame_repeats(
    renderer: ManiaRenderer,
    area: Area,
    objects: Seq<TimedObject>,
    current_time: u64,
    later: u64,
    rounds: nat,
    scroll_time_ms: u32,
    keycount: int,
)
    requires
        objects.len() > 0,
        pattern_duration(objects, scroll_time_ms as int) > 0,
        later == current_time + rounds * pattern_duration(objects, scroll_time_ms as int),
    ensures
        ManiaRenderer::playhead(area, objects, later, scroll_time_ms, renderer.snippet_speed)
            == ManiaRenderer::playhead(
            area,
            objects,
            current_time,
            scroll_time_ms,
            renderer.snippet_speed,
        ),
        renderer.scene(area, objects, later, scroll_time_ms, keycount) == renderer.scene(
            area,
            objects,
            current_time,
            scroll_time_ms,
            keycount,
        ),
{
    crate::preview::lemma_loop_wraps(
        current_time as int,
        pattern_duration(objects, scroll_time_ms as int),
        rounds as int,
    );
}

} // verus!
