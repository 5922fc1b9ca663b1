use vstd::prelude::*;
use crate::arith::{floor_div, floor_div_i128, lemma_floor_div_bounds, lemma_floor_div_unique};
use crate::objects::{ObjectKind, TimedObject};

verus! {

/// What a frame of the preview is drawn by: the looped clock and the two
/// settings in milliseconds and thousandths, and where the track lies on
/// the screen. Screen coordinates grow downwards.
#[derive(Clone, Copy, Debug, PartialEq, Eq, Structural)]
pub struct Playhead {
    /// The preview clock, already taken into the loop, in milliseconds.
    pub clock: u64,
    /// The time an object takes from the top of the track to the judgment
    /// line at speed 1, in milliseconds.
    pub scroll_time_ms: u32,
    /// The playback speed in thousandths: 1000 is the speed of the game.
    pub speed: u32,
    /// Where objects are due.
    pub judgment_line_y: i64,
    /// The height of the track.
    pub height: u32,
}

/// The object that starts latest; of several that start together, the last
/// in the list.
pub open spec fn latest(objects: Seq<TimedObject>) -> TimedObject
    recommends
        objects.len() > 0,
    decreases objects.len(),
{
    if objects.len() <= 1 {
        objects.last()
    } else {
        let before = latest(objects.drop_last());
        if objects.last().start_time >= before.start_time {
            objects.last()
        } else {
            before
        }
    }
}

/// The period of the looping preview: the end of the object that starts
/// latest, and the scroll time on top.
pub open spec fn pattern_duration(objects: Seq<TimedObject>, scroll: int) -> int
    recommends
        objects.len() > 0,
{
    latest(objects).end_time() + scroll
}

/// The clock taken into the loop: what is left of it after whole periods.
pub open spec fn loop_clock(clock: int, period: int) -> int
    recommends
        period > 0,
{
    clock % period
}

/// The time the instant `time` still has to run before it is due.
pub open spec fn lead(time: int, clock: int, scroll: int) -> int {
    time + scroll - clock
}

/// Where the instant `time` stands on the screen: at the judgment line when
/// it is due, and above it by the track's height for every scroll time of
/// lead, the lead shortened by the speed. Rounded down to a whole unit.
pub open spec fn screen_y(time: int, playhead: Playhead) -> int
    recommends
        playhead.scroll_time_ms > 0,
        playhead.speed > 0,
{
    playhead.judgment_line_y - floor_div(
        lead(time, playhead.clock as int, playhead.scroll_time_ms as int) * 1000
            * playhead.height,
        playhead.speed * playhead.scroll_time_ms,
    )
}

impl Playhead {
    /// Whether positions can be computed: neither the scroll time nor the
    /// speed is 0.
    pub open spec fn is_defined(self) -> bool {
        self.scroll_time_ms > 0 && self.speed > 0
    }

    /// Whether the instant `time` is drawn: it stands at the judgment line
    /// or above.
    pub open spec fn shows(self, time: int) -> bool {
        self.is_defined() && screen_y(time, self) <= self.judgment_line_y
    }
}

/// The period of the looping preview; `None` for a pattern without objects.
pub fn period_of(hit_objects: &Vec<TimedObject>, scroll_time_ms: u32) -> (period: Option<i128>)
    ensures
        hit_objects@.len() == 0 ==> period is None,
        hit_objects@.len() > 0 ==> period == Some(
            pattern_duration(hit_objects@, scroll_time_ms as int) as i128,
        ),
        period matches Some(p) ==> p == pattern_duration(hit_objects@, scroll_time_ms as int),
{
    let n = hit_objects.len();
    if n == 0 {
        return None;
    }
    let mut found = hit_objects[0];
    let mut i: usize = 1;
    proof {
        assert(hit_objects@.take(1).last() == hit_objects@[0]);
    }
    while i < n
        invariant
            1 <= i <= n,
            n == hit_objects@.len(),
            found == latest(hit_objects@.take(i as int)),
        decreases n - i,
    {
        let object = hit_objects[i];
        proof {
            let seen = hit_objects@.take(i + 1);
            assert(seen.drop_last() =~= hit_objects@.take(i as int));
            assert(seen.last() == object);
        }
        if object.start_time >= found.start_time {
            found = object;
        }
        i += 1;
    }
    proof {
        assert(hit_objects@.take(n as int) =~= hit_objects@);
    }
    let mut period: i128 = found.start_time as i128;
    match found.kind {
        ObjectKind::Hold { duration, .. } => {
            period = period + duration as i128;
        },
        _ => {},
    }
    Some(period + scroll_time_ms as i128)
}

/// Whether `objects[k]` starts latest and is the last of those that do: no
/// object starts after it, and those behind it in the list start before it.
pub open spec fn starts_latest(objects: Seq<TimedObject>, k: int) -> bool {
    &&& 0 <= k < objects.len()
    &&& forall|j: int|
        0 <= j < objects.len() ==> (#[trigger] objects[j]).start_time <= objects[k].start_time
    &&& forall|j: int|
        k < j < objects.len() ==> (#[trigger] objects[j]).start_time < objects[k].start_time
}

/// The latest object is one of the list, none starts after it, and those
/// that stand behind it in the list start before it. The result is its
/// place in the list.
pub proof fn lemma_latest_is_latest(objects: Seq<TimedObject>) -> (k: int)
    requires
        objects.len() > 0,
    ensures
        starts_latest(objects, k),
        objects[k] == latest(objects),
    decreases objects.len(),
{
    let n = objects.len() as int;
    if n == 1 {
        0
    } else {
        let head = objects.drop_last();
        let h = lemma_latest_is_latest(head);
        assert(head[h] == objects[h]);
        if objects.last().start_time >= latest(head).start_time {
            assert forall|j: int| 0 <= j < objects.len() implies (#[trigger] objects[j]).start_time
                <= objects[n - 1].start_time by {
                if j < n - 1 {
                    assert(head[j] == objects[j]);
                    assert(head[j].start_time <= head[h].start_time);
                }
            }
            n - 1
        } else {
            assert forall|j: int| 0 <= j < objects.len() implies (#[trigger] objects[j]).start_time
                <= objects[h].start_time by {
                if j < n - 1 {
                    assert(head[j] == objects[j]);
                    assert(head[j].start_time <= head[h].start_time);
                }
            }
            assert forall|j: int| h < j < objects.len() implies (#[trigger] objects[j]).start_time
                < objects[h].start_time by {
                if j < n - 1 {
                    assert(head[j] == objects[j]);
                    assert(head[j].start_time < head[h].start_time);
                }
            }
            h
        }
    }
}

/// Only one place in a list meets `starts_latest`.
pub proof fn lemma_starts_latest_unique(objects: Seq<TimedObject>, a: int, b: int)
    requires
        starts_latest(objects, a),
        starts_latest(objects, b),
    ensures
        a == b,
{
    if a < b {
        assert(objects[b].start_time < objects[a].start_time);
        assert(objects[a].start_time <= objects[b].start_time);
    } else if b < a {
        assert(objects[a].start_time < objects[b].start_time);
        assert(objects[b].start_time <= objects[a].start_time);
    }
}

/// In a list that is in the order of its start times, the latest object is
/// the last.
pub proof fn lemma_latest_of_sorted(objects: Seq<TimedObject>)
    requires
        objects.len() > 0,
        crate::merge::sorted_by_time(objects),
    ensures
        latest(objects) == objects.last(),
    decreases objects.len(),
{
    if objects.len() > 1 {
        let head = objects.drop_last();
        assert(crate::merge::sorted_by_time(head)) by {
            assert forall|i: int, j: int| 0 <= i < j < head.len() implies head[i].start_time
                <= head[j].start_time by {
                assert(head[i] == objects[i] && head[j] == objects[j]);
            }
        }
        lemma_latest_of_sorted(head);
        assert(head.last() == objects[objects.len() - 2]);
    }
}

/// The clock taken into the loop; `None` where the period is not positive:
/// such a pattern does not loop.
pub fn looped(current_time: u64, period: i128) -> (clock: Option<u64>)
    ensures
        period <= 0 ==> clock is None,
        period > 0 ==> clock == Some(loop_clock(current_time as int, period as int) as u64),
        clock matches Some(c) ==> c == loop_clock(current_time as int, period as int),
{
    if period <= 0 {
        return None;
    }
    let left: i128 = (current_time as i128) % period;
    proof {
        lemma_floor_div_bounds(current_time as int, period as int);
    }
    Some(left as u64)
}

/// Where the instant `time` stands on the screen; `None` where the scroll
/// time or the speed is 0.
pub fn position_of(time: i128, playhead: &Playhead) -> (y: Option<i128>)
    requires
        -0x2_0000_0000_0000_0000 <= time <= 0x2_0000_0000_0000_0000,
    ensures
        !playhead.is_defined() ==> y is None,
        playhead.is_defined() ==> y == Some(screen_y(time as int, *playhead) as i128),
        y matches Some(v) ==> v == screen_y(time as int, *playhead),
        y matches Some(v) ==> -0x4000_0000_0000_0000_0000_0000_0000 <= v
            <= 0x4000_0000_0000_0000_0000_0000_0000,
{
    if playhead.scroll_time_ms == 0 || playhead.speed == 0 {
        return None;
    }
    let ahead: i128 = time + playhead.scroll_time_ms as i128 - playhead.clock as i128;
    let height = playhead.height as i128;
    assert(0 < playhead.speed * playhead.scroll_time_ms <= 0x1_0000_0000 * 0x1_0000_0000)
        by (nonlinear_arith)
        requires
            0 < playhead.speed <= 0x1_0000_0000,
            0 < playhead.scroll_time_ms <= 0x1_0000_0000,
    ;
    let divisor: i128 = (playhead.speed as i128) * (playhead.scroll_time_ms as i128);
    assert(-0x4_0000_0000_0000_0000 * 1000 * 0x1_0000_0000 <= ahead * 1000 * height
        <= 0x4_0000_0000_0000_0000 * 1000 * 0x1_0000_0000) by (nonlinear_arith)
        requires
            -0x4_0000_0000_0000_0000 <= ahead <= 0x4_0000_0000_0000_0000,
            0 <= height <= 0x1_0000_0000,
    ;
    let run: i128 = ahead * 1000 * height;
    let climbed: i128 = floor_div_i128(run, divisor);
    proof {
        assert(-0x4_0000_0000_0000_0000 * 1000 * 0x1_0000_0000 - 1 <= climbed
            <= 0x4_0000_0000_0000_0000 * 1000 * 0x1_0000_0000) by (nonlinear_arith)
            requires
                climbed * divisor <= run < climbed * divisor + divisor,
                divisor > 0,
                -0x4_0000_0000_0000_0000 * 1000 * 0x1_0000_0000 <= run
                    <= 0x4_0000_0000_0000_0000 * 1000 * 0x1_0000_0000,
        ;
    }
    Some(playhead.judgment_line_y as i128 - climbed)
}

impl TimedObject {
    /// Where the object's start stands on the screen, if it is drawn: if
    /// it has not passed the judgment line.
    pub fn start_position(&self, playhead: &Playhead) -> (y: Option<i128>)
        ensures
            y is Some <==> playhead.shows(self.start_time as int),
            y matches Some(v) ==> v == screen_y(self.start_time as int, *playhead),
    {
        match position_of(self.start_time as i128, playhead) {
            Some(y) => if y <= playhead.judgment_line_y as i128 {
                Some(y)
            } else {
                None
            },
            None => None,
        }
    }

    /// Where the object's end stands on the screen, if it is drawn: if it
    /// has not passed the judgment line. The end of an object that is not
    /// held is its start.
    pub fn end_position(&self, playhead: &Playhead) -> (y: Option<i128>)
        ensures
            y is Some <==> playhead.shows(self.end_time()),
            y matches Some(v) ==> v == screen_y(self.end_time(), *playhead),
    {
        let end: i128 = match self.kind {
            ObjectKind::Hold { duration, .. } => self.start_time as i128 + duration as i128,
            _ => self.start_time as i128,
        };
        match position_of(end, playhead) {
            Some(y) => if y <= playhead.judgment_line_y as i128 {
                Some(y)
            } else {
                None
            },
            None => None,
        }
    }
}

/// The preview clock for a time on the wall clock: the elapsed time
/// stretched by the speed, in thousandths.
pub fn preview_clock(elapsed_ms: u32, speed: u32) -> (clock: u64)
    ensures
        clock == (elapsed_ms * speed) / 1000,
{
    assert(elapsed_ms * speed <= 0xffff_ffff * 0xffff_ffff) by (nonlinear_arith)
        requires
            0 <= elapsed_ms <= 0xffff_ffff,
            0 <= speed <= 0xffff_ffff,
    ;
    (elapsed_ms as u64) * (speed as u64) / 1000
}

/// The preview loops: whole periods added to the clock change nothing.
pub proof fn lemma_loop_wraps(clock: int, period: int, rounds: int)
    requires
        period > 0,
    ensures
        loop_clock(clock + rounds * period, period) == loop_clock(clock, period),
        0 <= loop_clock(clock, period) < period,
{
    lemma_floor_div_bounds(clock, period);
    assert(rounds * period == period * rounds) by (nonlinear_arith);
    vstd::arithmetic::div_mod::lemma_mod_multiples_vanish(rounds, clock, period);
}

/// An instant is drawn as long as it is not overdue: as long as the clock
/// has not passed it by more than the scroll time.
pub proof fn lemma_shown_until_due(time: int, playhead: Playhead)
    requires
        playhead.is_defined(),
        playhead.height > 0,
    ensures
        playhead.shows(time) <==> lead(time, playhead.clock as int, playhead.scroll_time_ms as int)
            >= 0,
        lead(time, playhead.clock as int, playhead.scroll_time_ms as int) == 0 ==> screen_y(
            time,
            playhead,
        ) == playhead.judgment_line_y,
{
    let ahead = lead(time, playhead.clock as int, playhead.scroll_time_ms as int);
    let run = ahead * 1000 * playhead.height;
    let divisor = playhead.speed * playhead.scroll_time_ms;
    assert(divisor > 0) by (nonlinear_arith)
        requires
            playhead.speed > 0,
            playhead.scroll_time_ms > 0,
            divisor == playhead.speed * playhead.scroll_time_ms,
    ;
    lemma_floor_div_bounds(run, divisor);
    let climbed = floor_div(run, divisor);
    assert((run >= 0) == (ahead >= 0)) by (nonlinear_arith)
        requires
            run == ahead * 1000 * playhead.height,
            playhead.height > 0,
    ;
    assert((climbed >= 0) == (run >= 0)) by (nonlinear_arith)
        requires
            climbed * divisor <= run < climbed * divisor + divisor,
            divisor > 0,
    ;
    if ahead == 0 {
        assert(run == 0) by (nonlinear_arith)
            requires
                run == ahead * 1000 * playhead.height,
                ahead == 0,
        ;
        lemma_floor_div_unique(run, divisor, 0);
    }
}

/// At the speed of the game, an instant that is one scroll time away stands
/// at the top of the track.
pub proof fn lemma_enters_at_top(time: int, playhead: Playhead)
    requires
        playhead.is_defined(),
        playhead.speed == 1000,
        lead(time, playhead.clock as int, playhead.scroll_time_ms as int)
            == playhead.scroll_time_ms,
    ensures
        screen_y(time, playhead) == playhead.judgment_line_y - playhead.height,
{
    let scroll = playhead.scroll_time_ms as int;
    let height = playhead.height as int;
    let run = scroll * 1000 * height;
    let divisor = 1000 * scroll;
    assert(height * divisor == run && divisor > 0) by (nonlinear_arith)
        requires
            run == scroll * 1000 * height,
            divisor == 1000 * scroll,
            scroll > 0,
    ;
    lemma_floor_div_unique(run, divisor, height);
}

} // verus!
