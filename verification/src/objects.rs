use vstd::prelude::*;

verus! {

/// What a timed object is, beside its start time. `x` is the horizontal
/// coordinate on the playfield, whose width is `PLAYFIELD_WIDTH`; the lane
/// follows from it and from the lane count.
#[derive(Clone, Copy, Debug, PartialEq, Eq, Structural)]
pub enum ObjectKind {
    /// A press at one instant.
    Tap { x: i32 },
    /// A press held for `duration` milliseconds.
    Hold { x: i32, duration: i64 },
    /// An object of a kind that lies in no lane. What it is beyond that is
    /// the caller's to know: `handle` is the caller's number for it, which
    /// is carried along unchanged and by which the caller finds it again.
    Other { handle: u64 },
}

/// One object of a timeline. Times are whole milliseconds.
#[derive(Clone, Copy, Debug, PartialEq, Eq, Structural)]
pub struct TimedObject {
    pub start_time: i64,
    pub kind: ObjectKind,
}

/// The tempo that holds from `time` on. `time` is in milliseconds, the
/// length of a beat in microseconds.
#[derive(Clone, Copy, Debug, PartialEq, Eq, Structural)]
pub struct TempoReference {
    pub time: i64,
    pub beat_len_us: i64,
}

/// A decoded timeline: what a codec hands over and takes back.
#[derive(Clone, Debug)]
pub struct Document {
    pub title: String,
    /// The tags, joined by single spaces.
    pub tags: String,
    pub lane_count: usize,
    pub objects: Vec<TimedObject>,
    pub tempo_references: Vec<TempoReference>,
}

/// The width of the playfield, in the unit of `x`.
pub const PLAYFIELD_WIDTH: i32 = 512;

impl ObjectKind {
    /// How long the object lasts: nothing, but for a hold.
    pub open spec fn duration(self) -> int {
        match self {
            ObjectKind::Hold { duration, .. } => duration as int,
            _ => 0,
        }
    }

    /// A hold lasts for a positive time.
    pub open spec fn well_formed(self) -> bool {
        match self {
            ObjectKind::Hold { duration, .. } => duration > 0,
            _ => true,
        }
    }

    /// The coordinate, for the kinds that lie in a lane.
    pub open spec fn x(self) -> Option<i32> {
        match self {
            ObjectKind::Tap { x } => Some(x),
            ObjectKind::Hold { x, .. } => Some(x),
            ObjectKind::Other { .. } => None,
        }
    }
}

impl TimedObject {
    pub open spec fn end_time(self) -> int {
        self.start_time + self.kind.duration()
    }

    pub open spec fn well_formed(self) -> bool {
        self.kind.well_formed()
    }

    /// Whether a hold lasts for a positive time; `true` of every other kind.
    pub fn is_well_formed(&self) -> (ok: bool)
        ensures
            ok == self.well_formed(),
    {
        match self.kind {
            ObjectKind::Hold { duration, .. } => duration > 0,
            _ => true,
        }
    }
}

/// The objects that lie in no lane, in the list's order: a preview does
/// not show them, and a shuffle leaves them where they are.
pub open spec fn without_lane(objects: Seq<TimedObject>) -> Seq<TimedObject> {
    objects.filter(|o: TimedObject| o.kind is Other)
}

/// Whether one of the objects lies in a lane.
pub open spec fn any_in_lane(objects: Seq<TimedObject>) -> bool {
    exists|i: int| 0 <= i < objects.len() && (#[trigger] objects[i]).kind.x() is Some
}

/// Whether one of the objects lies in a lane.
pub fn has_lane_object(objects: &Vec<TimedObject>) -> (found: bool)
    ensures
        found == any_in_lane(objects@),
{
    let n = objects.len();
    let mut i: usize = 0;
    while i < n
        invariant
            i <= n,
            n == objects@.len(),
            forall|j: int| 0 <= j < i ==> (#[trigger] objects@[j]).kind.x() is None,
        decreases n - i,
    {
        match objects[i].kind {
            ObjectKind::Other { .. } => {},
            _ => {
                assert(objects@[i as int].kind.x() is Some);
                return true;
            },
        }
        i += 1;
    }
    false
}

/// How many of the objects lie in no lane.
pub fn count_without_lane(objects: &Vec<TimedObject>) -> (count: usize)
    ensures
        count == without_lane(objects@).len(),
{
    let ghost lane_less = |o: TimedObject| o.kind is Other;
    let n = objects.len();
    let mut count: usize = 0;
    let mut i: usize = 0;
    proof {
        assert(objects@.take(0).filter(lane_less) =~= Seq::<TimedObject>::empty());
    }
    while i < n
        invariant
            i <= n,
            n == objects@.len(),
            lane_less == (|o: TimedObject| o.kind is Other),
            count == objects@.take(i as int).filter(lane_less).len(),
            count <= i,
        decreases n - i,
    {
        proof {
            let seen = objects@.take(i as int);
            assert(objects@.take(i + 1) =~= seen.push(objects@[i as int]));
            seen.lemma_filter_push(objects@[i as int], lane_less);
        }
        match objects[i].kind {
            ObjectKind::Other { .. } => {
                count += 1;
            },
            _ => {},
        }
        i += 1;
    }
    proof {
        assert(objects@.take(n as int) =~= objects@);
    }
    count
}

impl Document {
    /// A document with no title, no tags, no lane, no object and no tempo.
    pub fn new() -> (doc: Self)
        ensures
            doc.title@.len() == 0,
            doc.tags@.len() == 0,
            doc.lane_count == 0,
            doc.objects@.len() == 0,
            doc.tempo_references@.len() == 0,
    {
        Document {
            title: String::new(),
            tags: String::new(),
            lane_count: 0,
            objects: Vec::new(),
            tempo_references: Vec::new(),
        }
    }
}

} // verus!
