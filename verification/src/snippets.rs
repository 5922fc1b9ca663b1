use vstd::prelude::*;
use crate::error::SnippetError;
use crate::marker::SnippetsMaker;
use crate::objects::{Document, TempoReference, TimedObject};

verus! {

/// A captured fragment of a timeline, with the tempo it was captured under.
/// The objects' times count from the start of the capture window.
#[derive(Clone, Debug)]
pub struct Snippets {
    pub name: String,
    pub hit_objects: Vec<TimedObject>,
    pub timing_points: TempoReference,
    /// Whether the snippet was ever read from or written to a file. A later
    /// edit does not clear it.
    pub is_saved: bool,
    /// Whether an insertion draws a permutation of the lanes.
    pub should_shuffle: bool,
    /// The number of lanes.
    pub keycount: usize,
    pub tags: Vec<String>,
}

/// The beat length of a fresh snippet, in microseconds.
pub const INITIAL_BEAT_LEN_US: i64 = 1_000_000;

/// Whether the object starts inside the closed capture window.
pub open spec fn in_window(object: TimedObject, maker: SnippetsMaker) -> bool {
    maker.contains(object.start_time as int)
}

/// The objects of a timeline that start inside the window, in the
/// timeline's order.
pub open spec fn selected(objects: Seq<TimedObject>, maker: SnippetsMaker) -> Seq<TimedObject> {
    objects.filter(|o: TimedObject| in_window(o, maker))
}

/// The object with its time counted from `start`.
pub open spec fn normalized(object: TimedObject, start: i32) -> TimedObject {
    TimedObject { start_time: (object.start_time - start) as i64, kind: object.kind }
}

/// What a capture takes out of a timeline: the selected objects, each
/// counted from the start of the window.
pub open spec fn extracted(objects: Seq<TimedObject>, maker: SnippetsMaker) -> Seq<TimedObject> {
    selected(objects, maker).map_values(|o: TimedObject| normalized(o, maker.time_start))
}

/// How far a tempo reference lies from the start of the window.
pub open spec fn distance(reference: TempoReference, maker: SnippetsMaker) -> int {
    if reference.time >= maker.time_start {
        reference.time - maker.time_start
    } else {
        maker.time_start - reference.time
    }
}

/// Whether the tempo reference is set inside the closed capture window.
pub open spec fn tempo_in_window(reference: TempoReference, maker: SnippetsMaker) -> bool {
    maker.contains(reference.time as int)
}

/// Whether `refs[i]` is the tempo reference that a capture records: the
/// first one inside the window, or, where none lies inside, the first among
/// those closest to the window's start.
pub open spec fn is_tempo_choice(refs: Seq<TempoReference>, maker: SnippetsMaker, i: int) -> bool {
    &&& 0 <= i < refs.len()
    &&& if exists|j: int| 0 <= j < refs.len() && tempo_in_window(#[trigger] refs[j], maker) {
        &&& tempo_in_window(refs[i], maker)
        &&& forall|j: int| 0 <= j < i ==> !tempo_in_window(#[trigger] refs[j], maker)
    } else {
        &&& forall|j: int|
            0 <= j < i ==> distance(#[trigger] refs[j], maker) > distance(refs[i], maker)
        &&& forall|j: int|
            i <= j < refs.len() ==> distance(#[trigger] refs[j], maker) >= distance(refs[i], maker)
    }
}

impl Snippets {
    /// An empty, unsaved snippet of four lanes.
    pub fn new() -> (snippet: Self)
        ensures
            snippet.name@.len() == 0,
            snippet.hit_objects@.len() == 0,
            snippet.timing_points == (TempoReference { time: 0, beat_len_us: INITIAL_BEAT_LEN_US }),
            !snippet.is_saved,
            !snippet.should_shuffle,
            snippet.keycount == 4,
            snippet.tags@.len() == 0,
    {
        Snippets {
            name: String::new(),
            hit_objects: Vec::new(),
            timing_points: TempoReference { time: 0, beat_len_us: INITIAL_BEAT_LEN_US },
            is_saved: false,
            should_shuffle: false,
            keycount: 4,
            tags: Vec::new(),
        }
    }

    /// Whether the two snippets agree in all but their objects, their tempo
    /// and their lane count.
    pub open spec fn same_labels(self, other: Snippets) -> bool {
        &&& self.name == other.name
        &&& self.tags == other.tags
        &&& self.is_saved == other.is_saved
        &&& self.should_shuffle == other.should_shuffle
    }

    /// Appends the timeline's objects that start inside the window, with
    /// their times as they stand in the timeline.
    pub fn collect_hit_objects(&mut self, beatmap: &Document, snippets_maker: &SnippetsMaker) -> (done: Result<(), SnippetError>)
        ensures
            done is Ok,
            final(self).hit_objects@ == old(self).hit_objects@ + selected(
                beatmap.objects@,
                *snippets_maker,
            ),
            final(self).same_labels(*old(self)),
            final(self).timing_points == old(self).timing_points,
            final(self).keycount == old(self).keycount,
    {
        let n = beatmap.objects.len();
        let ghost pred = |o: TimedObject| in_window(o, *snippets_maker);
        let mut i: usize = 0;
        proof {
            assert(beatmap.objects@.take(0).filter(pred) =~= Seq::<TimedObject>::empty());
            assert(self.hit_objects@ =~= old(self).hit_objects@ + beatmap.objects@.take(0).filter(pred));
        }
        while i < n
            invariant
                i <= n,
                n == beatmap.objects@.len(),
                pred == (|o: TimedObject| in_window(o, *snippets_maker)),
                self.hit_objects@ == old(self).hit_objects@ + beatmap.objects@.take(i as int).filter(pred),
                self.same_labels(*old(self)),
                self.timing_points == old(self).timing_points,
                self.keycount == old(self).keycount,
            decreases n - i,
        {
            let object = beatmap.objects[i];
            proof {
                let before = beatmap.objects@.take(i as int);
                assert(beatmap.objects@.take(i + 1) =~= before.push(object));
                before.lemma_filter_push(object, pred);
            }
            if object.start_time >= snippets_maker.time_start as i64 && object.start_time
                <= snippets_maker.time_end as i64 {
                self.hit_objects.push(object);
            }
            i += 1;
            proof {
                assert(self.hit_objects@ =~= old(self).hit_objects@ + beatmap.objects@.take(i as int).filter(pred));
            }
        }
        proof {
            assert(beatmap.objects@.take(n as int) =~= beatmap.objects@);
        }
        Ok(())
    }
    /// Records the tempo reference of the timeline that the window calls
    /// for. A timeline without any leaves the snippet as it was.
    pub fn collect_timing_points(&mut self, beatmap: &Document, snippets_maker: &SnippetsMaker) -> (done: Result<(), SnippetError>)
        ensures
            beatmap.tempo_references@.len() == 0 ==> done == Err::<(), SnippetError>(
                SnippetError::NoTempoReference,
            ) && *final(self) == *old(self),
            beatmap.tempo_references@.len() > 0 ==> done is Ok && exists|i: int|
                is_tempo_choice(beatmap.tempo_references@, *snippets_maker, i)
                    && final(self).timing_points == beatmap.tempo_references@[i],
            final(self).hit_objects == old(self).hit_objects,
            final(self).same_labels(*old(self)),
            final(self).keycount == old(self).keycount,
    {
        let n = beatmap.tempo_references.len();
        if n == 0 {
            return Err(SnippetError::NoTempoReference);
        }
        let ghost refs = beatmap.tempo_references@;
        let ghost maker = *snippets_maker;
        let mut closest: usize = 0;
        let mut min_distance: i128 = abs_distance(&beatmap.tempo_references[0], snippets_maker);
        let mut i: usize = 0;
        while i < n
            invariant
                i <= n,
                n == refs.len(),
                n > 0,
                refs == beatmap.tempo_references@,
                maker == *snippets_maker,
                *self == *old(self),
                closest < n,
                i > 0 ==> closest < i,
                i == 0 ==> closest == 0,
                min_distance == distance(refs[closest as int], maker),
                forall|j: int| 0 <= j < i ==> !tempo_in_window(#[trigger] refs[j], maker),
                forall|j: int|
                    0 <= j < closest ==> distance(#[trigger] refs[j], maker) > min_distance,
                forall|j: int|
                    closest <= j < i ==> distance(#[trigger] refs[j], maker) >= min_distance,
            decreases n - i,
        {
            let reference = beatmap.tempo_references[i];
            if reference.time >= snippets_maker.time_start as i64 && reference.time
                <= snippets_maker.time_end as i64 {
                self.timing_points = reference;
                proof {
                    assert(tempo_in_window(refs[i as int], maker));
                    assert(is_tempo_choice(refs, maker, i as int));
                }
                return Ok(());
            }
            let d = abs_distance(&reference, snippets_maker);
            if d < min_distance {
                min_distance = d;
                closest = i;
            }
            i += 1;
        }
        self.timing_points = beatmap.tempo_references[closest];
        proof {
            assert(is_tempo_choice(refs, maker, closest as int));
        }
        Ok(())
    }

    /// Captures the window from the timeline: appends the objects that start
    /// inside it, each counted from the window's start, and takes over the
    /// timeline's tempo for the window and its lane count. A timeline
    /// without a tempo reference is refused and changes nothing.
    pub fn load_snippets_from_beatmap(&mut self, beatmap: &Document, snippets_maker: &SnippetsMaker) -> (done: Result<(), SnippetError>)
        ensures
            beatmap.tempo_references@.len() == 0 ==> done == Err::<(), SnippetError>(
                SnippetError::NoTempoReference,
            ) && *final(self) == *old(self),
            beatmap.tempo_references@.len() > 0 ==> {
                &&& done is Ok
                &&& final(self).hit_objects@ == old(self).hit_objects@ + extracted(
                    beatmap.objects@,
                    *snippets_maker,
                )
                &&& exists|i: int|
                    is_tempo_choice(beatmap.tempo_references@, *snippets_maker, i)
                        && final(self).timing_points == beatmap.tempo_references@[i]
                &&& final(self).keycount == beatmap.lane_count
            },
            final(self).same_labels(*old(self)),
    {
        if beatmap.tempo_references.len() == 0 {
            return Err(SnippetError::NoTempoReference);
        }
        let kept = self.hit_objects.len();
        let _ = self.collect_hit_objects(beatmap, snippets_maker);
        let _ = self.collect_timing_points(beatmap, snippets_maker);
        self.keycount = beatmap.lane_count;
        let ghost chosen = selected(beatmap.objects@, *snippets_maker);
        let ghost taken = extracted(beatmap.objects@, *snippets_maker);
        let ghost tempo = self.timing_points;
        proof {
            let pred = |o: TimedObject| in_window(o, *snippets_maker);
            assert forall|j: int| 0 <= j < chosen.len() implies in_window(
                #[trigger] chosen[j],
                *snippets_maker,
            ) by {
                beatmap.objects@.lemma_filter_pred(pred, j);
            }
        }
        let n = self.hit_objects.len();
        let mut i: usize = kept;
        while i < n
            invariant
                kept <= i <= n,
                kept == old(self).hit_objects@.len(),
                n == kept + chosen.len(),
                self.hit_objects@.len() == n,
                chosen == selected(beatmap.objects@, *snippets_maker),
                taken == extracted(beatmap.objects@, *snippets_maker),
                forall|j: int| 0 <= j < chosen.len() ==> in_window(#[trigger] chosen[j], *snippets_maker),
                forall|j: int| 0 <= j < kept ==> self.hit_objects@[j] == old(self).hit_objects@[j],
                forall|j: int| kept <= j < i ==> self.hit_objects@[j] == taken[j - kept],
                forall|j: int| i <= j < n ==> self.hit_objects@[j] == chosen[j - kept],
                self.same_labels(*old(self)),
                self.timing_points == tempo,
                self.keycount == beatmap.lane_count,
            decreases n - i,
        {
            let object = self.hit_objects[i];
            assert(object == chosen[i - kept]);
            let moved = TimedObject {
                start_time: object.start_time - snippets_maker.time_start as i64,
                kind: object.kind,
            };
            self.hit_objects.set(i, moved);
            i += 1;
        }
        proof {
            assert(self.hit_objects@ =~= old(self).hit_objects@ + taken);
        }
        Ok(())
    }
}

/// How far the reference lies from the start of the window.
fn abs_distance(reference: &TempoReference, maker: &SnippetsMaker) -> (d: i128)
    ensures
        d == distance(*reference, *maker),
{
    let time = reference.time as i128;
    let start = maker.time_start as i128;
    if time >= start {
        time - start
    } else {
        start - time
    }
}

/// Every extracted object is counted from the window's start: its time is
/// at least 0 and at most the window's length, and it is an object of the
/// timeline that started inside the window, moved by the window's start.
pub proof fn lemma_extracted_times(objects: Seq<TimedObject>, maker: SnippetsMaker, i: int)
    requires
        0 <= i < extracted(objects, maker).len(),
    ensures
        0 <= extracted(objects, maker)[i].start_time <= maker.time_end - maker.time_start,
        extracted(objects, maker).len() == selected(objects, maker).len(),
        in_window(selected(objects, maker)[i], maker),
        objects.contains(selected(objects, maker)[i]),
        extracted(objects, maker)[i].start_time == selected(objects, maker)[i].start_time
            - maker.time_start,
        extracted(objects, maker)[i].kind == selected(objects, maker)[i].kind,
{
    let pred = |o: TimedObject| in_window(o, maker);
    objects.lemma_filter_pred(pred, i);
    objects.lemma_filter_contains_rev(pred, selected(objects, maker)[i]);
}

/// Where an object of the timeline starts exactly at the window's start,
/// the smallest time among the extracted objects is 0: one of them has
/// time 0 and none has less.
pub proof fn lemma_extracted_minimum(objects: Seq<TimedObject>, maker: SnippetsMaker)
    requires
        maker.time_start <= maker.time_end,
        exists|k: int| 0 <= k < objects.len() && (#[trigger] objects[k]).start_time == maker.time_start,
    ensures
        exists|i: int|
            0 <= i < extracted(objects, maker).len() && (#[trigger] extracted(
                objects,
                maker,
            )[i]).start_time == 0,
        forall|i: int|
            0 <= i < extracted(objects, maker).len() ==> (#[trigger] extracted(
                objects,
                maker,
            )[i]).start_time >= 0,
{
    let pred = |o: TimedObject| in_window(o, maker);
    let k = choose|k: int| 0 <= k < objects.len() && (#[trigger] objects[k]).start_time == maker.time_start;
    assert(pred(objects[k]));
    objects.lemma_filter_contains(pred, k);
    let chosen = selected(objects, maker);
    let i = choose|i: int| 0 <= i < chosen.len() && chosen[i] == objects[k];
    assert(extracted(objects, maker)[i].start_time == 0);
    assert forall|j: int| 0 <= j < extracted(objects, maker).len() implies (#[trigger] extracted(
        objects,
        maker,
    )[j]).start_time >= 0 by {
        lemma_extracted_times(objects, maker, j);
    }
}

/// A window whose end lies before its start takes nothing out of a
/// timeline.
pub proof fn lemma_inverted_window_extracts_nothing(objects: Seq<TimedObject>, maker: SnippetsMaker)
    requires
        maker.time_end < maker.time_start,
    ensures
        extracted(objects, maker).len() == 0,
{
    if extracted(objects, maker).len() > 0 {
        lemma_extracted_times(objects, maker, 0);
    }
}

/// The window leaves no choice of tempo reference: two references that
/// both meet `is_tempo_choice` are one.
pub proof fn lemma_tempo_choice_unique(refs: Seq<TempoReference>, maker: SnippetsMaker, i: int, j: int)
    requires
        is_tempo_choice(refs, maker, i),
        is_tempo_choice(refs, maker, j),
    ensures
        i == j,
{
    let (a, b) = if i < j {
        (i, j)
    } else {
        (j, i)
    };
    if a < b {
        if exists|k: int| 0 <= k < refs.len() && tempo_in_window(#[trigger] refs[k], maker) {
            // the later choice has no reference inside the window before it
            assert(tempo_in_window(refs[a], maker));
            assert(!tempo_in_window(refs[a], maker));
        } else {
            // the later choice is strictly closer than all before it
            assert(distance(refs[a], maker) > distance(refs[b], maker));
            assert(distance(refs[b], maker) >= distance(refs[a], maker));
        }
    }
}

} // verus!
