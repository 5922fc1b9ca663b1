use vstd::prelude::*;
use crate::arith::{floor_div, floor_div_i128, lemma_floor_div_bounds};
use crate::error::SnippetError;
use crate::lanes::{column_centre, column_of, is_lane_permutation, lane_permutation, moved_kind};
use crate::merge::{is_stable_sort_of, sort_by_time, sorted_by_time};
use crate::objects::{any_in_lane, has_lane_object, Document, ObjectKind, TempoReference, TimedObject};
use crate::snippets::Snippets;

verus! {

/// The beat length taken for a timeline without any tempo reference, in
/// microseconds: 100 beats a minute.
pub const FALLBACK_BEAT_LEN_US: i64 = 600_000;

/// The beat length that an insertion rescales to: that of the timeline's
/// last tempo reference.
pub open spec fn target_beat_len(refs: Seq<TempoReference>) -> int {
    if refs.len() > 0 {
        refs.last().beat_len_us as int
    } else {
        FALLBACK_BEAT_LEN_US as int
    }
}

/// The time of an object once stretched from the snippet's beat to the
/// target's and moved to the anchor, rounded down to a whole millisecond.
pub open spec fn rescaled_time(time: int, target_beat: int, snippet_beat: int, anchor: int) -> int
    recommends
        snippet_beat > 0,
{
    floor_div(time * target_beat, snippet_beat) + anchor
}

/// Whether every rescaled time can be held by a start time.
pub open spec fn placement_fits(
    objects: Seq<TimedObject>,
    target_beat: int,
    snippet_beat: int,
    anchor: int,
) -> bool {
    forall|i: int|
        0 <= i < objects.len() ==> i64::MIN <= rescaled_time(
            (#[trigger] objects[i]).start_time as int,
            target_beat,
            snippet_beat,
            anchor,
        ) <= i64::MAX
}

/// The object as an insertion places it: rescaled and anchored, and, where
/// there is a lane mapping, moved to the middle of its new lane.
pub open spec fn placed(
    object: TimedObject,
    target_beat: int,
    snippet_beat: int,
    anchor: int,
    mapping: Option<Seq<usize>>,
) -> TimedObject {
    TimedObject {
        start_time: rescaled_time(object.start_time as int, target_beat, snippet_beat, anchor) as i64,
        kind: match mapping {
            Some(lanes) => moved_kind(object.kind, lanes),
            None => object.kind,
        },
    }
}

/// The objects of a snippet as an insertion places them, in the snippet's
/// order. One mapping serves them all.
pub open spec fn placed_all(
    objects: Seq<TimedObject>,
    target_beat: int,
    snippet_beat: int,
    anchor: int,
    mapping: Option<Seq<usize>>,
) -> Seq<TimedObject> {
    objects.map_values(|o: TimedObject| placed(o, target_beat, snippet_beat, anchor, mapping))
}

/// Whether the mapping, if there is one, can move the objects: each lane it
/// names is one of its own, and it has a lane wherever one of the objects
/// lies in a lane.
pub open spec fn mapping_serves(mapping: Option<&Vec<usize>>, objects: Seq<TimedObject>) -> bool {
    mapping matches Some(lanes) ==> {
        &&& forall|i: int| 0 <= i < lanes@.len() ==> #[trigger] lanes@[i] < lanes@.len()
        &&& any_in_lane(objects) ==> lanes@.len() > 0
    }
}

/// The view of an optional lane mapping.
pub open spec fn mapping_view(mapping: Option<&Vec<usize>>) -> Option<Seq<usize>> {
    match mapping {
        Some(lanes) => Some(lanes@),
        None => None,
    }
}

/// Whether the target's title, tags, lane count and tempo references are
/// those of `before`.
pub open spec fn same_frame(after: Document, before: Document) -> bool {
    &&& after.title == before.title
    &&& after.tags == before.tags
    &&& after.lane_count == before.lane_count
    &&& after.tempo_references == before.tempo_references
}

/// The beat length that an insertion into `beatmap` rescales to.
pub fn beat_len_of_target(beatmap: &Document) -> (beat: i64)
    ensures
        beat == target_beat_len(beatmap.tempo_references@),
{
    let n = beatmap.tempo_references.len();
    if n > 0 {
        beatmap.tempo_references[n - 1].beat_len_us
    } else {
        FALLBACK_BEAT_LEN_US
    }
}

/// The rescaled and anchored time.
pub fn rescale_wide(time: i64, target_beat: i64, snippet_beat: i64, anchor: i32) -> (moved: i128)
    requires
        snippet_beat > 0,
    ensures
        moved == rescaled_time(time as int, target_beat as int, snippet_beat as int, anchor as int),
{
    assert(-0x4000_0000_0000_0000_0000_0000_0000_0000 <= time * target_beat
        <= 0x4000_0000_0000_0000_0000_0000_0000_0000) by (nonlinear_arith)
        requires
            -0x8000_0000_0000_0000 <= time <= 0x8000_0000_0000_0000,
            -0x8000_0000_0000_0000 <= target_beat <= 0x8000_0000_0000_0000,
    ;
    let product: i128 = (time as i128) * (target_beat as i128);
    let scaled: i128 = floor_div_i128(product, snippet_beat as i128);
    proof {
        // the quotient by a positive beat length is no larger than the product
        lemma_floor_div_bounds(product as int, snippet_beat as int);
        assert(-0x4000_0000_0000_0000_0000_0000_0000_0000 <= scaled
            <= 0x4000_0000_0000_0000_0000_0000_0000_0000) by (nonlinear_arith)
            requires
                scaled * snippet_beat <= product < scaled * snippet_beat + snippet_beat,
                snippet_beat > 0,
                -0x4000_0000_0000_0000_0000_0000_0000_0000 <= product
                    <= 0x4000_0000_0000_0000_0000_0000_0000_0000,
        ;
    }
    scaled + anchor as i128
}

/// The rescaled and anchored time, or `None` where a start time cannot
/// hold it.
pub fn rescale(time: i64, target_beat: i64, snippet_beat: i64, anchor: i32) -> (moved: Option<i64>)
    requires
        snippet_beat > 0,
    ensures
        match moved {
            Some(t) => t == rescaled_time(time as int, target_beat as int, snippet_beat as int, anchor as int),
            None => {
                let t = rescaled_time(time as int, target_beat as int, snippet_beat as int, anchor as int);
                t < i64::MIN || t > i64::MAX
            },
        },
{
    let moved = rescale_wide(time, target_beat, snippet_beat, anchor);
    if moved < i64::MIN as i128 || moved > i64::MAX as i128 {
        None
    } else {
        Some(moved as i64)
    }
}

/// The kind as an insertion leaves it: moved through the mapping where
/// there is one.
pub fn move_kind(kind: ObjectKind, mapping: Option<&Vec<usize>>) -> (moved: ObjectKind)
    requires
        mapping matches Some(lanes) ==> {
            &&& forall|i: int| 0 <= i < lanes@.len() ==> #[trigger] lanes@[i] < lanes@.len()
            &&& kind.x() is Some ==> lanes@.len() > 0
        },
    ensures
        moved == match mapping {
            Some(lanes) => moved_kind(kind, lanes@),
            None => kind,
        },
{
    match mapping {
        None => kind,
        Some(lanes) => {
            let keycount = lanes.len();
            match kind {
                ObjectKind::Tap { x } => {
                    let column = column_of(x, keycount);
                    ObjectKind::Tap { x: column_centre(lanes[column], keycount) }
                },
                ObjectKind::Hold { x, duration } => {
                    let column = column_of(x, keycount);
                    ObjectKind::Hold { x: column_centre(lanes[column], keycount), duration }
                },
                ObjectKind::Other { handle } => ObjectKind::Other { handle },
            }
        },
    }
}

impl Snippets {
    /// Whether the snippet's beat length can be rescaled against.
    pub open spec fn has_valid_tempo(self) -> bool {
        self.timing_points.beat_len_us > 0
    }

    /// Whether every object of the snippet, placed at `anchor` in a
    /// timeline of beat length `target_beat`, gets a time that a start time
    /// can hold.
    pub open spec fn fits_at(self, target_beat: int, anchor: int) -> bool {
        placement_fits(
            self.hit_objects@,
            target_beat,
            self.timing_points.beat_len_us as int,
            anchor,
        )
    }

    /// Whether a shuffle has nothing to move an object to: the snippet asks
    /// for one, holds an object that lies in a lane, and has no lane.
    pub open spec fn lacks_lanes(self) -> bool {
        self.should_shuffle && any_in_lane(self.hit_objects@) && self.keycount == 0
    }

    /// Whether the snippet can be placed at `anchor` in a timeline of beat
    /// length `target_beat`. A snippet without a valid tempo always can: it
    /// is refused before anything is placed. Any other can where every
    /// placed time can be held and a shuffle does not lack lanes.
    pub open spec fn can_be_placed(self, target_beat: int, anchor: int) -> bool {
        self.has_valid_tempo() ==> {
            &&& self.fits_at(target_beat, anchor)
            &&& !self.lacks_lanes()
        }
    }

    /// Whether `after` is the target `before` with the snippet placed at
    /// `anchor`: its objects are those of `before` and the placed objects
    /// of the snippet, in the order of their start times, objects that
    /// start together keeping their order, those of `before` first. Where
    /// the snippet asks for a shuffle, and only there, one permutation of
    /// its lanes has moved all its objects.
    pub open spec fn is_placed_in(self, after: Document, before: Document, anchor: int) -> bool {
        exists|mapping: Option<Seq<usize>>|
            {
                &&& mapping is Some <==> self.should_shuffle
                &&& mapping matches Some(lanes) ==> is_lane_permutation(lanes, self.keycount as int)
                &&& is_stable_sort_of(
                    after.objects@,
                    before.objects@ + #[trigger] placed_all(
                        self.hit_objects@,
                        target_beat_len(before.tempo_references@),
                        self.timing_points.beat_len_us as int,
                        anchor,
                        mapping,
                    ),
                )
            }
    }

    /// Whether `insert_snippets_to_beatmap` may be called with this target
    /// and anchor.
    pub fn can_insert(&self, beatmap: &Document, placement_time: i32) -> (ok: bool)
        ensures
            ok == self.can_be_placed(
                target_beat_len(beatmap.tempo_references@),
                placement_time as int,
            ),
    {
        let snippet_beat = self.timing_points.beat_len_us;
        if snippet_beat <= 0 {
            return true;
        }
        if self.should_shuffle && self.keycount == 0 && has_lane_object(&self.hit_objects) {
            return false;
        }
        let target_beat = beat_len_of_target(beatmap);
        let n = self.hit_objects.len();
        let mut i: usize = 0;
        while i < n
            invariant
                i <= n,
                n == self.hit_objects@.len(),
                snippet_beat == self.timing_points.beat_len_us,
                snippet_beat > 0,
                target_beat == target_beat_len(beatmap.tempo_references@),
                placement_fits(
                    self.hit_objects@.take(i as int),
                    target_beat as int,
                    snippet_beat as int,
                    placement_time as int,
                ),
            decreases n - i,
        {
            match rescale(self.hit_objects[i].start_time, target_beat, snippet_beat, placement_time) {
                Some(_) => {},
                None => {
                    proof {
                        let object = self.hit_objects@[i as int];
                        let t = rescaled_time(
                            object.start_time as int,
                            target_beat as int,
                            snippet_beat as int,
                            placement_time as int,
                        );
                        assert(t < i64::MIN || t > i64::MAX);
                    }
                    return false;
                },
            }
            i += 1;
            proof {
                let now = self.hit_objects@.take(i as int);
                assert forall|j: int| 0 <= j < now.len() implies i64::MIN <= rescaled_time(
                    (#[trigger] now[j]).start_time as int,
                    target_beat as int,
                    snippet_beat as int,
                    placement_time as int,
                ) <= i64::MAX by {
                    if j < i - 1 {
                        assert(now[j] == self.hit_objects@.take(i - 1)[j]);
                    }
                }
            }
        }
        proof {
            assert(self.hit_objects@.take(n as int) =~= self.hit_objects@);
        }
        true
    }

    /// The snippet's objects as an insertion places them; the snippet
    /// itself stays as it is.
    pub fn placed_objects(&self, target_beat: i64, placement_time: i32, mapping: Option<&Vec<usize>>) -> (moved: Vec<TimedObject>)
        requires
            self.has_valid_tempo(),
            self.fits_at(target_beat as int, placement_time as int),
            mapping_serves(mapping, self.hit_objects@),
        ensures
            moved@ == placed_all(
                self.hit_objects@,
                target_beat as int,
                self.timing_points.beat_len_us as int,
                placement_time as int,
                mapping_view(mapping),
            ),
    {
        let snippet_beat = self.timing_points.beat_len_us;
        let ghost all = placed_all(
            self.hit_objects@,
            target_beat as int,
            snippet_beat as int,
            placement_time as int,
            mapping_view(mapping),
        );
        let n = self.hit_objects.len();
        let mut moved: Vec<TimedObject> = Vec::new();
        let mut i: usize = 0;
        while i < n
            invariant
                i <= n,
                n == self.hit_objects@.len(),
                snippet_beat == self.timing_points.beat_len_us,
                snippet_beat > 0,
                self.fits_at(target_beat as int, placement_time as int),
                mapping_serves(mapping, self.hit_objects@),
                all == placed_all(
                    self.hit_objects@,
                    target_beat as int,
                    snippet_beat as int,
                    placement_time as int,
                    mapping_view(mapping),
                ),
                moved@.len() == i,
                forall|j: int| 0 <= j < i ==> moved@[j] == all[j],
            decreases n - i,
        {
            let object = self.hit_objects[i];
            assert(object == self.hit_objects@[i as int]);
            let start_time = rescale_wide(object.start_time, target_beat, snippet_beat, placement_time) as i64;
            proof {
                if object.kind.x() is Some {
                    assert(self.hit_objects@[i as int].kind.x() is Some);
                }
            }
            let kind = move_kind(object.kind, mapping);
            moved.push(TimedObject { start_time, kind });
            i += 1;
        }
        proof {
            assert(moved@ =~= all);
        }
        moved
    }

    /// Places the snippet at `placement_time` in the target and puts the
    /// target's objects back in the order of their start times, with
    /// `mapping` as the lane mapping, if there is one. A snippet whose beat
    /// length is not positive is refused, and the target stays as it was.
    pub fn insert_with_mapping(
        &self,
        beatmap: &mut Document,
        placement_time: i32,
        mapping: Option<&Vec<usize>>,
    ) -> (done: Result<(), SnippetError>)
        requires
            self.has_valid_tempo() ==> self.fits_at(
                target_beat_len(old(beatmap).tempo_references@),
                placement_time as int,
            ),
            self.has_valid_tempo() ==> mapping_serves(mapping, self.hit_objects@),
        ensures
            !self.has_valid_tempo() ==> done == Err::<(), SnippetError>(SnippetError::InvalidTempo)
                && *final(beatmap) == *old(beatmap),
            self.has_valid_tempo() ==> done is Ok && is_stable_sort_of(
                final(beatmap).objects@,
                old(beatmap).objects@ + placed_all(
                    self.hit_objects@,
                    target_beat_len(old(beatmap).tempo_references@),
                    self.timing_points.beat_len_us as int,
                    placement_time as int,
                    mapping_view(mapping),
                ),
            ),
            same_frame(*final(beatmap), *old(beatmap)),
    {
        if self.timing_points.beat_len_us <= 0 {
            return Err(SnippetError::InvalidTempo);
        }
        let target_beat = beat_len_of_target(beatmap);
        let moved = self.placed_objects(target_beat, placement_time, mapping);
        let n = moved.len();
        let ghost kept = beatmap.objects@;
        let mut i: usize = 0;
        while i < n
            invariant
                i <= n,
                n == moved@.len(),
                kept == old(beatmap).objects@,
                beatmap.objects@ == kept + moved@.take(i as int),
                same_frame(*beatmap, *old(beatmap)),
            decreases n - i,
        {
            beatmap.objects.push(moved[i]);
            i += 1;
            proof {
                assert(beatmap.objects@ =~= kept + moved@.take(i as int));
            }
        }
        proof {
            assert(moved@.take(n as int) =~= moved@);
        }
        sort_by_time(&mut beatmap.objects);
        Ok(())
    }

    /// Places the snippet at `placement_time` in the target and puts the
    /// target's objects back in the order of their start times. A snippet
    /// whose beat length is not positive is refused first, and the target
    /// stays as it was. Where the snippet asks for a shuffle, one
    /// permutation of the lanes is drawn for the whole call and every object
    /// goes to the middle of the lane it names.
    pub fn insert_snippets_to_beatmap(&self, beatmap: &mut Document, placement_time: i32) -> (done: Result<(), SnippetError>)
        requires
            self.has_valid_tempo() ==> self.fits_at(
                target_beat_len(old(beatmap).tempo_references@),
                placement_time as int,
            ),
            self.has_valid_tempo() ==> !self.lacks_lanes(),
        ensures
            !self.has_valid_tempo() ==> done == Err::<(), SnippetError>(SnippetError::InvalidTempo)
                && *final(beatmap) == *old(beatmap),
            self.has_valid_tempo() ==> done is Ok && self.is_placed_in(
                *final(beatmap),
                *old(beatmap),
                placement_time as int,
            ),
            same_frame(*final(beatmap), *old(beatmap)),
    {
        if self.timing_points.beat_len_us <= 0 {
            return Err(SnippetError::InvalidTempo);
        }
        if self.should_shuffle {
            let lanes = lane_permutation(self.keycount);
            let done = self.insert_with_mapping(beatmap, placement_time, Some(&lanes));
            proof {
                let mapping = Some(lanes@);
                assert(mapping == mapping_view(Some(&lanes)));
            }
            done
        } else {
            let done = self.insert_with_mapping(beatmap, placement_time, None);
            proof {
                let mapping = None::<Seq<usize>>;
                assert(mapping == mapping_view(None));
            }
            done
        }
    }

    /// Places the snippet as `insert_snippets_to_beatmap` does, wherever it
    /// can be placed, and says `None` and leaves the target as it was
    /// wherever it cannot: where a placed time could not be held, or a
    /// shuffle is asked for and there is no lane.
    pub fn try_insert_snippets_to_beatmap(&self, beatmap: &mut Document, placement_time: i32) -> (done: Option<Result<(), SnippetError>>)
        ensures
            done is Some <==> self.can_be_placed(
                target_beat_len(old(beatmap).tempo_references@),
                placement_time as int,
            ),
            done == Some(Err::<(), SnippetError>(SnippetError::InvalidTempo))
                <==> !self.has_valid_tempo(),
            done matches Some(Err(_)) ==> done == Some(
                Err::<(), SnippetError>(SnippetError::InvalidTempo),
            ),
            done matches Some(Ok(_)) ==> self.is_placed_in(
                *final(beatmap),
                *old(beatmap),
                placement_time as int,
            ) && sorted_by_time(final(beatmap).objects@),
            !(done matches Some(Ok(_))) ==> *final(beatmap) == *old(beatmap),
            same_frame(*final(beatmap), *old(beatmap)),
    {
        if self.can_insert(beatmap, placement_time) {
            Some(self.insert_snippets_to_beatmap(beatmap, placement_time))
        } else {
            None
        }
    }
}

/// Whether `placed` lies where `mapping` sends `object`: in the lane that
/// the mapping names for the object's lane, or, for an object without a
/// lane, nowhere, as before.
pub open spec fn follows_mapping(object: TimedObject, placed: TimedObject, mapping: Seq<usize>) -> bool {
    match object.kind.x() {
        Some(x) => placed.kind.x() matches Some(moved) && crate::lanes::lane_of(
            moved as int,
            mapping.len() as int,
        ) == mapping[crate::lanes::lane_of(x as int, mapping.len() as int)],
        None => placed.kind == object.kind,
    }
}

/// A mapping of at most half as many lanes as the playfield is wide moves
/// every placed object of a snippet to the lane that it names for the lane
/// the object lay in; an object without a lane is placed without one.
pub proof fn lemma_placed_lanes_follow_mapping(
    objects: Seq<TimedObject>,
    target_beat: int,
    snippet_beat: int,
    anchor: int,
    mapping: Seq<usize>,
    i: int,
)
    requires
        0 < mapping.len() <= crate::objects::PLAYFIELD_WIDTH / 2,
        forall|k: int| 0 <= k < mapping.len() ==> #[trigger] mapping[k] < mapping.len(),
        0 <= i < objects.len(),
    ensures
        placed_all(objects, target_beat, snippet_beat, anchor, Some(mapping)).len()
            == objects.len(),
        follows_mapping(
            objects[i],
            placed_all(objects, target_beat, snippet_beat, anchor, Some(mapping))[i],
            mapping,
        ),
{
    crate::lanes::lemma_moved_to_mapped_lane(objects[i].kind, mapping);
}

/// After an insertion the target's list is in the order of its start
/// times, pair by pair, and holds one object more for each object of the
/// snippet.
pub proof fn lemma_placed_target_is_sorted(
    snippet: Snippets,
    after: Document,
    before: Document,
    anchor: int,
)
    requires
        snippet.is_placed_in(after, before, anchor),
    ensures
        sorted_by_time(after.objects@),
        forall|i: int|
            0 <= i && i + 1 < after.objects@.len() ==> (#[trigger] after.objects@[i]).start_time
                <= after.objects@[i + 1].start_time,
        after.objects@.len() == before.objects@.len() + snippet.hit_objects@.len(),
        forall|i: int|
            0 <= i < before.objects@.len() ==> after.objects@.contains(
                #[trigger] before.objects@[i],
            ),
{
    broadcast use vstd::seq_lib::to_multiset_len, vstd::seq_lib::to_multiset_contains;

    let mapping = choose|mapping: Option<Seq<usize>>|
        {
            &&& mapping is Some <==> snippet.should_shuffle
            &&& mapping matches Some(lanes) ==> is_lane_permutation(lanes, snippet.keycount as int)
            &&& is_stable_sort_of(
                after.objects@,
                before.objects@ + #[trigger] placed_all(
                    snippet.hit_objects@,
                    target_beat_len(before.tempo_references@),
                    snippet.timing_points.beat_len_us as int,
                    anchor,
                    mapping,
                ),
            )
        };
    let placed = placed_all(
        snippet.hit_objects@,
        target_beat_len(before.tempo_references@),
        snippet.timing_points.beat_len_us as int,
        anchor,
        mapping,
    );
    let all = before.objects@ + placed;
    assert(after.objects@.to_multiset().len() == after.objects@.len());
    assert(all.to_multiset().len() == all.len());
    assert forall|i: int| 0 <= i < before.objects@.len() implies after.objects@.contains(
        #[trigger] before.objects@[i],
    ) by {
        assert(all[i] == before.objects@[i]);
        assert(all.contains(before.objects@[i]));
        assert(all.to_multiset().count(before.objects@[i]) > 0);
    }
}

/// A shuffled insertion follows one bijection of the lanes: with at most
/// half as many lanes as the playfield is wide, there is one permutation of
/// the snippet's lanes such that the target holds the snippet's objects
/// placed through it, each tap and hold in the lane that the permutation
/// names for the lane it came from.
pub proof fn lemma_shuffle_is_one_bijection(
    snippet: Snippets,
    after: Document,
    before: Document,
    anchor: int,
)
    requires
        snippet.should_shuffle,
        0 < snippet.keycount <= crate::objects::PLAYFIELD_WIDTH / 2,
        snippet.is_placed_in(after, before, anchor),
    ensures
        exists|lanes: Seq<usize>|
            {
                &&& is_lane_permutation(lanes, snippet.keycount as int)
                &&& is_stable_sort_of(
                    after.objects@,
                    before.objects@ + #[trigger] placed_all(
                        snippet.hit_objects@,
                        target_beat_len(before.tempo_references@),
                        snippet.timing_points.beat_len_us as int,
                        anchor,
                        Some(lanes),
                    ),
                )
                &&& forall|i: int|
                    0 <= i < snippet.hit_objects@.len() ==> follows_mapping(
                        #[trigger] snippet.hit_objects@[i],
                        placed(
                            snippet.hit_objects@[i],
                            target_beat_len(before.tempo_references@),
                            snippet.timing_points.beat_len_us as int,
                            anchor,
                            Some(lanes),
                        ),
                        lanes,
                    )
            },
{
    let mapping = choose|mapping: Option<Seq<usize>>|
        {
            &&& mapping is Some <==> snippet.should_shuffle
            &&& mapping matches Some(lanes) ==> is_lane_permutation(lanes, snippet.keycount as int)
            &&& is_stable_sort_of(
                after.objects@,
                before.objects@ + #[trigger] placed_all(
                    snippet.hit_objects@,
                    target_beat_len(before.tempo_references@),
                    snippet.timing_points.beat_len_us as int,
                    anchor,
                    mapping,
                ),
            )
        };
    let lanes = mapping->0;
    assert(mapping == Some(lanes));
    assert forall|i: int| 0 <= i < snippet.hit_objects@.len() implies follows_mapping(
        #[trigger] snippet.hit_objects@[i],
        placed(
            snippet.hit_objects@[i],
            target_beat_len(before.tempo_references@),
            snippet.timing_points.beat_len_us as int,
            anchor,
            Some(lanes),
        ),
        lanes,
    ) by {
        crate::lanes::lemma_moved_to_mapped_lane(snippet.hit_objects@[i].kind, lanes);
    }
}

/// Between equal beat lengths nothing is stretched: the time is moved by
/// the anchor and no more.
pub proof fn lemma_equal_beats_only_shift(time: int, beat: int, anchor: int)
    requires
        beat > 0,
    ensures
        rescaled_time(time, beat, beat, anchor) == time + anchor,
{
    crate::arith::lemma_floor_div_unique(time * beat, beat, time);
}

/// Rescaling to a beat length that is not negative keeps the order of
/// times.
pub proof fn lemma_rescaling_keeps_order(
    earlier: int,
    later: int,
    target_beat: int,
    snippet_beat: int,
    anchor: int,
)
    requires
        earlier <= later,
        target_beat >= 0,
        snippet_beat > 0,
    ensures
        rescaled_time(earlier, target_beat, snippet_beat, anchor) <= rescaled_time(
            later,
            target_beat,
            snippet_beat,
            anchor,
        ),
{
    assert(earlier * target_beat <= later * target_beat) by (nonlinear_arith)
        requires
            earlier <= later,
            target_beat >= 0,
    ;
    vstd::arithmetic::div_mod::lemma_div_is_ordered(
        earlier * target_beat,
        later * target_beat,
        snippet_beat,
    );
}

/// An insertion keeps what an object is: a placed hold lasts as long as it
/// did, and an object without a lane stays as it is but for its time.
pub proof fn lemma_placed_keeps_shape(
    object: TimedObject,
    target_beat: int,
    snippet_beat: int,
    anchor: int,
    mapping: Option<Seq<usize>>,
)
    ensures
        placed(object, target_beat, snippet_beat, anchor, mapping).kind.duration()
            == object.kind.duration(),
        placed(object, target_beat, snippet_beat, anchor, mapping).well_formed()
            == object.well_formed(),
        object.kind is Other ==> placed(object, target_beat, snippet_beat, anchor, mapping).kind
            is Other,
        mapping is None ==> placed(object, target_beat, snippet_beat, anchor, mapping).kind
            == object.kind,
{
}

} // verus!
