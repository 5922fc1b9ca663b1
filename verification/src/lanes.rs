use vstd::prelude::*;
use rand::seq::SliceRandom;
use crate::arith::{lemma_floor_div_bounds, lemma_floor_div_unique};
use crate::objects::{ObjectKind, PLAYFIELD_WIDTH};

verus! {

/// The lane that the coordinate `x` falls in, of `lanes` lanes of equal
/// width side by side. A coordinate left of the playfield counts as lane 0;
/// one right of it wraps round.
pub open spec fn lane_of(x: int, lanes: int) -> int
    recommends
        lanes > 0,
{
    if x <= 0 {
        0
    } else {
        ((x * lanes) / (PLAYFIELD_WIDTH as int)) % lanes
    }
}

/// The coordinate in the middle of `lane`.
pub open spec fn lane_centre(lane: int, lanes: int) -> int
    recommends
        0 <= lane < lanes,
{
    ((2 * lane + 1) * (PLAYFIELD_WIDTH as int / 2)) / lanes
}

/// Whether `mapping` sends the lanes `0 .. lanes` one to one onto
/// themselves: each lane is the destination of exactly one lane.
pub open spec fn is_lane_permutation(mapping: Seq<usize>, lanes: int) -> bool {
    &&& mapping.len() == lanes
    &&& forall|i: int| 0 <= i < mapping.len() ==> 0 <= #[trigger] mapping[i] < lanes
    &&& forall|i: int, j: int|
        0 <= i < j < mapping.len() ==> #[trigger] mapping[i] != #[trigger] mapping[j]
    &&& forall|lane: usize| 0 <= lane < lanes ==> #[trigger] mapping.contains(lane)
}

/// The lanes in their own order: the mapping that moves nothing.
pub open spec fn identity_lanes(lanes: nat) -> Seq<usize> {
    Seq::new(lanes, |i: int| i as usize)
}

/// The kind with its coordinate moved to the middle of the lane that
/// `mapping` names for its present lane. A kind without a lane stays as it
/// is.
pub open spec fn moved_kind(kind: ObjectKind, mapping: Seq<usize>) -> ObjectKind
    recommends
        mapping.len() > 0,
{
    match kind {
        ObjectKind::Tap { x } => ObjectKind::Tap {
            x: lane_centre(mapping[lane_of(x as int, mapping.len() as int)] as int, mapping.len() as int) as i32,
        },
        ObjectKind::Hold { x, duration } => ObjectKind::Hold {
            x: lane_centre(mapping[lane_of(x as int, mapping.len() as int)] as int, mapping.len() as int) as i32,
            duration,
        },
        ObjectKind::Other { handle } => ObjectKind::Other { handle },
    }
}

/// The lane of the coordinate `x`.
pub fn column_of(x: i32, keycount: usize) -> (lane: usize)
    requires
        keycount > 0,
    ensures
        lane == lane_of(x as int, keycount as int),
        lane < keycount,
{
    if x <= 0 {
        0
    } else {
        assert(x * keycount <= 0x8000_0000 * 0x1_0000_0000_0000_0000) by (nonlinear_arith)
            requires
                0 < x <= 0x8000_0000,
                0 < keycount <= 0x1_0000_0000_0000_0000,
        ;
        let scaled: u128 = (x as u128) * (keycount as u128);
        let lane: u128 = (scaled / PLAYFIELD_WIDTH as u128) % (keycount as u128);
        lane as usize
    }
}

/// The coordinate in the middle of the lane `column`.
pub fn column_centre(column: usize, keycount: usize) -> (x: i32)
    requires
        column < keycount,
    ensures
        x == lane_centre(column as int, keycount as int),
        0 <= x < PLAYFIELD_WIDTH,
{
    let doubled: u128 = 2 * (column as u128) + 1;
    let half: u128 = (PLAYFIELD_WIDTH / 2) as u128;
    let x: u128 = (doubled * half) / (keycount as u128);
    proof {
        lemma_lane_centre_in_lane(column as int, keycount as int);
    }
    x as i32
}

/// The middle of a lane lies on the playfield, inside the lane's own span.
pub proof fn lemma_lane_centre_in_lane(lane: int, lanes: int)
    requires
        0 <= lane < lanes,
    ensures
        0 <= lane_centre(lane, lanes) < PLAYFIELD_WIDTH,
        lane * PLAYFIELD_WIDTH + PLAYFIELD_WIDTH / 2 - lanes < lane_centre(lane, lanes) * lanes,
        lane_centre(lane, lanes) * lanes <= lane * PLAYFIELD_WIDTH + PLAYFIELD_WIDTH / 2,
{
    let a = (2 * lane + 1) * 256;
    let c = lane_centre(lane, lanes);
    lemma_floor_div_bounds(a, lanes);
    assert(c == a / lanes);
    assert(c * lanes <= a < c * lanes + lanes);
    assert(a < 512 * lanes);
    assert(c < 512) by (nonlinear_arith)
        requires
            c * lanes <= a,
            a < 512 * lanes,
            lanes > 0,
    ;
    assert(c >= 0) by (nonlinear_arith)
        requires
            a < c * lanes + lanes,
            a >= 0,
            lanes > 0,
    ;
}

/// With at most half as many lanes as the playfield is wide, the middle of
/// a lane falls in that lane.
pub proof fn lemma_centre_falls_in_its_lane(lane: int, lanes: int)
    requires
        0 <= lane < lanes <= PLAYFIELD_WIDTH / 2,
    ensures
        lane_of(lane_centre(lane, lanes), lanes) == lane,
{
    let c = lane_centre(lane, lanes);
    lemma_lane_centre_in_lane(lane, lanes);
    if c <= 0 {
        // the centre of a lane right of the first is positive
        assert(c * lanes <= 0) by (nonlinear_arith)
            requires
                c <= 0,
                lanes > 0,
        ;
        assert(lane == 0);
    } else {
        let scaled = c * lanes;
        assert(lane * 512 <= scaled < lane * 512 + 512);
        lemma_floor_div_unique(scaled, 512, lane);
        assert(scaled / 512 == lane);
        vstd::arithmetic::div_mod::lemma_small_mod(lane as nat, lanes as nat);
    }
}

/// Shuffles the lanes in place by `rand::seq::SliceRandom::shuffle`, with
/// the generator of the calling thread. The shuffle only swaps elements, so
/// the same lanes are there afterwards, each as often as before; nothing is
/// claimed of their order.
#[verifier::external_body]
fn shuffle_lanes(lanes: &mut Vec<usize>)
    ensures
        final(lanes)@.to_multiset() == old(lanes)@.to_multiset(),
{
    lanes.shuffle(&mut rand::thread_rng());
}

/// Whatever holds the same lanes as often as `identity_lanes` does is a
/// permutation of the lanes.
pub proof fn lemma_rearranged_identity_is_permutation(mapping: Seq<usize>, lanes: nat)
    requires
        lanes <= usize::MAX,
        mapping.to_multiset() == identity_lanes(lanes).to_multiset(),
    ensures
        is_lane_permutation(mapping, lanes as int),
{
    broadcast use vstd::seq_lib::to_multiset_len, vstd::seq_lib::to_multiset_contains;

    let id = identity_lanes(lanes);
    assert(mapping.len() == lanes) by {
        assert(mapping.to_multiset().len() == mapping.len());
        assert(id.to_multiset().len() == id.len());
    }
    assert(id.no_duplicates());
    id.lemma_multiset_has_no_duplicates();
    mapping.lemma_multiset_has_no_duplicates_conv();
    assert forall|i: int| 0 <= i < mapping.len() implies 0 <= #[trigger] mapping[i] < lanes by {
        assert(mapping.contains(mapping[i]));
        assert(mapping.to_multiset().count(mapping[i]) > 0);
        assert(id.contains(mapping[i]));
        let k = choose|k: int| 0 <= k < id.len() && id[k] == mapping[i];
        assert(id[k] == k);
    }
    assert forall|lane: usize| 0 <= lane < lanes implies #[trigger] mapping.contains(lane) by {
        assert(id[lane as int] == lane);
        assert(id.contains(lane));
        assert(id.to_multiset().count(lane) > 0);
    }
}

/// A random permutation of the lanes `0 .. keycount`: the lane each lane is
/// moved to. Every call draws anew.
pub fn lane_permutation(keycount: usize) -> (mapping: Vec<usize>)
    ensures
        is_lane_permutation(mapping@, keycount as int),
{
    let mut columns: Vec<usize> = Vec::new();
    let mut i: usize = 0;
    while i < keycount
        invariant
            i <= keycount,
            columns@ == identity_lanes(i as nat),
        decreases keycount - i,
    {
        columns.push(i);
        i += 1;
        proof {
            assert(columns@ =~= identity_lanes(i as nat));
        }
    }
    shuffle_lanes(&mut columns);
    proof {
        lemma_rearranged_identity_is_permutation(columns@, keycount as nat);
    }
    columns
}

/// Whether `mapping` is a permutation of the lanes `0 .. keycount`.
pub fn is_permutation(mapping: &Vec<usize>, keycount: usize) -> (ok: bool)
    ensures
        ok == is_lane_permutation(mapping@, keycount as int),
{
    if mapping.len() != keycount {
        return false;
    }
    let mut seen: Vec<bool> = Vec::new();
    let mut k: usize = 0;
    while k < keycount
        invariant
            k <= keycount,
            seen@.len() == k,
            forall|j: int| 0 <= j < k ==> !seen@[j],
        decreases keycount - k,
    {
        seen.push(false);
        k += 1;
    }
    let mut i: usize = 0;
    while i < keycount
        invariant
            i <= keycount,
            mapping@.len() == keycount,
            seen@.len() == keycount,
            forall|j: int| 0 <= j < i ==> 0 <= #[trigger] mapping@[j] < keycount,
            forall|a: int, b: int| 0 <= a < b < i ==> #[trigger] mapping@[a] != #[trigger] mapping@[b],
            forall|lane: int|
                0 <= lane < keycount ==> (#[trigger] seen@[lane] <==> exists|j: int|
                    0 <= j < i && #[trigger] mapping@[j] == lane),
        decreases keycount - i,
    {
        let lane = mapping[i];
        if lane >= keycount {
            return false;
        }
        if seen[lane] {
            proof {
                let j = choose|j: int| 0 <= j < i && mapping@[j] == lane;
                assert(mapping@[j] == mapping@[i as int]);
            }
            return false;
        }
        seen.set(lane, true);
        i += 1;
        proof {
            assert forall|l: int| 0 <= l < keycount implies (#[trigger] seen@[l] <==> exists|j: int|
                0 <= j < i && #[trigger] mapping@[j] == l) by {
                if l == lane {
                    assert(mapping@[i - 1] == l);
                } else {
                    if seen@[l] {
                        let j = choose|j: int| 0 <= j < i - 1 && mapping@[j] == l;
                        assert(0 <= j < i && mapping@[j] == l);
                    }
                }
            }
        }
    }
    proof {
        lemma_injective_fills(mapping@, keycount as int);
    }
    true
}

/// A mapping of `lanes` lanes into themselves that sends no two lanes to
/// the same lane reaches every lane.
pub proof fn lemma_injective_fills(mapping: Seq<usize>, lanes: int)
    requires
        mapping.len() == lanes <= usize::MAX,
        forall|i: int| 0 <= i < mapping.len() ==> 0 <= #[trigger] mapping[i] < lanes,
        forall|i: int, j: int|
            0 <= i < j < mapping.len() ==> #[trigger] mapping[i] != #[trigger] mapping[j],
    ensures
        is_lane_permutation(mapping, lanes),
{
    let targets = mapping.to_set();
    let all = Set::new(|l: usize| 0 <= l < lanes);
    assert(mapping.no_duplicates());
    mapping.unique_seq_to_set();
    assert(targets.len() == lanes);
    assert(targets.subset_of(all)) by {
        assert forall|l: usize| targets.contains(l) implies all.contains(l) by {
            let i = choose|i: int| 0 <= i < mapping.len() && mapping[i] == l;
        }
    }
    lemma_lane_set_size(lanes as nat);
    vstd::set_lib::lemma_subset_equality(targets, all);
    assert forall|lane: usize| 0 <= lane < lanes implies #[trigger] mapping.contains(lane) by {
        assert(all.contains(lane));
        assert(targets.contains(lane));
    }
}

/// There are `lanes` lanes below `lanes`.
proof fn lemma_lane_set_size(lanes: nat)
    requires
        lanes <= usize::MAX,
    ensures
        Set::new(|l: usize| 0 <= l < lanes).finite(),
        Set::new(|l: usize| 0 <= l < lanes).len() == lanes,
    decreases lanes,
{
    let s = Set::new(|l: usize| 0 <= l < lanes);
    if lanes == 0 {
        assert(s =~= Set::<usize>::empty());
    } else {
        let below = Set::new(|l: usize| 0 <= l < (lanes - 1) as nat);
        lemma_lane_set_size((lanes - 1) as nat);
        assert(s =~= below.insert((lanes - 1) as usize));
    }
}

/// A coordinate falls in one of the lanes there are.
pub proof fn lemma_lane_in_range(x: int, lanes: int)
    requires
        lanes > 0,
    ensures
        0 <= lane_of(x, lanes) < lanes,
{
    if x > 0 {
        vstd::arithmetic::div_mod::lemma_mod_bound((x * lanes) / 512, lanes);
    }
}

/// With at most half as many lanes as the playfield is wide, a kind moved
/// through a mapping lies in the lane that the mapping names for the lane
/// it lay in.
pub proof fn lemma_moved_to_mapped_lane(kind: ObjectKind, mapping: Seq<usize>)
    requires
        0 < mapping.len() <= PLAYFIELD_WIDTH / 2,
        forall|i: int| 0 <= i < mapping.len() ==> #[trigger] mapping[i] < mapping.len(),
    ensures
        kind.x() matches Some(x) ==> (moved_kind(kind, mapping).x() matches Some(moved)
            && lane_of(moved as int, mapping.len() as int) == mapping[lane_of(
            x as int,
            mapping.len() as int,
        )]),
        kind.x() is None ==> moved_kind(kind, mapping) == kind,
        moved_kind(kind, mapping).duration() == kind.duration(),
{
    let lanes = mapping.len() as int;
    match kind.x() {
        Some(x) => {
            lemma_lane_in_range(x as int, lanes);
            let target = mapping[lane_of(x as int, lanes)] as int;
            lemma_lane_centre_in_lane(target, lanes);
            lemma_centre_falls_in_its_lane(target, lanes);
        },
        None => {},
    }
}

} // verus!
