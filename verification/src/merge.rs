use vstd::prelude::*;
use crate::objects::TimedObject;

verus! {

/// Whether no object starts before one that stands earlier in the list.
pub open spec fn sorted_by_time(objects: Seq<TimedObject>) -> bool {
    forall|i: int, j: int|
        0 <= i < j < objects.len() ==> objects[i].start_time <= objects[j].start_time
}

/// The objects that start at `time`, in the list's order.
pub open spec fn at_time(objects: Seq<TimedObject>, time: int) -> Seq<TimedObject> {
    objects.filter(|o: TimedObject| o.start_time == time)
}

/// Whether `sorted` is `objects` put in the order of their start times,
/// objects that start together keeping the order they had.
pub open spec fn is_stable_sort_of(sorted: Seq<TimedObject>, objects: Seq<TimedObject>) -> bool {
    &&& sorted_by_time(sorted)
    &&& sorted.to_multiset() == objects.to_multiset()
    &&& forall|time: int| #[trigger] at_time(sorted, time) == at_time(objects, time)
}

/// What putting `x` at place `p` does to the objects of one start time,
/// where all that stand from `p` on start later than `x`.
proof fn lemma_insert_at_time(out: Seq<TimedObject>, p: int, x: TimedObject, time: int)
    requires
        0 <= p <= out.len(),
        forall|j: int| p <= j < out.len() ==> out[j].start_time > x.start_time,
    ensures
        at_time(out.insert(p, x), time) == if x.start_time == time {
            at_time(out, time).push(x)
        } else {
            at_time(out, time)
        },
{
    let pred = |o: TimedObject| o.start_time == time;
    let head = out.take(p);
    let tail = out.skip(p);
    assert(out =~= head + tail);
    assert(out.insert(p, x) =~= head.push(x) + tail);
    Seq::filter_distributes_over_add(head, tail, pred);
    Seq::filter_distributes_over_add(head.push(x), tail, pred);
    head.lemma_filter_push(x, pred);
    if x.start_time == time {
        assert(tail.all(|o: TimedObject| !pred(o))) by {
            assert forall|j: int| 0 <= j < tail.len() implies !pred(#[trigger] tail[j]) by {
                assert(tail[j] == out[p + j]);
            }
        }
        tail.lemma_all_neg_filter_empty(pred);
        assert(tail.filter(pred) =~= Seq::<TimedObject>::empty());
        assert(head.filter(pred).push(x) + tail.filter(pred) =~= (head.filter(pred)
            + tail.filter(pred)).push(x));
    }
}

/// Puts the objects in the order of their start times. Objects that start
/// together keep the order they had.
pub fn sort_by_time(objects: &mut Vec<TimedObject>)
    ensures
        is_stable_sort_of(final(objects)@, old(objects)@),
{
    let n = objects.len();
    let mut out: Vec<TimedObject> = Vec::new();
    let mut i: usize = 0;
    proof {
        assert(objects@.take(0) =~= Seq::<TimedObject>::empty());
        assert(out@ =~= objects@.take(0));
    }
    while i < n
        invariant
            i <= n,
            n == objects@.len(),
            objects@ == old(objects)@,
            out@.len() == i,
            is_stable_sort_of(out@, objects@.take(i as int)),
        decreases n - i,
    {
        let x = objects[i];
        let mut p: usize = out.len();
        while p > 0 && out[p - 1].start_time > x.start_time
            invariant
                p <= out@.len(),
                forall|j: int| p <= j < out@.len() ==> out@[j].start_time > x.start_time,
            decreases p,
        {
            p -= 1;
        }
        let ghost before = out@;
        let ghost seen = objects@.take(i as int);
        out.insert(p, x);
        proof {
            assert(objects@.take(i + 1) =~= seen.push(x));
            assert(sorted_by_time(out@)) by {
                assert forall|a: int, b: int| 0 <= a < b < out@.len() implies out@[a].start_time
                    <= out@[b].start_time by {
                    if p > 0 {
                        assert(before[p - 1].start_time <= x.start_time);
                    }
                    if a < p && b > p {
                        assert(out@[a] == before[a]);
                        assert(out@[b] == before[b - 1]);
                    } else if a < p && b == p {
                        assert(out@[a] == before[a]);
                    } else if a == p {
                        assert(out@[b] == before[b - 1]);
                    } else if b < p {
                        assert(out@[a] == before[a]);
                        assert(out@[b] == before[b]);
                    } else {
                        assert(out@[a] == before[a - 1]);
                        assert(out@[b] == before[b - 1]);
                    }
                }
            }
            vstd::seq_lib::to_multiset_insert(before, p as int, x);
            vstd::seq_lib::to_multiset_build(seen, x);
            assert forall|time: int| #[trigger] at_time(out@, time) == at_time(seen.push(x), time) by {
                lemma_insert_at_time(before, p as int, x, time);
                seen.lemma_filter_push(x, |o: TimedObject| o.start_time == time);
                assert(at_time(before, time) == at_time(seen, time));
            }
        }
        i += 1;
    }
    proof {
        assert(objects@.take(n as int) =~= objects@);
    }
    *objects = out;
}

/// Only one list is the stable sort of a list: `is_stable_sort_of` leaves
/// no choice.
pub proof fn lemma_stable_sort_unique(a: Seq<TimedObject>, b: Seq<TimedObject>, objects: Seq<TimedObject>)
    requires
        is_stable_sort_of(a, objects),
        is_stable_sort_of(b, objects),
    ensures
        a == b,
    decreases a.len(),
{
    broadcast use vstd::seq_lib::to_multiset_len;

    assert(a.len() == b.len()) by {
        assert(a.to_multiset().len() == a.len());
        assert(b.to_multiset().len() == b.len());
    }
    if a.len() > 0 {
        let last_a = a.last();
        let last_b = b.last();
        // both lists end with the last of the objects that start latest
        lemma_last_of_sorted(a, b);
        lemma_last_of_sorted(b, a);
        assert(last_a.start_time == last_b.start_time);
        let time = last_a.start_time as int;
        let pred = |o: TimedObject| o.start_time == time;
        assert(a =~= a.drop_last().push(last_a));
        assert(b =~= b.drop_last().push(last_b));
        a.drop_last().lemma_filter_push(last_a, pred);
        b.drop_last().lemma_filter_push(last_b, pred);
        assert(at_time(a, time) == at_time(b, time));
        assert(at_time(a, time).last() == last_a);
        assert(at_time(b, time).last() == last_b);
        assert(last_a == last_b);
        // what is left of both is the stable sort of the same list
        assert(is_stable_sort_of(a.drop_last(), a.drop_last()));
        assert(is_stable_sort_of(b.drop_last(), a.drop_last())) by {
            vstd::seq_lib::to_multiset_build(a.drop_last(), last_a);
            vstd::seq_lib::to_multiset_build(b.drop_last(), last_b);
            assert(b.drop_last().to_multiset() =~= a.drop_last().to_multiset()) by {
                assert(a.drop_last().to_multiset() =~= a.to_multiset().remove(last_a));
                assert(b.drop_last().to_multiset() =~= b.to_multiset().remove(last_b));
            }
            assert forall|t: int| #[trigger] at_time(b.drop_last(), t) == at_time(a.drop_last(), t) by {
                let q = |o: TimedObject| o.start_time == t;
                a.drop_last().lemma_filter_push(last_a, q);
                b.drop_last().lemma_filter_push(last_b, q);
                assert(at_time(a, t) == at_time(b, t));
                if last_a.start_time == t {
                    assert(at_time(a.drop_last(), t) =~= at_time(a, t).drop_last());
                    assert(at_time(b.drop_last(), t) =~= at_time(b, t).drop_last());
                }
            }
        }
        lemma_stable_sort_unique(a.drop_last(), b.drop_last(), a.drop_last());
    } else {
        assert(a =~= b);
    }
}

/// In two sorted lists of the same objects, the last of one starts no
/// later than the last of the other.
proof fn lemma_last_of_sorted(a: Seq<TimedObject>, b: Seq<TimedObject>)
    requires
        sorted_by_time(a),
        sorted_by_time(b),
        a.to_multiset() == b.to_multiset(),
        a.len() > 0,
        a.len() == b.len(),
    ensures
        a.last().start_time <= b.last().start_time,
{
    broadcast use vstd::seq_lib::to_multiset_contains;

    assert(a.contains(a.last()));
    assert(a.to_multiset().count(a.last()) > 0);
    assert(b.contains(a.last()));
    let k = choose|k: int| 0 <= k < b.len() && b[k] == a.last();
    if k < b.len() - 1 {
        assert(b[k].start_time <= b[b.len() - 1].start_time);
    }
}

} // verus!
