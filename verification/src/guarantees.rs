//! What holds of every run of the matching, whatever the beatmap and the
//! replay.

use crate::difficulty::HitParams;
use crate::frames::{time_ordered, HitFrame};
use crate::hit_object::{in_view, time_sorted, Hit, HitObject, HITTABLE_RANGE};
use crate::matching::{
    first_candidate, flags_after, hits_after, is_candidate, lemma_first_candidate_is_first,
    spec_press, spec_run,
};
use crate::ruleset::{blocks, note_locked, order_locked};
use vstd::prelude::*;

verus! {

/// The time of the press behind a hit: the start of its object plus the
/// error.
pub open spec fn press_time(objects: Seq<HitObject>, hit: Hit) -> int {
    objects[hit.target as int].start_time + hit.error
}

/// Whether every hit names one of the first `count` objects and has an error
/// less than the hittable range either way.
pub open spec fn hits_in_range(hits: Seq<Hit>, count: int) -> bool {
    forall|a: int|
        0 <= a < hits.len() ==> (#[trigger] hits[a]).target < count && -HITTABLE_RANGE
            < hits[a].error < HITTABLE_RANGE
}

/// Whether no two hits name the same object.
pub open spec fn distinct_targets(hits: Seq<Hit>) -> bool {
    forall|a: int, b: int|
        0 <= a < b < hits.len() ==> (#[trigger] hits[a]).target != (#[trigger] hits[b]).target
}

/// Whether the objects of the hits start in the order of the hits.
pub open spec fn in_start_order(objects: Seq<HitObject>, hits: Seq<Hit>) -> bool {
    forall|a: int, b: int|
        0 <= a < b < hits.len() ==> objects[(#[trigger] hits[a]).target as int].start_time
            <= objects[(#[trigger] hits[b]).target as int].start_time
}

/// Whether every hit names a later object than the hits before it, or one
/// that starts together with theirs.
pub open spec fn in_target_order(objects: Seq<HitObject>, hits: Seq<Hit>) -> bool {
    forall|a: int, b: int|
        0 <= a < b < hits.len() ==> {
            let first = (#[trigger] hits[a]).target;
            let second = (#[trigger] hits[b]).target;
            first < second || objects[first as int].start_time
                == objects[second as int].start_time
        }
}

/// Whether no two objects start at the same time and they come in order of
/// start.
pub open spec fn strictly_sorted(objects: Seq<HitObject>) -> bool {
    forall|i: int, j: int|
        0 <= i < j < objects.len() ==> objects[i].start_time < objects[j].start_time
}

/// A press leaves the number of flags as it is, clears none, and sets at most
/// one: that of the object it hits, which was not set before. The hit names
/// that object, and its error is the press time minus the object's start, less
/// than the hittable range either way.
pub proof fn lemma_press_sets_one_flag(
    objects: Seq<HitObject>,
    hits: Seq<bool>,
    p: HitParams,
    frame: HitFrame,
)
    requires
        hits.len() == objects.len(),
        objects.len() <= usize::MAX,
    ensures
        spec_press(objects, hits, p, frame).0.len() == hits.len(),
        forall|i: int|
            0 <= i < hits.len() && hits[i] ==> #[trigger] spec_press(objects, hits, p, frame).0[i],
        match spec_press(objects, hits, p, frame).1 {
            Some(hit) => {
                &&& 0 <= hit.target < objects.len()
                &&& !hits[hit.target as int]
                &&& spec_press(objects, hits, p, frame).0 == hits.update(hit.target as int, true)
                &&& hit.error == frame.time - objects[hit.target as int].start_time
                &&& -HITTABLE_RANGE < hit.error < HITTABLE_RANGE
                &&& is_candidate(objects, hits, p, frame, hit.target as int)
                &&& !order_locked(objects, hits, p, frame.time as int, hit.target as int)
            },
            None => spec_press(objects, hits, p, frame).0 == hits,
        },
{
    lemma_first_candidate_is_first(objects, hits, p, frame, 0);
}

/// A press that lands on an object locked by the object before it scores
/// nothing and changes nothing, whatever the two objects are and wherever
/// the one before started.
pub proof fn lemma_note_lock_rejects(
    objects: Seq<HitObject>,
    hits: Seq<bool>,
    p: HitParams,
    frame: HitFrame,
)
    requires
        first_candidate(objects, hits, p, frame, 0) < objects.len(),
        note_locked(
            objects,
            hits,
            p,
            frame.time as int,
            first_candidate(objects, hits, p, frame, 0),
        ),
    ensures
        spec_press(objects, hits, p, frame) == (hits, None::<Hit>),
{
}

/// A press that lands on an object while an earlier object in view is still
/// waiting with its hit window open scores nothing and changes nothing.
pub proof fn lemma_order_lock_rejects(
    objects: Seq<HitObject>,
    hits: Seq<bool>,
    p: HitParams,
    frame: HitFrame,
    earlier: int,
)
    requires
        first_candidate(objects, hits, p, frame, 0) < objects.len(),
        blocks(
            objects,
            hits,
            p,
            frame.time as int,
            first_candidate(objects, hits, p, frame, 0),
            earlier,
        ),
    ensures
        spec_press(objects, hits, p, frame) == (hits, None::<Hit>),
{
}

/// After any number of presses there is one flag for each object, every hit
/// names an object whose flag is set, every set flag belongs to the object of
/// some hit, and no two hits name the same object: an object goes from not hit
/// to hit at most once and is credited with at most one error.
pub proof fn lemma_each_object_hit_at_most_once(
    objects: Seq<HitObject>,
    p: HitParams,
    frames: Seq<HitFrame>,
    k: int,
)
    requires
        0 <= k <= frames.len(),
        objects.len() <= usize::MAX,
    ensures
        flags_after(objects, p, frames, k).len() == objects.len(),
        forall|a: int|
            0 <= a < hits_after(objects, p, frames, k).len() ==> {
                let hit = #[trigger] hits_after(objects, p, frames, k)[a];
                &&& 0 <= hit.target < objects.len()
                &&& flags_after(objects, p, frames, k)[hit.target as int]
            },
        forall|i: int|
            0 <= i < objects.len() && #[trigger] flags_after(objects, p, frames, k)[i]
                ==> exists|a: int|
                0 <= a < hits_after(objects, p, frames, k).len() && (#[trigger] hits_after(
                    objects,
                    p,
                    frames,
                    k,
                )[a]).target == i,
        distinct_targets(hits_after(objects, p, frames, k)),
    decreases k,
{
    if k > 0 {
        lemma_each_object_hit_at_most_once(objects, p, frames, k - 1);
        let before = spec_run(objects, p, frames, k - 1);
        let after = spec_run(objects, p, frames, k);
        lemma_press_sets_one_flag(objects, before.0, p, frames[k - 1]);
        let step = spec_press(objects, before.0, p, frames[k - 1]);
        let flags = flags_after(objects, p, frames, k);
        let out = hits_after(objects, p, frames, k);
        let earlier = hits_after(objects, p, frames, k - 1);
        let n = earlier.len() as int;
        assert(flags == step.0);
        match step.1 {
            Some(hit) => {
                assert(out == earlier.push(hit));
                assert(out[n] == hit);
                assert forall|a: int| 0 <= a < out.len() implies {
                    let h = #[trigger] out[a];
                    0 <= h.target < objects.len() && flags[h.target as int]
                } by {
                    if a < n {
                        assert(out[a] == earlier[a]);
                    }
                }
                assert forall|i: int| 0 <= i < objects.len() && #[trigger] flags[i] implies exists|
                    a: int,
                | 0 <= a < out.len() && (#[trigger] out[a]).target == i by {
                    if i == hit.target {
                        assert(out[n].target == i);
                    } else {
                        assert(flags_after(objects, p, frames, k - 1)[i]);
                        let a = choose|a: int|
                            0 <= a < earlier.len() && (#[trigger] earlier[a]).target == i;
                        assert(out[a] == earlier[a]);
                    }
                }
                assert forall|a: int, b: int| 0 <= a < b < out.len() implies (
                #[trigger] out[a]).target != (#[trigger] out[b]).target by {
                    assert(out[a] == earlier[a]);
                    if b < n {
                        assert(out[b] == earlier[b]);
                    } else {
                        assert(flags_after(objects, p, frames, k - 1)[earlier[a].target as int]);
                    }
                }
            },
            None => {
                assert(out == earlier);
                assert(flags == flags_after(objects, p, frames, k - 1));
                assert forall|i: int| 0 <= i < objects.len() && #[trigger] flags[i] implies exists|
                    a: int,
                | 0 <= a < out.len() && (#[trigger] out[a]).target == i by {
                    assert(flags_after(objects, p, frames, k - 1)[i]);
                }
            },
        }
    }
}

/// There are no more hits than presses, every hit names an object, and the
/// error of every hit is less than the hittable range either way.
pub proof fn lemma_hits_bounded(
    objects: Seq<HitObject>,
    p: HitParams,
    frames: Seq<HitFrame>,
    k: int,
)
    requires
        0 <= k <= frames.len(),
        objects.len() <= usize::MAX,
    ensures
        hits_after(objects, p, frames, k).len() <= k,
        hits_in_range(hits_after(objects, p, frames, k), objects.len() as int),
    decreases k,
{
    if k > 0 {
        lemma_hits_bounded(objects, p, frames, k - 1);
        lemma_each_object_hit_at_most_once(objects, p, frames, k - 1);
        let before = spec_run(objects, p, frames, k - 1);
        let out = hits_after(objects, p, frames, k);
        lemma_press_sets_one_flag(objects, before.0, p, frames[k - 1]);
        assert forall|a: int| 0 <= a < out.len() implies (#[trigger] out[a]).target
            < objects.len() && -HITTABLE_RANGE < out[a].error < HITTABLE_RANGE by {
            if a < before.1.len() {
                assert(out[a] == before.1[a]);
            }
        }
    }
}

/// A flag that is set after `k` presses is set after every later press too.
pub proof fn lemma_flags_never_cleared(
    objects: Seq<HitObject>,
    p: HitParams,
    frames: Seq<HitFrame>,
    k: int,
    later: int,
    i: int,
)
    requires
        0 <= k <= later <= frames.len(),
        objects.len() <= usize::MAX,
        0 <= i < objects.len(),
        flags_after(objects, p, frames, k)[i],
    ensures
        flags_after(objects, p, frames, later)[i],
    decreases later - k,
{
    if k < later {
        lemma_flags_never_cleared(objects, p, frames, k, later - 1, i);
        lemma_each_object_hit_at_most_once(objects, p, frames, later - 1);
        let before = spec_run(objects, p, frames, later - 1);
        lemma_press_sets_one_flag(objects, before.0, p, frames[later - 1]);
        assert(spec_press(objects, before.0, p, frames[later - 1]).0[i]);
    }
}

/// Whether every hit names an object, was pressed no later than `now`, and
/// had its object in view when it was pressed.
spec fn pressed_by(objects: Seq<HitObject>, p: HitParams, out: Seq<Hit>, now: int) -> bool {
    forall|a: int|
        0 <= a < out.len() ==> {
            let h = #[trigger] out[a];
            &&& 0 <= h.target < objects.len()
            &&& press_time(objects, h) <= now
            &&& in_view(
                objects[h.target as int].start_time as int,
                press_time(objects, h),
                p.preempt as int,
            )
        }
}

/// Whether no object that is still not hit and starts before the object of
/// some hit was in view with its hit window open when that hit was pressed.
spec fn none_passed_over(
    objects: Seq<HitObject>,
    p: HitParams,
    hits: Seq<bool>,
    out: Seq<Hit>,
) -> bool {
    forall|a: int, j: int|
        0 <= a < out.len() && 0 <= j < objects.len() && !hits[j] && (
        #[trigger] objects[j]).start_time < objects[(#[trigger] out[a]).target as int].start_time
            ==> !(in_view(
            objects[j].start_time as int,
            press_time(objects, out[a]),
            p.preempt as int,
        ) && objects[j].spec_still_due(press_time(objects, out[a]), p))
}

/// What the run keeps true from press to press when the presses come in
/// order of time.
spec fn in_order(
    objects: Seq<HitObject>,
    p: HitParams,
    hits: Seq<bool>,
    out: Seq<Hit>,
    now: int,
) -> bool {
    &&& hits.len() == objects.len()
    &&& pressed_by(objects, p, out, now)
    &&& none_passed_over(objects, p, hits, out)
    &&& in_start_order(objects, out)
}

proof fn lemma_in_order(objects: Seq<HitObject>, p: HitParams, frames: Seq<HitFrame>, k: int)
    requires
        0 <= k <= frames.len(),
        objects.len() <= usize::MAX,
        time_ordered(frames),
    ensures
        k == 0 ==> hits_after(objects, p, frames, k).len() == 0,
        k > 0 ==> in_order(
            objects,
            p,
            flags_after(objects, p, frames, k),
            hits_after(objects, p, frames, k),
            frames[k - 1].time as int,
        ),
        flags_after(objects, p, frames, k).len() == objects.len(),
    decreases k,
{
    if k > 0 {
        lemma_in_order(objects, p, frames, k - 1);
        let before = spec_run(objects, p, frames, k - 1);
        let after = spec_run(objects, p, frames, k);
        let frame = frames[k - 1];
        let now = frame.time as int;
        lemma_press_sets_one_flag(objects, before.0, p, frame);
        let step = spec_press(objects, before.0, p, frame);
        assert(after.0.len() == objects.len());
        // The earlier hits were pressed no later than this press.
        assert(pressed_by(objects, p, before.1, now)) by {
            if k - 1 > 0 {
                assert(frames[k - 2].time <= frames[k - 1].time);
            }
        }
        if k - 1 == 0 {
            assert(none_passed_over(objects, p, before.0, before.1));
            assert(in_start_order(objects, before.1));
        }
        match step.1 {
            None => {
                assert(after.1 == before.1);
                assert(after.0 == before.0);
            },
            Some(hit) => {
                let i = hit.target as int;
                let n = before.1.len() as int;
                assert(after.1 == before.1.push(hit));
                assert(after.1[n] == hit);
                assert(press_time(objects, hit) == now);
                assert(pressed_by(objects, p, after.1, now)) by {
                    assert forall|a: int| 0 <= a < after.1.len() implies {
                        let h = #[trigger] after.1[a];
                        &&& 0 <= h.target < objects.len()
                        &&& press_time(objects, h) <= now
                        &&& in_view(
                            objects[h.target as int].start_time as int,
                            press_time(objects, h),
                            p.preempt as int,
                        )
                    } by {
                        if a < n {
                            assert(after.1[a] == before.1[a]);
                        }
                    }
                }
                assert(none_passed_over(objects, p, after.0, after.1)) by {
                    assert forall|a: int, j: int|
                        0 <= a < after.1.len() && 0 <= j < objects.len() && !after.0[j] && (
                        #[trigger] objects[j]).start_time < objects[(
                        #[trigger] after.1[a]).target as int].start_time implies !(in_view(
                        objects[j].start_time as int,
                        press_time(objects, after.1[a]),
                        p.preempt as int,
                    ) && objects[j].spec_still_due(press_time(objects, after.1[a]), p)) by {
                        assert(!before.0[j]);
                        if a < n {
                            assert(after.1[a] == before.1[a]);
                        } else {
                            assert(j != i);
                            assert(!blocks(objects, before.0, p, now, i, j));
                        }
                    }
                }
                assert(in_start_order(objects, after.1)) by {
                    assert forall|a: int, b: int| 0 <= a < b < after.1.len() implies objects[(
                    #[trigger] after.1[a]).target as int].start_time <= objects[(
                    #[trigger] after.1[b]).target as int].start_time by {
                        assert(after.1[a] == before.1[a]);
                        if b < n {
                            assert(after.1[b] == before.1[b]);
                        } else {
                            let m = before.1[a].target as int;
                            let t = press_time(objects, before.1[a]);
                            if objects[i].start_time < objects[m].start_time {
                                // Object `i` was waiting when `m` was hit, so it
                                // stood in the way of `m`.
                                assert(!before.0[i]);
                                assert(t <= now);
                                assert(in_view(objects[m].start_time as int, t, p.preempt as int));
                                assert(in_view(objects[i].start_time as int, t, p.preempt as int));
                                assert(objects[i].spec_still_due(t, p));
                                assert(false);
                            }
                        }
                    }
                }
            },
        }
    }
}

/// When the presses come in order of time, the hits come in order of their
/// objects' starts: an object is never hit after one that starts later.
pub proof fn lemma_hits_in_start_order(
    objects: Seq<HitObject>,
    p: HitParams,
    frames: Seq<HitFrame>,
    k: int,
)
    requires
        0 <= k <= frames.len(),
        objects.len() <= usize::MAX,
        time_ordered(frames),
    ensures
        in_start_order(objects, hits_after(objects, p, frames, k)),
{
    lemma_in_order(objects, p, frames, k);
}

/// When the presses come in order of time and the objects in order of
/// start, the hits go up the list of objects: of two hits, the later names
/// the later object, unless the two objects start at the same time.
pub proof fn lemma_hits_in_target_order(
    objects: Seq<HitObject>,
    p: HitParams,
    frames: Seq<HitFrame>,
    k: int,
)
    requires
        0 <= k <= frames.len(),
        objects.len() <= usize::MAX,
        time_ordered(frames),
        time_sorted(objects),
    ensures
        in_target_order(objects, hits_after(objects, p, frames, k)),
{
    lemma_in_order(objects, p, frames, k);
    lemma_each_object_hit_at_most_once(objects, p, frames, k);
    let out = hits_after(objects, p, frames, k);
    assert forall|a: int, b: int| 0 <= a < b < out.len() implies {
        let first = (#[trigger] out[a]).target;
        let second = (#[trigger] out[b]).target;
        first < second || objects[first as int].start_time == objects[second as int].start_time
    } by {
        let first = out[a].target as int;
        let second = out[b].target as int;
        assert(objects[first].start_time <= objects[second].start_time);
        if second < first {
            assert(objects[second].start_time <= objects[first].start_time);
        }
    }
}

/// When the presses come in order of time and no two objects start at the
/// same time, every hit names a later object than the hit before it.
pub proof fn lemma_hits_go_up(
    objects: Seq<HitObject>,
    p: HitParams,
    frames: Seq<HitFrame>,
    k: int,
)
    requires
        0 <= k <= frames.len(),
        objects.len() <= usize::MAX,
        time_ordered(frames),
        strictly_sorted(objects),
    ensures
        forall|a: int, b: int|
            0 <= a < b < hits_after(objects, p, frames, k).len() ==> (#[trigger] hits_after(
                objects,
                p,
                frames,
                k,
            )[a]).target < (#[trigger] hits_after(objects, p, frames, k)[b]).target,
{
    lemma_hits_in_target_order(objects, p, frames, k);
    lemma_each_object_hit_at_most_once(objects, p, frames, k);
    let out = hits_after(objects, p, frames, k);
    assert forall|a: int, b: int| 0 <= a < b < out.len() implies (#[trigger] out[a]).target < (
    #[trigger] out[b]).target by {
        let first = out[a].target as int;
        let second = out[b].target as int;
        if second < first {
            assert(objects[second].start_time < objects[first].start_time);
        }
    }
}

} // verus!
