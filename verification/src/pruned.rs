//! The same matching with less looking.
//!
//! An object is resolved at a time if it has been hit, if its hit window has
//! closed, or if it starts more than the approach time before. A resolved
//! object stays resolved as time goes on, and no press lands on one. So while
//! the presses come in order of time, a mark that only moves forward can
//! stand at the first object that is not resolved, and each press looks from
//! the mark to the end of its view.

use crate::difficulty::HitParams;
use crate::frames::{time_ordered, HitFrame};
use crate::guarantees::{
    distinct_targets, hits_in_range, in_target_order, lemma_each_object_hit_at_most_once,
    lemma_hits_bounded, lemma_hits_in_target_order,
};
use crate::hit_object::{time_sorted, Hit, HitObject};
use crate::hit_object_manager::lower_bound;
use crate::matching::{
    first_candidate, hit_of, is_candidate, lemma_first_candidate, lemma_first_candidate_is_first,
    spec_hits, spec_press, spec_run,
};
use crate::ruleset::{blocks, note_locked, order_locked, spec_click_action, ClickAction};
use vstd::prelude::*;

verus! {

/// Whether object `i` is out of play at `time`: hit, past the late edge of
/// its hit window, or started more than the approach time before.
pub open spec fn resolved(
    objects: Seq<HitObject>,
    hits: Seq<bool>,
    p: HitParams,
    time: int,
    i: int,
) -> bool {
    ||| hits[i]
    ||| !objects[i].spec_still_due(time, p)
    ||| objects[i].start_time < time - p.preempt
}

/// The first object at or after `from` that is not resolved, or the number
/// of objects if all are.
pub open spec fn first_unresolved(
    objects: Seq<HitObject>,
    hits: Seq<bool>,
    p: HitParams,
    time: int,
    from: int,
) -> int
    decreases objects.len() - from,
{
    if from >= objects.len() {
        objects.len() as int
    } else if !resolved(objects, hits, p, time, from) {
        from
    } else {
        first_unresolved(objects, hits, p, time, from + 1)
    }
}

/// The first object at or after `from` that passes the hit test, looking no
/// further than the first object that starts more than the approach time
/// after the press; the number of objects if none is found.
pub open spec fn pruned_candidate(
    objects: Seq<HitObject>,
    hits: Seq<bool>,
    p: HitParams,
    frame: HitFrame,
    from: int,
) -> int
    decreases objects.len() - from,
{
    if from >= objects.len() {
        objects.len() as int
    } else if objects[from].start_time > frame.time + p.preempt {
        objects.len() as int
    } else if objects[from].spec_hit_test(hits[from], frame, p) {
        from
    } else {
        pruned_candidate(objects, hits, p, frame, from + 1)
    }
}

/// What becomes of a press at `time` that lands on object `i`, when `mark`
/// is the first object that is not resolved: only that object can stand in
/// the way.
pub open spec fn pruned_click_action(
    objects: Seq<HitObject>,
    hits: Seq<bool>,
    p: HitParams,
    time: int,
    mark: int,
    i: int,
) -> ClickAction {
    if note_locked(objects, hits, p, time, i) {
        ClickAction::Ignore
    } else if !(mark < objects.len() && objects[mark].start_time < objects[i].start_time)
        && objects[i].spec_in_hittable_range(time) {
        ClickAction::Hit
    } else {
        ClickAction::Shake
    }
}

/// What one press does when the search starts at the first object that is
/// not resolved.
pub open spec fn spec_press_pruned(
    objects: Seq<HitObject>,
    hits: Seq<bool>,
    p: HitParams,
    frame: HitFrame,
) -> (Seq<bool>, Option<Hit>) {
    let mark = first_unresolved(objects, hits, p, frame.time as int, 0);
    let i = pruned_candidate(objects, hits, p, frame, mark);
    if i < objects.len() && pruned_click_action(objects, hits, p, frame.time as int, mark, i)
        == ClickAction::Hit {
        (hits.update(i, true), Some(hit_of(objects, frame, i)))
    } else {
        (hits, None)
    }
}

/// The flags and the hits after the first `k` presses, each taken as
/// `spec_press_pruned` takes it.
pub open spec fn spec_run_pruned(
    objects: Seq<HitObject>,
    p: HitParams,
    frames: Seq<HitFrame>,
    k: int,
) -> (Seq<bool>, Seq<Hit>)
    decreases k,
{
    if k <= 0 {
        (Seq::new(objects.len(), |i: int| false), Seq::empty())
    } else {
        let before = spec_run_pruned(objects, p, frames, k - 1);
        let step = spec_press_pruned(objects, before.0, p, frames[k - 1]);
        match step.1 {
            Some(hit) => (step.0, before.1.push(hit)),
            None => (step.0, before.1),
        }
    }
}

/// The hits of the whole replay under the pruned search.
pub open spec fn spec_hits_pruned(
    objects: Seq<HitObject>,
    p: HitParams,
    frames: Seq<HitFrame>,
) -> Seq<Hit> {
    spec_run_pruned(objects, p, frames, frames.len() as int).1
}

/// The first unresolved object from `from` is not resolved or is past the
/// last object, and every object between `from` and it is resolved.
pub proof fn lemma_first_unresolved_is_first(
    objects: Seq<HitObject>,
    hits: Seq<bool>,
    p: HitParams,
    time: int,
    from: int,
)
    requires
        0 <= from <= objects.len(),
    ensures
        from <= first_unresolved(objects, hits, p, time, from) <= objects.len(),
        first_unresolved(objects, hits, p, time, from) < objects.len() ==> !resolved(
            objects,
            hits,
            p,
            time,
            first_unresolved(objects, hits, p, time, from),
        ),
        forall|j: int|
            from <= j < first_unresolved(objects, hits, p, time, from) ==> resolved(
                objects,
                hits,
                p,
                time,
                j,
            ),
    decreases objects.len() - from,
{
    if from < objects.len() && resolved(objects, hits, p, time, from) {
        lemma_first_unresolved_is_first(objects, hits, p, time, from + 1);
    }
}

/// Resolved objects can be skipped: if every object from `from` up to `to`
/// is resolved, the first unresolved object from `from` is that from `to`.
pub proof fn lemma_skip_resolved(
    objects: Seq<HitObject>,
    hits: Seq<bool>,
    p: HitParams,
    time: int,
    from: int,
    to: int,
)
    requires
        0 <= from <= to <= objects.len(),
        forall|j: int| from <= j < to ==> resolved(objects, hits, p, time, j),
    ensures
        first_unresolved(objects, hits, p, time, from) == first_unresolved(
            objects,
            hits,
            p,
            time,
            to,
        ),
    decreases to - from,
{
    if from < to {
        lemma_skip_resolved(objects, hits, p, time, from + 1, to);
    }
}

/// An object that is resolved stays resolved when time goes on and flags are
/// only set.
pub proof fn lemma_resolved_stays(
    objects: Seq<HitObject>,
    hits: Seq<bool>,
    later_hits: Seq<bool>,
    p: HitParams,
    time: int,
    later: int,
    i: int,
)
    requires
        time <= later,
        hits[i] ==> later_hits[i],
        resolved(objects, hits, p, time, i),
    ensures
        resolved(objects, later_hits, p, later, i),
{
}

/// Objects that are no candidates can be skipped.
proof fn lemma_skip_non_candidates(
    objects: Seq<HitObject>,
    hits: Seq<bool>,
    p: HitParams,
    frame: HitFrame,
    from: int,
    to: int,
)
    requires
        0 <= from <= to <= objects.len(),
        forall|j: int| from <= j < to ==> !is_candidate(objects, hits, p, frame, j),
    ensures
        first_candidate(objects, hits, p, frame, from) == first_candidate(
            objects,
            hits,
            p,
            frame,
            to,
        ),
    decreases to - from,
{
    if from < to {
        lemma_skip_non_candidates(objects, hits, p, frame, from + 1, to);
    }
}

/// From an object that starts no more than the approach time before the
/// press, the search that stops at the end of the view finds what the full
/// search finds.
proof fn lemma_candidates_agree(
    objects: Seq<HitObject>,
    hits: Seq<bool>,
    p: HitParams,
    frame: HitFrame,
    from: int,
)
    requires
        time_sorted(objects),
        0 <= from <= objects.len(),
        from < objects.len() ==> objects[from].start_time >= frame.time - p.preempt,
    ensures
        first_candidate(objects, hits, p, frame, from) == pruned_candidate(
            objects,
            hits,
            p,
            frame,
            from,
        ),
    decreases objects.len() - from,
{
    if from < objects.len() {
        if objects[from].start_time > frame.time + p.preempt {
            assert forall|j: int| from <= j < objects.len() implies !is_candidate(
                objects,
                hits,
                p,
                frame,
                j,
            ) by {
                assert(objects[from].start_time <= objects[j].start_time);
            }
            lemma_first_candidate(objects, hits, p, frame, from, objects.len() as int);
        } else if !objects[from].spec_hit_test(hits[from], frame, p) {
            if from + 1 < objects.len() {
                assert(objects[from].start_time <= objects[from + 1].start_time);
            }
            lemma_candidates_agree(objects, hits, p, frame, from + 1);
        }
    }
}

/// On objects in order of start, one press does the same under both
/// searches.
pub proof fn lemma_press_agrees(
    objects: Seq<HitObject>,
    hits: Seq<bool>,
    p: HitParams,
    frame: HitFrame,
)
    requires
        time_sorted(objects),
    ensures
        spec_press_pruned(objects, hits, p, frame) == spec_press(objects, hits, p, frame),
{
    let time = frame.time as int;
    let mark = first_unresolved(objects, hits, p, time, 0);
    lemma_first_unresolved_is_first(objects, hits, p, time, 0);
    assert forall|j: int| 0 <= j < mark implies !is_candidate(objects, hits, p, frame, j) by {
        assert(resolved(objects, hits, p, time, j));
    }
    lemma_skip_non_candidates(objects, hits, p, frame, 0, mark);
    lemma_candidates_agree(objects, hits, p, frame, mark);
    let i = first_candidate(objects, hits, p, frame, 0);
    assert(i == pruned_candidate(objects, hits, p, frame, mark));
    lemma_first_candidate_is_first(objects, hits, p, frame, 0);
    if i < objects.len() {
        assert(mark <= i) by {
            if i < mark {
                assert(!is_candidate(objects, hits, p, frame, i));
            }
        }
        let in_the_way = mark < objects.len() && objects[mark].start_time < objects[i].start_time;
        if in_the_way {
            assert(objects[mark].start_time <= objects[i].start_time);
            assert(blocks(objects, hits, p, time, i, mark));
        } else {
            assert forall|j: int| !blocks(objects, hits, p, time, i, j) by {
                if blocks(objects, hits, p, time, i, j) {
                    assert(!resolved(objects, hits, p, time, j));
                    assert(mark <= j) by {
                        if j < mark {
                            assert(resolved(objects, hits, p, time, j));
                        }
                    }
                    assert(objects[mark].start_time <= objects[j].start_time);
                }
            }
        }
        assert(in_the_way == order_locked(objects, hits, p, time, i));
        assert(pruned_click_action(objects, hits, p, time, mark, i) == spec_click_action(
            objects,
            hits,
            p,
            time,
            i,
        ));
    }
}

/// On objects in order of start, the search through the whole view and the
/// pruned search leave the same flags and record the same hits, after every
/// number of presses and whatever the order of the presses.
pub proof fn lemma_strategies_agree(
    objects: Seq<HitObject>,
    p: HitParams,
    frames: Seq<HitFrame>,
    k: int,
)
    requires
        time_sorted(objects),
        0 <= k <= frames.len(),
    ensures
        spec_run_pruned(objects, p, frames, k) == spec_run(objects, p, frames, k),
    decreases k,
{
    if k > 0 {
        lemma_strategies_agree(objects, p, frames, k - 1);
        lemma_press_agrees(objects, spec_run(objects, p, frames, k - 1).0, p, frames[k - 1]);
    }
}

/// If the objects from `from` up to `i` are within the view's end and fail
/// the hit test, and `i` is within it and passes, the pruned search from
/// `from` finds `i`.
proof fn lemma_pruned_found(
    objects: Seq<HitObject>,
    hits: Seq<bool>,
    p: HitParams,
    frame: HitFrame,
    from: int,
    i: int,
)
    requires
        0 <= from <= i < objects.len(),
        forall|j: int|
            from <= j <= i ==> (#[trigger] objects[j]).start_time <= frame.time + p.preempt,
        forall|j: int| from <= j < i ==> !(#[trigger] objects[j]).spec_hit_test(hits[j], frame, p),
        objects[i].spec_hit_test(hits[i], frame, p),
    ensures
        pruned_candidate(objects, hits, p, frame, from) == i,
    decreases i - from,
{
    assert(objects[from].start_time <= frame.time + p.preempt);
    if from < i {
        assert(!objects[from].spec_hit_test(hits[from], frame, p));
        lemma_pruned_found(objects, hits, p, frame, from + 1, i);
    }
}

/// If the objects from `from` up to `end` fail the hit test, and `end` is
/// past the last object or past the view's end, the pruned search from
/// `from` finds nothing.
proof fn lemma_pruned_none(
    objects: Seq<HitObject>,
    hits: Seq<bool>,
    p: HitParams,
    frame: HitFrame,
    from: int,
    end: int,
)
    requires
        0 <= from <= end <= objects.len(),
        forall|j: int|
            from <= j < end ==> !(#[trigger] objects[j]).spec_hit_test(hits[j], frame, p),
        end < objects.len() ==> objects[end].start_time > frame.time + p.preempt,
    ensures
        pruned_candidate(objects, hits, p, frame, from) == objects.len(),
    decreases end - from,
{
    if from < end {
        assert(!objects[from].spec_hit_test(hits[from], frame, p));
        lemma_pruned_none(objects, hits, p, frame, from + 1, end);
    }
}

/// Whether an object with the given flag is out of play at `time`.
fn is_resolved(h: &HitObject, is_hit: bool, time: i64, p: &HitParams) -> (r: bool)
    ensures
        r == (is_hit || !h.spec_still_due(time as int, *p) || h.start_time < time - p.preempt),
{
    is_hit || !h.still_due(time, p) || (h.start_time as i128) < time as i128 - p.preempt as i128
}

/// The hits that the presses score on the objects, in the order of the
/// presses, found with a mark that stands at the first object still in
/// play. The mark moves forward while the presses come in order of time and
/// starts over when a press is earlier than the one before it. The end of
/// the view is found by binary search from the mark.
pub fn collect_hits_pruned(
    hit_objects: &Vec<HitObject>,
    params: HitParams,
    frames: &Vec<HitFrame>,
) -> (r: Vec<Hit>)
    requires
        time_sorted(hit_objects@),
    ensures
        r@ == spec_hits_pruned(hit_objects@, params, frames@),
        r@ == spec_hits(hit_objects@, params, frames@),
        r@.len() <= frames@.len(),
        hits_in_range(r@, hit_objects@.len() as int),
        distinct_targets(r@),
        time_ordered(frames@) ==> in_target_order(hit_objects@, r@),
{
    let n = hit_objects.len();
    proof {
        let k = frames@.len() as int;
        lemma_hits_bounded(hit_objects@, params, frames@, k);
        lemma_each_object_hit_at_most_once(hit_objects@, params, frames@, k);
        if time_ordered(frames@) {
            lemma_hits_in_target_order(hit_objects@, params, frames@, k);
        }
    }
    let mut hits: Vec<bool> = Vec::new();
    let mut filled: usize = 0;
    while filled < n
        invariant
            filled <= n,
            hits@ == Seq::new(filled as nat, |i: int| false),
        decreases n - filled,
    {
        hits.push(false);
        filled = filled + 1;
        assert(hits@ =~= Seq::new(filled as nat, |i: int| false));
    }
    let mut out: Vec<Hit> = Vec::new();
    let mut mark: usize = 0;
    let mut last_time: i64 = 0;
    let mut k: usize = 0;
    let ghost objects = hit_objects@;
    while k < frames.len()
        invariant
            k <= frames.len(),
            n == hit_objects.len(),
            objects == hit_objects@,
            hits@.len() == n,
            mark <= n,
            time_sorted(objects),
            (hits@, out@) == spec_run_pruned(objects, params, frames@, k as int),
            forall|j: int| 0 <= j < mark ==> resolved(objects, hits@, params, last_time as int, j),
        decreases frames.len() - k,
    {
        let frame = frames[k];
        let ghost before = hits@;
        let ghost time = frame.time as int;
        if frame.time < last_time {
            mark = 0;
        }
        proof {
            assert forall|j: int| 0 <= j < mark implies resolved(
                objects,
                before,
                params,
                time,
                j,
            ) by {
                lemma_resolved_stays(objects, before, before, params, last_time as int, time, j);
            }
        }
        last_time = frame.time;
        while mark < n && is_resolved(&hit_objects[mark], hits[mark], frame.time, &params)
            invariant
                mark <= n,
                n == hit_objects.len(),
                objects == hit_objects@,
                hits@ == before,
                hits@.len() == n,
                time == frame.time as int,
                forall|j: int| 0 <= j < mark ==> resolved(objects, before, params, time, j),
            decreases n - mark,
        {
            mark = mark + 1;
        }
        proof {
            lemma_skip_resolved(objects, before, params, time, 0, mark as int);
            assert(first_unresolved(objects, before, params, time, 0) == mark);
        }
        let end = lower_bound(
            hit_objects,
            mark,
            frame.time as i128 + params.preempt as i128 + 1,
        );
        let mut i: usize = mark;
        let mut found: Option<usize> = None;
        while i < end
            invariant_except_break
                found is None,
            invariant
                mark <= i <= end <= n,
                n == hit_objects.len(),
                objects == hit_objects@,
                hits@ == before,
                hits@.len() == n,
                forall|j: int|
                    mark <= j < i ==> !(#[trigger] objects[j]).spec_hit_test(
                        before[j],
                        frame,
                        params,
                    ),
            ensures
                match found {
                    Some(at) => i == at && at < end && objects[at as int].spec_hit_test(
                        before[at as int],
                        frame,
                        params,
                    ),
                    None => i == end,
                },
            decreases end - i,
        {
            if hit_objects[i].hit_test(hits[i], &frame, &params) {
                found = Some(i);
                break ;
            }
            i = i + 1;
        }
        match found {
            None => {
                proof {
                    lemma_pruned_none(objects, before, params, frame, mark as int, end as int);
                }
            },
            Some(at) => {
                proof {
                    lemma_pruned_found(objects, before, params, frame, mark as int, at as int);
                }
                let h = hit_objects[at];
                let locked = at > 0 && hit_objects[at - 1].stack_count > 0 && hit_objects[at
                    - 1].is_visible(frame.time, params.preempt) && !hits[at - 1];
                let in_the_way = hit_objects[mark].start_time < h.start_time;
                if !locked && !in_the_way && h.in_hittable_range(frame.time) {
                    let error = (frame.time as i128 - h.start_time as i128) as i32;
                    hits.set(at, true);
                    out.push(Hit { target: at, error });
                    proof {
                        assert forall|j: int| 0 <= j < mark implies resolved(
                            objects,
                            hits@,
                            params,
                            time,
                            j,
                        ) by {
                            lemma_resolved_stays(objects, before, hits@, params, time, time, j);
                        }
                    }
                }
            },
        }
        k = k + 1;
    }
    proof {
        lemma_strategies_agree(objects, params, frames@, frames.len() as int);
    }
    out
}

} // verus!
