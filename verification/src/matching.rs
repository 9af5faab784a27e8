//! Which press hits which object.
//!
//! Presses are taken one at a time, in the order given. Each looks at the
//! objects in view at its time, lands on the first of them that passes the
//! hit test, and counts if the rules let it. An object is hit at most once.

use crate::difficulty::HitParams;
use crate::frames::{time_ordered, HitFrame};
use crate::guarantees::{
    distinct_targets, hits_in_range, in_target_order, lemma_each_object_hit_at_most_once,
    lemma_hits_bounded, lemma_hits_in_target_order, lemma_press_sets_one_flag,
};
use crate::hit_object::{in_view, time_sorted, Hit, HitObject};
use crate::hit_object_manager::HitObjectManager;
use crate::ruleset::{spec_click_action, ClickAction, Ruleset};
use vstd::prelude::*;

verus! {

/// Whether the press can land on object `i`: the object is in view and
/// passes the hit test.
pub open spec fn is_candidate(
    objects: Seq<HitObject>,
    hits: Seq<bool>,
    p: HitParams,
    frame: HitFrame,
    i: int,
) -> bool {
    &&& in_view(objects[i].start_time as int, frame.time as int, p.preempt as int)
    &&& objects[i].spec_hit_test(hits[i], frame, p)
}

/// The first object at or after `from` on which the press can land, or the
/// number of objects if there is none.
pub open spec fn first_candidate(
    objects: Seq<HitObject>,
    hits: Seq<bool>,
    p: HitParams,
    frame: HitFrame,
    from: int,
) -> int
    decreases objects.len() - from,
{
    if from >= objects.len() {
        objects.len() as int
    } else if is_candidate(objects, hits, p, frame, from) {
        from
    } else {
        first_candidate(objects, hits, p, frame, from + 1)
    }
}

/// The hit that a press at `frame` on object `i` records.
pub open spec fn hit_of(objects: Seq<HitObject>, frame: HitFrame, i: int) -> Hit {
    Hit { target: i as usize, error: (frame.time - objects[i].start_time) as i32 }
}

/// What one press does: the flags after it, and the hit if it counts. The
/// press lands on the first object on which it can land; if the rules let it
/// count, that object is marked and the hit recorded; otherwise nothing
/// changes.
pub open spec fn spec_press(
    objects: Seq<HitObject>,
    hits: Seq<bool>,
    p: HitParams,
    frame: HitFrame,
) -> (Seq<bool>, Option<Hit>) {
    let i = first_candidate(objects, hits, p, frame, 0);
    if i < objects.len() && spec_click_action(objects, hits, p, frame.time as int, i)
        == ClickAction::Hit {
        (hits.update(i, true), Some(hit_of(objects, frame, i)))
    } else {
        (hits, None)
    }
}

/// The flags and the hits after the first `k` presses, starting with no
/// object hit.
pub open spec fn spec_run(
    objects: Seq<HitObject>,
    p: HitParams,
    frames: Seq<HitFrame>,
    k: int,
) -> (Seq<bool>, Seq<Hit>)
    decreases k,
{
    if k <= 0 {
        (Seq::new(objects.len(), |i: int| false), Seq::empty())
    } else {
        let before = spec_run(objects, p, frames, k - 1);
        let step = spec_press(objects, before.0, p, frames[k - 1]);
        match step.1 {
            Some(hit) => (step.0, before.1.push(hit)),
            None => (step.0, before.1),
        }
    }
}

/// For each object, whether it has been hit after the first `k` presses.
pub open spec fn flags_after(
    objects: Seq<HitObject>,
    p: HitParams,
    frames: Seq<HitFrame>,
    k: int,
) -> Seq<bool> {
    spec_run(objects, p, frames, k).0
}

/// The hits of the first `k` presses, in the order of the presses.
pub open spec fn hits_after(
    objects: Seq<HitObject>,
    p: HitParams,
    frames: Seq<HitFrame>,
    k: int,
) -> Seq<Hit> {
    spec_run(objects, p, frames, k).1
}

/// The hits that the presses score on the objects, in the order of the
/// presses.
pub open spec fn spec_hits(
    objects: Seq<HitObject>,
    p: HitParams,
    frames: Seq<HitFrame>,
) -> Seq<Hit> {
    hits_after(objects, p, frames, frames.len() as int)
}

/// The timing errors of the hits, in the same order.
pub open spec fn errors_of(hits: Seq<Hit>) -> Seq<i32> {
    Seq::new(hits.len(), |i: int| hits[i].error)
}

/// If no object from `from` up to `i` is a candidate, and `i` is one or is
/// past the last object, then `i` is the first candidate from `from`.
pub proof fn lemma_first_candidate(
    objects: Seq<HitObject>,
    hits: Seq<bool>,
    p: HitParams,
    frame: HitFrame,
    from: int,
    i: int,
)
    requires
        0 <= from <= i <= objects.len(),
        forall|j: int| from <= j < i ==> !is_candidate(objects, hits, p, frame, j),
        i < objects.len() ==> is_candidate(objects, hits, p, frame, i),
    ensures
        first_candidate(objects, hits, p, frame, from) == i,
    decreases i - from,
{
    if from < i {
        lemma_first_candidate(objects, hits, p, frame, from + 1, i);
    }
}

/// The first candidate from `from` is a candidate or past the last object,
/// and no object between `from` and it is a candidate.
pub proof fn lemma_first_candidate_is_first(
    objects: Seq<HitObject>,
    hits: Seq<bool>,
    p: HitParams,
    frame: HitFrame,
    from: int,
)
    requires
        0 <= from <= objects.len(),
    ensures
        from <= first_candidate(objects, hits, p, frame, from) <= objects.len(),
        first_candidate(objects, hits, p, frame, from) < objects.len() ==> is_candidate(
            objects,
            hits,
            p,
            frame,
            first_candidate(objects, hits, p, frame, from),
        ),
        forall|j: int|
            from <= j < first_candidate(objects, hits, p, frame, from) ==> !is_candidate(
                objects,
                hits,
                p,
                frame,
                j,
            ),
    decreases objects.len() - from,
{
    if from < objects.len() && !is_candidate(objects, hits, p, frame, from) {
        lemma_first_candidate_is_first(objects, hits, p, frame, from + 1);
    }
}

impl<'h> HitObjectManager<'h> {
    /// Takes one press: moves the window to its time, finds the object it
    /// lands on, asks the rules, and marks the object if the press counts.
    pub fn press(&mut self, frame: &HitFrame) -> (r: Option<Hit>)
        requires
            old(self).wf(),
        ensures
            final(self).wf(),
            final(self).objects() == old(self).objects(),
            final(self).params() == old(self).params(),
            (final(self).hits(), r) == spec_press(
                old(self).objects(),
                old(self).hits(),
                old(self).params(),
                *frame,
            ),
            final(self).window_is(frame.time as int),
            forall|i: int|
                0 <= i < old(self).hits().len() && old(self).hits()[i]
                    ==> #[trigger] final(self).hits()[i],
            match r {
                Some(hit) => {
                    &&& hit.target < old(self).objects().len()
                    &&& !old(self).hits()[hit.target as int]
                    &&& final(self).hits() == old(self).hits().update(hit.target as int, true)
                    &&& hit.error == frame.time - old(self).objects()[hit.target as int].start_time
                },
                None => final(self).hits() == old(self).hits(),
            },
    {
        proof {
            old(self).lemma_well_formed();
            lemma_press_sets_one_flag(
                old(self).objects(),
                old(self).hits(),
                old(self).params(),
                *frame,
            );
        }
        self.update(frame.time);
        let ghost objects = self.objects();
        let ghost hits = self.hits();
        let ghost p = self.params();
        let ghost s = self.minimal_start();
        let ghost e = self.minimal_end();
        proof {
            self.lemma_well_formed();
            self.lemma_window_is_view(frame.time as int);
        }
        let found = match self.find_circle_at(frame) {
            Some((index, h)) => Some((index, *h)),
            None => None,
        };
        match found {
            None => {
                proof {
                    assert forall|j: int| 0 <= j < objects.len() implies !is_candidate(
                        objects,
                        hits,
                        p,
                        *frame,
                        j,
                    ) by {
                        if s <= j < e {
                            assert(!objects[j].spec_hit_test(hits[j], *frame, p));
                        }
                    }
                    lemma_first_candidate(objects, hits, p, *frame, 0, objects.len() as int);
                }
                None
            },
            Some((index, h)) => {
                let ghost i = s + index;
                proof {
                    assert forall|j: int| 0 <= j < i implies !is_candidate(
                        objects,
                        hits,
                        p,
                        *frame,
                        j,
                    ) by {
                        if s <= j {
                            assert(!objects[j].spec_hit_test(hits[j], *frame, p));
                        }
                    }
                    assert(is_candidate(objects, hits, p, *frame, i));
                    lemma_first_candidate(objects, hits, p, *frame, 0, i);
                }
                match Ruleset::check_click_action(&h, index, frame, self) {
                    ClickAction::Hit => {
                        let target = self.index_of(index);
                        let error = (frame.time as i128 - h.start_time as i128) as i32;
                        self.hit(index);
                        Some(Hit { target, error })
                    },
                    ClickAction::Ignore | ClickAction::Shake => None,
                }
            },
        }
    }
}

/// The hits that the presses score on the objects, in the order of the
/// presses. For every press the objects in view are found by two binary
/// searches and then looked through from the first.
pub fn collect_hits(hit_objects: &Vec<HitObject>, params: HitParams, frames: &Vec<HitFrame>) -> (r:
    Vec<Hit>)
    requires
        time_sorted(hit_objects@),
    ensures
        r@ == spec_hits(hit_objects@, params, frames@),
        r@.len() <= frames@.len(),
        hits_in_range(r@, hit_objects@.len() as int),
        distinct_targets(r@),
        time_ordered(frames@) ==> in_target_order(hit_objects@, r@),
{
    proof {
        let count = hit_objects.len();
        let k = frames@.len() as int;
        lemma_hits_bounded(hit_objects@, params, frames@, k);
        lemma_each_object_hit_at_most_once(hit_objects@, params, frames@, k);
        if time_ordered(frames@) {
            lemma_hits_in_target_order(hit_objects@, params, frames@, k);
        }
    }
    let mut manager = HitObjectManager::with_params(hit_objects, params);
    let mut out: Vec<Hit> = Vec::new();
    let mut k: usize = 0;
    while k < frames.len()
        invariant
            k <= frames.len(),
            manager.wf(),
            manager.objects() == hit_objects@,
            manager.params() == params,
            (manager.hits(), out@) == spec_run(hit_objects@, params, frames@, k as int),
        decreases frames.len() - k,
    {
        match manager.press(&frames[k]) {
            Some(hit) => {
                out.push(hit);
            },
            None => {},
        }
        k = k + 1;
    }
    out
}

} // verus!
