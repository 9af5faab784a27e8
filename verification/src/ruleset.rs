//! Whether a press that lands on an object is allowed to count.

use crate::difficulty::HitParams;
use crate::frames::HitFrame;
use crate::hit_object::{in_view, time_sorted, HitObject};
use crate::hit_object_manager::{is_view, HitObjectManager};
use vstd::prelude::*;

verus! {

/// What becomes of a press that lands on an object.
#[derive(Copy, Clone, Debug, PartialEq, Eq, Structural)]
pub enum ClickAction {
    /// The object sits on a stack whose lower object is still waiting; the
    /// press is dropped.
    Ignore,
    /// An earlier object must be hit first, or the press is too far from
    /// the object in time; the press is dropped.
    Shake,
    /// The press counts.
    Hit,
}

/// Whether object `i` is locked by the object before it in the list: that
/// one sits on a stack, is on screen and has not been hit. Whether that one
/// is still in view does not matter: a long slider locks until it has faded
/// out.
pub open spec fn note_locked(
    objects: Seq<HitObject>,
    hits: Seq<bool>,
    p: HitParams,
    time: int,
    i: int,
) -> bool {
    &&& i > 0
    &&& objects[i - 1].stack_count > 0
    &&& objects[i - 1].spec_is_visible(time, p.preempt as int)
    &&& !hits[i - 1]
}

/// Whether object `j` stands in the way of object `i`: it is another object
/// in view that has not been hit, whose hit window is still open, and that
/// starts strictly before `i`.
pub open spec fn blocks(
    objects: Seq<HitObject>,
    hits: Seq<bool>,
    p: HitParams,
    time: int,
    i: int,
    j: int,
) -> bool {
    &&& 0 <= j < objects.len()
    &&& j != i
    &&& in_view(objects[j].start_time as int, time, p.preempt as int)
    &&& !hits[j]
    &&& objects[j].spec_still_due(time, p)
    &&& objects[j].start_time < objects[i].start_time
}

/// Whether some object stands in the way of object `i`.
pub open spec fn order_locked(
    objects: Seq<HitObject>,
    hits: Seq<bool>,
    p: HitParams,
    time: int,
    i: int,
) -> bool {
    exists|j: int| blocks(objects, hits, p, time, i, j)
}

/// What becomes of a press at `time` that lands on object `i`.
pub open spec fn spec_click_action(
    objects: Seq<HitObject>,
    hits: Seq<bool>,
    p: HitParams,
    time: int,
    i: int,
) -> ClickAction {
    if note_locked(objects, hits, p, time, i) {
        ClickAction::Ignore
    } else if !order_locked(objects, hits, p, time, i) && objects[i].spec_in_hittable_range(time) {
        ClickAction::Hit
    } else {
        ClickAction::Shake
    }
}

/// Whether object `j` of the window from `start` up to `end` stands in the
/// way of object `i`: it is another object of the window that has not been
/// hit, whose hit window is still open, and that starts strictly before `i`.
pub open spec fn blocks_within(
    objects: Seq<HitObject>,
    hits: Seq<bool>,
    p: HitParams,
    time: int,
    start: int,
    end: int,
    i: int,
    j: int,
) -> bool {
    &&& start <= j < end
    &&& j != i
    &&& !hits[j]
    &&& objects[j].spec_still_due(time, p)
    &&& objects[j].start_time < objects[i].start_time
}

/// Whether some object of the window from `start` up to `end` stands in the
/// way of object `i`.
pub open spec fn order_locked_within(
    objects: Seq<HitObject>,
    hits: Seq<bool>,
    p: HitParams,
    time: int,
    start: int,
    end: int,
    i: int,
) -> bool {
    exists|j: int| blocks_within(objects, hits, p, time, start, end, i, j)
}

/// What becomes of a press at `time` that lands on object `i`, when the
/// objects from `start` up to `end` are taken for the ones in view.
pub open spec fn click_action_within(
    objects: Seq<HitObject>,
    hits: Seq<bool>,
    p: HitParams,
    time: int,
    start: int,
    end: int,
    i: int,
) -> ClickAction {
    if note_locked(objects, hits, p, time, i) {
        ClickAction::Ignore
    } else if !order_locked_within(objects, hits, p, time, start, end, i)
        && objects[i].spec_in_hittable_range(time) {
        ClickAction::Hit
    } else {
        ClickAction::Shake
    }
}

/// When the objects from `start` up to `end` are the view at `time`, the
/// rule on them is the rule.
pub proof fn lemma_rule_on_the_view(
    objects: Seq<HitObject>,
    hits: Seq<bool>,
    p: HitParams,
    time: int,
    start: int,
    end: int,
    i: int,
)
    requires
        is_view(objects, p.preempt as int, time, start, end),
    ensures
        order_locked_within(objects, hits, p, time, start, end, i) == order_locked(
            objects,
            hits,
            p,
            time,
            i,
        ),
        click_action_within(objects, hits, p, time, start, end, i) == spec_click_action(
            objects,
            hits,
            p,
            time,
            i,
        ),
{
    if order_locked_within(objects, hits, p, time, start, end, i) {
        let j = choose|j: int| blocks_within(objects, hits, p, time, start, end, i, j);
        assert(objects[j].start_time >= time - p.preempt);
        assert(blocks(objects, hits, p, time, i, j));
    }
    if order_locked(objects, hits, p, time, i) {
        let j = choose|j: int| blocks(objects, hits, p, time, i, j);
        if j < start {
            assert(objects[j].start_time < time - p.preempt);
        }
        if j >= end {
            assert(objects[j].start_time > time + p.preempt);
        }
        assert(blocks_within(objects, hits, p, time, start, end, i, j));
    }
}

/// The rules of the stable client.
pub struct Ruleset;

impl Ruleset {
    /// Decides what becomes of a press that lands on `h`, the object at
    /// `index` of the manager's window.
    ///
    /// The press is ignored if the object before `h` in the whole list sits
    /// on a stack, is on screen and has not been hit. Otherwise it shakes if
    /// an object of the window stands in the way, or if it is too far from
    /// `h` in time. Otherwise it is a hit. With the window at the time of
    /// the press, the objects of the window are the objects in view.
    pub fn check_click_action(
        h: &HitObject,
        index: usize,
        frame: &HitFrame,
        manager: &HitObjectManager<'_>,
    ) -> (r: ClickAction)
        requires
            manager.wf(),
            manager.minimal_start() + index < manager.minimal_end(),
            *h == manager.objects()[manager.minimal_start() + index],
        ensures
            r == click_action_within(
                manager.objects(),
                manager.hits(),
                manager.params(),
                frame.time as int,
                manager.minimal_start(),
                manager.minimal_end(),
                manager.minimal_start() + index,
            ),
            manager.window_is(frame.time as int) ==> r == spec_click_action(
                manager.objects(),
                manager.hits(),
                manager.params(),
                frame.time as int,
                manager.minimal_start() + index,
            ),
            note_locked(
                manager.objects(),
                manager.hits(),
                manager.params(),
                frame.time as int,
                manager.minimal_start() + index,
            ) ==> r == ClickAction::Ignore,
            !note_locked(
                manager.objects(),
                manager.hits(),
                manager.params(),
                frame.time as int,
                manager.minimal_start() + index,
            ) && order_locked_within(
                manager.objects(),
                manager.hits(),
                manager.params(),
                frame.time as int,
                manager.minimal_start(),
                manager.minimal_end(),
                manager.minimal_start() + index,
            ) ==> r == ClickAction::Shake,
            !h.spec_in_hittable_range(frame.time as int) ==> r != ClickAction::Hit,
            forall|j: int|
                manager.minimal_start() <= j < manager.minimal_end()
                    && j != manager.minimal_start() + index
                    && !manager.hits()[j]
                    && (#[trigger] manager.objects()[j]).spec_still_due(
                    frame.time as int,
                    manager.params(),
                ) && manager.objects()[j].start_time < h.start_time ==> r != ClickAction::Hit,
    {
        let p = manager.get_params();
        let window = manager.hit_objects_minimal();
        let ghost s = manager.minimal_start();
        let ghost e = manager.minimal_end();
        let ghost i = s + index;
        let ghost objects = manager.objects();
        let ghost hits = manager.hits();
        let ghost time = frame.time as int;
        proof {
            manager.lemma_well_formed();
            if manager.window_is(time) {
                lemma_rule_on_the_view(objects, hits, p, time, s, e, i);
            }
        }
        match manager.previous(index) {
            Some((prev, prev_hit)) => {
                if prev.stack_count() > 0 && prev.is_visible(frame.time, p.preempt) && !prev_hit {
                    return ClickAction::Ignore;
                }
            },
            None => {},
        }
        assert(!note_locked(objects, hits, p, time, i));
        let mut is_next_circle = true;
        let mut j: usize = 0;
        while j < window.len()
            invariant_except_break
                is_next_circle,
                forall|k: int|
                    s <= k < s + j ==> hits[k] || !(#[trigger] objects[k]).spec_still_due(time, p),
            invariant
                manager.wf(),
                j <= window.len(),
                window@ == objects.subrange(s, e),
                s == manager.minimal_start(),
                e == manager.minimal_end(),
                0 <= s <= e <= objects.len(),
                objects == manager.objects(),
                hits == manager.hits(),
                p == manager.params(),
                i == s + index,
                s + index < e,
                *h == objects[i],
                time == frame.time as int,
                time_sorted(objects),
                hits.len() == objects.len(),
            ensures
                is_next_circle == !order_locked_within(objects, hits, p, time, s, e, i),
            decreases window.len() - j,
        {
            let t = &window[j];
            assert(*t == objects[s + j]);
            if !t.still_due(frame.time, &p) || manager.is_hit(j) {
                j = j + 1;
                continue ;
            }
            if t.start_time() < h.start_time() && index != j {
                is_next_circle = false;
                assert(blocks_within(objects, hits, p, time, s, e, i, s + j));
            } else {
                assert forall|k: int| !blocks_within(objects, hits, p, time, s, e, i, k) by {
                    if blocks_within(objects, hits, p, time, s, e, i, k) {
                        if k < s + j {
                            assert(hits[k] || !objects[k].spec_still_due(time, p));
                        } else {
                            assert(objects[s + j].start_time <= objects[k].start_time);
                        }
                    }
                }
            }
            break ;
        }
        proof {
            if is_next_circle && j >= window.len() {
                assert forall|k: int| !blocks_within(objects, hits, p, time, s, e, i, k) by {
                    if blocks_within(objects, hits, p, time, s, e, i, k) {
                        assert(hits[k] || !objects[k].spec_still_due(time, p));
                    }
                }
            }
        }
        proof {
            if is_next_circle {
                assert forall|k: int|
                    s <= k < e && k != i && !hits[k] && (#[trigger] objects[k]).spec_still_due(
                        time,
                        p,
                    ) implies objects[k].start_time >= h.start_time by {
                    if objects[k].start_time < h.start_time {
                        assert(blocks_within(objects, hits, p, time, s, e, i, k));
                    }
                }
            }
        }
        if is_next_circle && h.in_hittable_range(frame.time) {
            ClickAction::Hit
        } else {
            ClickAction::Shake
        }
    }
}

} // verus!
