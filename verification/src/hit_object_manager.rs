//! The objects of a beatmap in order, which of them have been hit, and the
//! window of them that a press can reach.

use crate::difficulty::{
    spec_adjusted, spec_hit_window_50, spec_preempt, spec_radius_sq, HitParams,
};
use crate::frames::HitFrame;
use crate::hit_object::{in_view, time_sorted, HitObject};
use crate::models::Config;
use crate::mods::Mods;
use vstd::prelude::*;
use vstd::slice::slice_subrange;

verus! {

/// What the library reads of a beatmap.
pub struct Beatmap {
    /// Circle size, in thousandths of a point.
    pub cs: i32,
    /// Overall difficulty, in thousandths of a point.
    pub od: i32,
    /// Approach rate, in thousandths of a point.
    pub ar: i32,
    /// The objects in order of their start, with the modifiers of the
    /// replay (rate modifiers left out) already applied.
    pub hit_objects: Vec<HitObject>,
}

impl Beatmap {
    /// Whether the objects come in order of their start.
    pub open spec fn wf(&self) -> bool {
        time_sorted(self.hit_objects@)
    }

    /// Tells whether the objects come in order of their start.
    pub fn is_well_formed(&self) -> (r: bool)
        ensures
            r == self.wf(),
    {
        let n = self.hit_objects.len();
        if n < 2 {
            return true;
        }
        let mut k: usize = 1;
        while k < n
            invariant
                1 <= k <= n,
                n == self.hit_objects.len(),
                forall|i: int, j: int|
                    0 <= i <= j < k ==> self.hit_objects[i].start_time
                        <= self.hit_objects[j].start_time,
            decreases n - k,
        {
            if self.hit_objects[k - 1].start_time > self.hit_objects[k].start_time {
                return false;
            }
            k = k + 1;
        }
        true
    }
}

/// Whether the objects from `start` up to `end` are the view at `time`: the
/// objects before `start` start more than `preempt` before `time`, those
/// from `start` on do not, those from `start` up to `end` start no more than
/// `preempt` after `time`, and those from `end` on start later than that.
/// There is at most one such pair, and an object is between the two exactly
/// if it is in view.
pub open spec fn is_view(
    objects: Seq<HitObject>,
    preempt: int,
    time: int,
    start: int,
    end: int,
) -> bool {
    &&& 0 <= start <= end <= objects.len()
    &&& forall|i: int| 0 <= i < start ==> (#[trigger] objects[i]).start_time < time - preempt
    &&& forall|i: int|
        start <= i < objects.len() ==> (#[trigger] objects[i]).start_time >= time - preempt
    &&& forall|i: int| start <= i < end ==> (#[trigger] objects[i]).start_time <= time + preempt
    &&& forall|i: int|
        end <= i < objects.len() ==> (#[trigger] objects[i]).start_time > time + preempt
}

/// No two pairs of indices are the view at the same time.
pub proof fn lemma_view_is_unique(
    objects: Seq<HitObject>,
    preempt: int,
    time: int,
    start: int,
    end: int,
    other_start: int,
    other_end: int,
)
    requires
        is_view(objects, preempt, time, start, end),
        is_view(objects, preempt, time, other_start, other_end),
    ensures
        start == other_start,
        end == other_end,
{
    if start < other_start {
        assert(objects[start].start_time >= time - preempt);
    } else if other_start < start {
        assert(objects[other_start].start_time >= time - preempt);
    }
    if end < other_end {
        assert(objects[end].start_time > time + preempt);
    } else if other_end < end {
        assert(objects[other_end].start_time > time + preempt);
    }
}

/// The first index at or after `from` whose object starts at `key` or
/// later.
pub fn lower_bound(objects: &Vec<HitObject>, from: usize, key: i128) -> (r: usize)
    requires
        time_sorted(objects@),
        from <= objects.len(),
    ensures
        from <= r <= objects.len(),
        forall|i: int| from <= i < r ==> (#[trigger] objects[i]).start_time < key,
        forall|i: int| r <= i < objects.len() ==> (#[trigger] objects[i]).start_time >= key,
{
    let mut lo: usize = from;
    let mut hi: usize = objects.len();
    while lo < hi
        invariant
            from <= lo <= hi <= objects.len(),
            time_sorted(objects@),
            forall|i: int| from <= i < lo ==> (#[trigger] objects[i]).start_time < key,
            forall|i: int| hi <= i < objects.len() ==> (#[trigger] objects[i]).start_time >= key,
        decreases hi - lo,
    {
        let mid: usize = lo + (hi - lo) / 2;
        if (objects[mid].start_time as i128) < key {
            lo = mid + 1;
        } else {
            hi = mid;
        }
    }
    lo
}

/// The objects of a beatmap with a flag for each that tells whether it has
/// been hit, the numbers presses are judged by, and a window onto the
/// objects.
pub struct HitObjectManager<'h> {
    params: HitParams,
    minimal_start: usize,
    minimal_end: usize,
    hit_objects: &'h Vec<HitObject>,
    hits: Vec<bool>,
}

impl<'h> HitObjectManager<'h> {
    /// The objects, in order.
    pub closed spec fn objects(&self) -> Seq<HitObject> {
        self.hit_objects@
    }

    /// For each object, whether it has been hit.
    pub closed spec fn hits(&self) -> Seq<bool> {
        self.hits@
    }

    /// The numbers a press is judged by.
    pub closed spec fn params(&self) -> HitParams {
        self.params
    }

    /// Index of the first object in the window.
    pub closed spec fn minimal_start(&self) -> int {
        self.minimal_start as int
    }

    /// Index after the last object in the window.
    pub closed spec fn minimal_end(&self) -> int {
        self.minimal_end as int
    }

    /// Every object has its flag, the objects are in order of their start,
    /// and the window lies inside them.
    pub closed spec fn wf(&self) -> bool {
        &&& self.hits@.len() == self.hit_objects@.len()
        &&& time_sorted(self.hit_objects@)
        &&& self.minimal_start <= self.minimal_end <= self.hit_objects@.len()
    }

    /// Whether the window is the view at `time`.
    pub open spec fn window_is(&self, time: int) -> bool {
        is_view(
            self.objects(),
            self.params().preempt as int,
            time,
            self.minimal_start(),
            self.minimal_end(),
        )
    }

    /// There is one flag for each object, there are no more objects than a
    /// vector holds, the objects come in order of start, and the window lies
    /// within them.
    pub proof fn lemma_well_formed(&self)
        requires
            self.wf(),
        ensures
            self.hits().len() == self.objects().len(),
            self.objects().len() <= usize::MAX,
            time_sorted(self.objects()),
            0 <= self.minimal_start() <= self.minimal_end() <= self.objects().len(),
    {
        assert(self.hit_objects@.len() == self.hit_objects.len());
    }

    /// With the window at `time`, an object is in the window exactly if it
    /// is in view.
    pub proof fn lemma_window_is_view(&self, time: int)
        requires
            self.window_is(time),
        ensures
            forall|i: int|
                0 <= i < self.objects().len() ==> ((self.minimal_start() <= i < self.minimal_end())
                    <==> in_view(
                    (#[trigger] self.objects()[i]).start_time as int,
                    time,
                    self.params().preempt as int,
                )),
    {
    }

    /// A manager for the objects of `map`, none of them hit, judged by what
    /// the settings of `map` give under `mods`. The window is empty.
    pub fn new(map: &'h Beatmap, mods: Mods, config: Config) -> (r: Self)
        requires
            map.wf(),
        ensures
            r.wf(),
            r.objects() == map.hit_objects@,
            r.hits() == Seq::new(map.hit_objects@.len(), |i: int| false),
            r.params() == HitParams::spec_resolve(
                map.cs as int,
                map.od as int,
                map.ar as int,
                mods,
                config,
            ),
            r.params().radius_sq == spec_radius_sq(spec_adjusted(map.cs as int, 13, mods)),
            r.params().hit_window_50 == spec_hit_window_50(map.od as int, mods),
            r.params().preempt == spec_preempt(map.ar as int, mods),
            r.params().inclusive == config.inclusive_window,
            r.minimal_start() == 0,
            r.minimal_end() == 0,
    {
        let params = HitParams::resolve(map.cs, map.od, map.ar, mods, config);
        Self::with_params(&map.hit_objects, params)
    }

    /// A manager for `hit_objects`, none of them hit, judged by `params`.
    /// The window is empty.
    pub fn with_params(hit_objects: &'h Vec<HitObject>, params: HitParams) -> (r: Self)
        requires
            time_sorted(hit_objects@),
        ensures
            r.wf(),
            r.objects() == hit_objects@,
            r.hits() == Seq::new(hit_objects@.len(), |i: int| false),
            r.params() == params,
            r.minimal_start() == 0,
            r.minimal_end() == 0,
    {
        let n = hit_objects.len();
        let mut hits: Vec<bool> = Vec::new();
        let mut k: usize = 0;
        while k < n
            invariant
                k <= n,
                hits@ == Seq::new(k as nat, |i: int| false),
            decreases n - k,
        {
            hits.push(false);
            k = k + 1;
            assert(hits@ =~= Seq::new(k as nat, |i: int| false));
        }
        HitObjectManager { params, minimal_start: 0, minimal_end: 0, hit_objects, hits }
    }

    /// The numbers a press is judged by.
    pub fn get_params(&self) -> (r: HitParams)
        ensures
            r == self.params(),
    {
        self.params
    }

    /// For each object, whether it has been hit.
    pub fn consumed(&self) -> (r: &Vec<bool>)
        ensures
            r@ == self.hits(),
    {
        &self.hits
    }

    /// The view at `time`: the index of its first object and the index
    /// after its last, found by two binary searches.
    pub fn visible_range(&self, time: i64) -> (r: (usize, usize))
        requires
            self.wf(),
        ensures
            is_view(
                self.objects(),
                self.params().preempt as int,
                time as int,
                r.0 as int,
                r.1 as int,
            ),
    {
        let min_left: i128 = time as i128 - self.params.preempt as i128;
        let min_right: i128 = time as i128 + self.params.preempt as i128;
        let start = lower_bound(self.hit_objects, 0, min_left);
        let end = lower_bound(self.hit_objects, start, min_right + 1);
        (start, end)
    }

    /// Moves the window to the view at `time`.
    pub fn update(&mut self, time: i64)
        requires
            old(self).wf(),
        ensures
            final(self).wf(),
            final(self).window_is(time as int),
            final(self).objects() == old(self).objects(),
            final(self).hits() == old(self).hits(),
            final(self).params() == old(self).params(),
    {
        let (start, end) = self.visible_range(time);
        self.minimal_start = start;
        self.minimal_end = end;
    }

    /// The objects in the window.
    pub fn hit_objects_minimal(&self) -> (r: &[HitObject])
        requires
            self.wf(),
        ensures
            r@ == self.objects().subrange(self.minimal_start(), self.minimal_end()),
            r@.len() == self.minimal_end() - self.minimal_start(),
            0 <= self.minimal_start() <= self.minimal_end() <= self.objects().len(),
    {
        slice_subrange(self.hit_objects.as_slice(), self.minimal_start, self.minimal_end)
    }

    /// Whether the object at `index` of the window has been hit.
    pub fn is_hit(&self, index: usize) -> (r: bool)
        requires
            self.wf(),
            self.minimal_start() + index < self.minimal_end(),
        ensures
            r == self.hits()[self.minimal_start() + index],
    {
        self.hits[self.minimal_start + index]
    }

    /// The object that stands before the one at `index` of the window in the
    /// whole list, with its flag, whether or not it is in the window; nothing
    /// if the one at `index` is the first of all.
    pub fn previous(&self, index: usize) -> (r: Option<(&HitObject, bool)>)
        requires
            self.wf(),
            self.minimal_start() + index < self.minimal_end(),
        ensures
            match r {
                Some((h, is_hit)) => {
                    let i = self.minimal_start() + index;
                    &&& i > 0
                    &&& *h == self.objects()[i - 1]
                    &&& is_hit == self.hits()[i - 1]
                },
                None => self.minimal_start() + index == 0,
            },
    {
        let i: usize = self.minimal_start + index;
        if i == 0 {
            None
        } else {
            Some((&self.hit_objects[i - 1], self.hits[i - 1]))
        }
    }

    /// The place among all objects of the object at `index` of the window.
    pub fn index_of(&self, index: usize) -> (r: usize)
        requires
            self.wf(),
            self.minimal_start() + index < self.minimal_end(),
        ensures
            r == self.minimal_start() + index,
    {
        self.minimal_start + index
    }

    /// The first object of the window on which the press lands, with its
    /// index in the window.
    pub fn find_circle_at(&self, frame: &HitFrame) -> (r: Option<(usize, &HitObject)>)
        requires
            self.wf(),
        ensures
            match r {
                Some((index, h)) => {
                    let i = self.minimal_start() + index;
                    &&& i < self.minimal_end()
                    &&& *h == self.objects()[i]
                    &&& h.spec_hit_test(self.hits()[i], *frame, self.params())
                    &&& forall|j: int|
                        self.minimal_start() <= j < i ==> !(
                        #[trigger] self.objects()[j]).spec_hit_test(
                            self.hits()[j],
                            *frame,
                            self.params(),
                        )
                },
                None => forall|j: int|
                    self.minimal_start() <= j < self.minimal_end() ==> !(
                    #[trigger] self.objects()[j]).spec_hit_test(
                        self.hits()[j],
                        *frame,
                        self.params(),
                    ),
            },
    {
        let mut index: usize = 0;
        let len: usize = self.minimal_end - self.minimal_start;
        while index < len
            invariant
                self.wf(),
                index <= len,
                len == self.minimal_end - self.minimal_start,
                forall|j: int|
                    self.minimal_start() <= j < self.minimal_start() + index ==> !(
                    #[trigger] self.objects()[j]).spec_hit_test(
                        self.hits()[j],
                        *frame,
                        self.params(),
                    ),
            decreases len - index,
        {
            let i: usize = self.minimal_start + index;
            let h = &self.hit_objects[i];
            if h.hit_test(self.hits[i], frame, &self.params) {
                return Some((index, h));
            }
            index = index + 1;
        }
        None
    }

    /// Marks the object at `index` of the window as hit. Every other flag
    /// stays as it is, so no flag is cleared, and marking twice is marking
    /// once.
    pub fn hit(&mut self, index: usize)
        requires
            old(self).wf(),
            old(self).minimal_start() + index < old(self).minimal_end(),
        ensures
            final(self).wf(),
            final(self).hits() == old(self).hits().update(
                old(self).minimal_start() + index,
                true,
            ),
            final(self).hits().len() == old(self).hits().len(),
            final(self).hits()[old(self).minimal_start() + index],
            forall|j: int|
                0 <= j < old(self).hits().len() && j != old(self).minimal_start() + index
                    ==> #[trigger] final(self).hits()[j] == old(self).hits()[j],
            forall|j: int|
                0 <= j < old(self).hits().len() && old(self).hits()[j]
                    ==> #[trigger] final(self).hits()[j],
            old(self).hits()[old(self).minimal_start() + index] ==> final(self).hits() == old(
                self,
            ).hits(),
            final(self).objects() == old(self).objects(),
            final(self).params() == old(self).params(),
            final(self).minimal_start() == old(self).minimal_start(),
            final(self).minimal_end() == old(self).minimal_end(),
    {
        let i: usize = self.minimal_start + index;
        self.hits.set(i, true);
        assert(old(self).hits@[i as int] ==> self.hits@ =~= old(self).hits@);
    }
}

} // verus!
