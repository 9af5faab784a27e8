//! Hit objects and the tests a single object answers.

use crate::difficulty::HitParams;
use crate::frames::{HitFrame, Pos};
use vstd::prelude::*;

verus! {

/// A press further than this from an object's start, in milliseconds, only
/// shakes it.
pub const HITTABLE_RANGE: i64 = 400;

/// How long before its start a spinner is on screen, in milliseconds.
pub const FADE_IN: i64 = 400;

/// How long after its start or end a circle or slider stays on screen, in
/// milliseconds.
pub const FADE_OUT: i64 = 240;

/// What sort of object it is.
#[derive(Copy, Clone, Debug, PartialEq, Eq, Structural)]
pub enum HitObjectKind {
    /// Pressed at one instant.
    Circle,
    /// Pressed at its start and held until `end_time`.
    Slider { end_time: i64 },
    /// Never pressed; it keeps its place in the order and can lock the
    /// objects after it.
    Spinner { end_time: i64 },
}

/// One object of a beatmap, with the modifiers already applied to it.
#[derive(Copy, Clone, Debug, PartialEq, Eq, Structural)]
pub struct HitObject {
    /// When it is due, in milliseconds.
    pub start_time: i64,
    /// Where it is, stacking applied.
    pub pos: Pos,
    /// How far up a stack it sits; zero or less for an object that is not
    /// stacked.
    pub stack_count: i32,
    pub kind: HitObjectKind,
}

/// A press credited to an object.
#[derive(Copy, Clone, Debug, PartialEq, Eq, Structural)]
pub struct Hit {
    /// Index of the object in the beatmap.
    pub target: usize,
    /// Press time minus the object's start, in milliseconds.
    pub error: i32,
}

/// Whether an object that starts at `start` is in the window of objects that
/// a press at `time` can reach: no more than `preempt` before or after it.
pub open spec fn in_view(start: int, time: int, preempt: int) -> bool {
    time - preempt <= start <= time + preempt
}

/// Whether the objects come in order of their start.
pub open spec fn time_sorted(objects: Seq<HitObject>) -> bool {
    forall|i: int, j: int|
        0 <= i <= j < objects.len() ==> objects[i].start_time <= objects[j].start_time
}

impl HitObject {
    /// Whether the late edge of the hit window has not passed at `time`.
    pub open spec fn spec_still_due(self, time: int, p: HitParams) -> bool {
        if p.inclusive {
            time <= self.start_time + p.hit_window_50
        } else {
            time < self.start_time + p.hit_window_50
        }
    }

    /// Whether the object is on screen at `time`. A circle is from `preempt`
    /// before its start until `FADE_OUT` after it, a slider until `FADE_OUT`
    /// after its end, a spinner from `FADE_IN` before its start until its
    /// end.
    pub open spec fn spec_is_visible(self, time: int, preempt: int) -> bool {
        match self.kind {
            HitObjectKind::Circle => self.start_time - preempt <= time <= self.start_time
                + FADE_OUT,
            HitObjectKind::Slider { end_time } => self.start_time - preempt <= time <= end_time
                + FADE_OUT,
            HitObjectKind::Spinner { end_time } => self.start_time - FADE_IN <= time <= end_time,
        }
    }

    /// Whether the press lands on the object: it is not a spinner, it has
    /// not been hit, the press comes no earlier than `preempt` before its
    /// start and before the late edge of its hit window, and the cursor is
    /// within the hit radius.
    pub open spec fn spec_hit_test(self, is_hit: bool, frame: HitFrame, p: HitParams) -> bool {
        &&& !(self.kind is Spinner)
        &&& !is_hit
        &&& self.start_time - p.preempt <= frame.time
        &&& self.spec_still_due(frame.time as int, p)
        &&& frame.pos.spec_dist_sq(self.pos) <= p.radius_sq
    }

    /// Whether the press is close enough in time to count rather than shake.
    pub open spec fn spec_in_hittable_range(self, time: int) -> bool {
        -HITTABLE_RANGE < self.start_time - time < HITTABLE_RANGE
    }

    /// An object with the given fields.
    pub fn new(start_time: i64, pos: Pos, stack_count: i32, kind: HitObjectKind) -> (r: HitObject)
        ensures
            r == (HitObject { start_time, pos, stack_count, kind }),
    {
        HitObject { start_time, pos, stack_count, kind }
    }

    /// When it is due, in milliseconds.
    pub fn start_time(&self) -> (r: i64)
        ensures
            r == self.start_time,
    {
        self.start_time
    }

    /// Where it is, stacking applied.
    pub fn pos(&self) -> (r: Pos)
        ensures
            r == self.pos,
    {
        self.pos
    }

    /// How far up a stack it sits.
    pub fn stack_count(&self) -> (r: i32)
        ensures
            r == self.stack_count,
    {
        self.stack_count
    }

    /// Whether it is a circle.
    pub fn is_normal(&self) -> (r: bool)
        ensures
            r == (self.kind is Circle),
    {
        match self.kind {
            HitObjectKind::Circle => true,
            _ => false,
        }
    }

    /// Whether it is a slider.
    pub fn is_slider(&self) -> (r: bool)
        ensures
            r == (self.kind is Slider),
    {
        match self.kind {
            HitObjectKind::Slider { .. } => true,
            _ => false,
        }
    }

    /// Whether it is a spinner.
    pub fn is_spinner(&self) -> (r: bool)
        ensures
            r == (self.kind is Spinner),
    {
        match self.kind {
            HitObjectKind::Spinner { .. } => true,
            _ => false,
        }
    }

    /// The end of a slider; nothing for a circle or a spinner.
    pub fn slider_end_time(&self) -> (r: Option<i64>)
        ensures
            r == (match self.kind {
                HitObjectKind::Slider { end_time } => Some(end_time),
                _ => None::<i64>,
            }),
    {
        match self.kind {
            HitObjectKind::Slider { end_time } => Some(end_time),
            _ => None,
        }
    }

    /// Whether the late edge of the hit window has not passed at `time`.
    pub fn still_due(&self, time: i64, p: &HitParams) -> (r: bool)
        ensures
            r == self.spec_still_due(time as int, *p),
    {
        let edge: i128 = self.start_time as i128 + p.hit_window_50 as i128;
        if p.inclusive {
            time as i128 <= edge
        } else {
            (time as i128) < edge
        }
    }

    /// Whether the object is on screen at `time`.
    pub fn is_visible(&self, time: i64, preempt: i32) -> (r: bool)
        ensures
            r == self.spec_is_visible(time as int, preempt as int),
    {
        let t: i128 = time as i128;
        let start: i128 = self.start_time as i128;
        match self.kind {
            HitObjectKind::Circle => start - preempt as i128 <= t && t <= start + FADE_OUT as i128,
            HitObjectKind::Slider { end_time } => start - preempt as i128 <= t && t
                <= end_time as i128 + FADE_OUT as i128,
            HitObjectKind::Spinner { end_time } => start - FADE_IN as i128 <= t && t
                <= end_time as i128,
        }
    }

    /// Whether the press lands on the object, `is_hit` telling whether the
    /// object has been hit before.
    pub fn hit_test(&self, is_hit: bool, frame: &HitFrame, p: &HitParams) -> (r: bool)
        ensures
            r == self.spec_hit_test(is_hit, *frame, *p),
    {
        if is_hit || self.is_spinner() {
            return false;
        }
        let matches_time = self.start_time as i128 - p.preempt as i128 <= frame.time as i128
            && self.still_due(frame.time, p);
        let matches_pos = frame.pos.dist_sq(self.pos) <= p.radius_sq;
        matches_time && matches_pos
    }

    /// Whether the press is close enough in time to count rather than shake.
    pub fn in_hittable_range(&self, time: i64) -> (r: bool)
        ensures
            r == self.spec_in_hittable_range(time as int),
    {
        let d: i128 = self.start_time as i128 - time as i128;
        -(HITTABLE_RANGE as i128) < d && d < HITTABLE_RANGE as i128
    }
}

} // verus!
