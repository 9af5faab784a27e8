//! From the raw records of a replay to the presses in it.
//!
//! A replay is a list of records, each with the milliseconds since the record
//! before it, a cursor position and a button mask. A press is a record in
//! which a button goes down.

use crate::models::{mask_double_press, mask_new_press, normalized, Buttons, Config, InputError};
use crate::mods::Mods;
use vstd::prelude::*;

verus! {

/// The delta of a record that marks a seek and carries no input.
pub const SENTINEL_DELTA: i32 = -12345;

/// Horizontal coordinate of the two frames that the client writes before
/// play starts, in thousandths of an osu!pixel.
pub const PLACEHOLDER_X: i32 = 256_000;

/// Vertical coordinate of those frames.
pub const PLACEHOLDER_Y: i32 = 500_000;

/// A point of the playfield, in thousandths of an osu!pixel.
#[derive(Copy, Clone, Debug, PartialEq, Eq, Structural)]
pub struct Pos {
    pub x: i32,
    pub y: i32,
}

impl Pos {
    /// The square of the distance between the two points.
    pub open spec fn spec_dist_sq(self, other: Pos) -> int {
        (self.x - other.x) * (self.x - other.x) + (self.y - other.y) * (self.y - other.y)
    }

    /// The square of the distance between the two points.
    pub fn dist_sq(&self, other: Pos) -> (r: u128)
        ensures
            r == self.spec_dist_sq(other),
    {
        let dx: i128 = self.x as i128 - other.x as i128;
        let dy: i128 = self.y as i128 - other.y as i128;
        assert(0 <= dx * dx <= 0x1_0000_0000 * 0x1_0000_0000) by (nonlinear_arith)
            requires
                -0x1_0000_0000 <= dx <= 0x1_0000_0000,
        ;
        assert(0 <= dy * dy <= 0x1_0000_0000 * 0x1_0000_0000) by (nonlinear_arith)
            requires
                -0x1_0000_0000 <= dy <= 0x1_0000_0000,
        ;
        (dx * dx + dy * dy) as u128
    }
}

/// One record of a replay.
#[derive(Copy, Clone, Debug, PartialEq, Eq, Structural)]
pub struct Action {
    /// Milliseconds since the record before.
    pub delta: i32,
    /// Cursor position, in thousandths of an osu!pixel.
    pub x: i32,
    pub y: i32,
    /// The buttons held down, as the client wrote them.
    pub buttons: u8,
}

/// What the library reads of a replay.
pub struct Replay {
    /// The modifiers the replay was played with.
    pub mods: Mods,
    /// The input track, if the replay has one.
    pub replay_data: Option<Vec<Action>>,
}

/// A press: when and where a button went down.
#[derive(Copy, Clone, Debug, PartialEq, Eq, Structural)]
pub struct HitFrame {
    /// Milliseconds since the start of the replay.
    pub time: i64,
    pub pos: Pos,
}

/// Whether the record is a seek marker.
pub open spec fn is_sentinel(a: Action) -> bool {
    a.delta == SENTINEL_DELTA
}

/// Whether record `k` is one of the two frames written before play starts.
pub open spec fn is_placeholder(a: Action, k: int) -> bool {
    k < 2 && a.x == PLACEHOLDER_X && a.y == PLACEHOLDER_Y
}

/// The time after the first `k` records: the sum of their deltas, seek
/// markers left out.
pub open spec fn elapsed(actions: Seq<Action>, k: int) -> int
    decreases k,
{
    if k <= 0 {
        0
    } else if is_sentinel(actions[k - 1]) {
        elapsed(actions, k - 1)
    } else {
        elapsed(actions, k - 1) + actions[k - 1].delta
    }
}

/// The normalized button mask in force before record `k`: that of the last
/// record before it that is no seek marker, or nothing held.
pub open spec fn held_before(actions: Seq<Action>, k: int) -> u8
    decreases k,
{
    if k <= 0 {
        0
    } else if is_sentinel(actions[k - 1]) {
        held_before(actions, k - 1)
    } else {
        normalized(actions[k - 1].buttons)
    }
}

/// Whether record `k` is a press: it is no seek marker, time does not run
/// backwards in it, a button goes down in it, and it is not one of the
/// frames written before play starts.
pub open spec fn press_at(actions: Seq<Action>, k: int) -> bool {
    let a = actions[k];
    &&& !is_sentinel(a)
    &&& a.delta >= 0
    &&& mask_new_press(normalized(a.buttons), held_before(actions, k))
    &&& !is_placeholder(a, k)
}

/// Whether a left and a right button go down together in record `k`.
pub open spec fn double_press_at(actions: Seq<Action>, k: int) -> bool {
    mask_double_press(normalized(actions[k].buttons), held_before(actions, k))
}

/// The press that record `k` gives, if it gives one.
pub open spec fn frame_at(actions: Seq<Action>, k: int) -> HitFrame {
    HitFrame {
        time: elapsed(actions, k + 1) as i64,
        pos: Pos { x: actions[k].x, y: actions[k].y },
    }
}

/// The presses among the first `k` records, in order. With `split`, a record
/// in which a left and a right button go down together gives its press
/// twice.
pub open spec fn frames_of(actions: Seq<Action>, k: int, split: bool) -> Seq<HitFrame>
    decreases k,
{
    if k <= 0 {
        Seq::empty()
    } else {
        let rest = frames_of(actions, k - 1, split);
        if !press_at(actions, k - 1) {
            rest
        } else if split && double_press_at(actions, k - 1) {
            rest.push(frame_at(actions, k - 1)).push(frame_at(actions, k - 1))
        } else {
            rest.push(frame_at(actions, k - 1))
        }
    }
}

/// Whether the presses come in order of time.
pub open spec fn time_ordered(frames: Seq<HitFrame>) -> bool {
    forall|i: int, j: int| 0 <= i <= j < frames.len() ==> frames[i].time <= frames[j].time
}

/// Whether no record but a seek marker runs time backwards.
pub open spec fn never_rewinds(actions: Seq<Action>) -> bool {
    forall|i: int|
        0 <= i < actions.len() ==> is_sentinel(#[trigger] actions[i]) || actions[i].delta >= 0
}

/// The elapsed time stays within what `k` deltas can add up to.
pub proof fn lemma_elapsed_bounds(actions: Seq<Action>, k: int)
    requires
        0 <= k <= actions.len(),
    ensures
        -0x8000_0000 * k <= elapsed(actions, k) <= 0x7fff_ffff * k,
    decreases k,
{
    if k > 0 {
        lemma_elapsed_bounds(actions, k - 1);
    }
}

/// Without rewinds the elapsed time never falls.
pub proof fn lemma_elapsed_monotonic(actions: Seq<Action>, i: int, j: int)
    requires
        never_rewinds(actions),
        0 <= i <= j <= actions.len(),
    ensures
        elapsed(actions, i) <= elapsed(actions, j),
    decreases j - i,
{
    if i < j {
        lemma_elapsed_monotonic(actions, i, j - 1);
        assert(is_sentinel(actions[j - 1]) || actions[j - 1].delta >= 0);
    }
}

/// Every press among the first `k` records carries the elapsed time of some
/// record among them.
proof fn lemma_frames_times(actions: Seq<Action>, k: int, split: bool)
    requires
        never_rewinds(actions),
        0 <= k <= actions.len(),
        actions.len() <= i32::MAX,
    ensures
        forall|i: int|
            0 <= i < frames_of(actions, k, split).len() ==> (#[trigger] frames_of(
                actions,
                k,
                split,
            )[i]).time <= elapsed(actions, k),
        time_ordered(frames_of(actions, k, split)),
    decreases k,
{
    if k > 0 {
        lemma_frames_times(actions, k - 1, split);
        lemma_elapsed_monotonic(actions, k - 1, k);
        lemma_elapsed_bounds(actions, k);
        let rest = frames_of(actions, k - 1, split);
        let all = frames_of(actions, k, split);
        let f = frame_at(actions, k - 1);
        assert(f.time == elapsed(actions, k));
        assert forall|i: int, j: int| 0 <= i <= j < all.len() implies all[i].time
            <= all[j].time by {
            if j < rest.len() {
                assert(all[i] == rest[i]);
                assert(all[j] == rest[j]);
            } else if i < rest.len() {
                assert(all[i] == rest[i]);
                assert(all[j] == f);
            } else {
                assert(all[i] == f);
                assert(all[j] == f);
            }
        }
        assert forall|i: int| 0 <= i < all.len() implies (#[trigger] all[i]).time <= elapsed(
            actions,
            k,
        ) by {
            if i < rest.len() {
                assert(all[i] == rest[i]);
            } else {
                assert(all[i] == f);
            }
        }
    }
}

/// A replay whose time never runs backwards gives its presses in order of
/// time.
pub proof fn lemma_presses_time_ordered(actions: Seq<Action>, split: bool)
    requires
        never_rewinds(actions),
        actions.len() <= i32::MAX,
    ensures
        time_ordered(frames_of(actions, actions.len() as int, split)),
{
    lemma_frames_times(actions, actions.len() as int, split);
}

/// A record gives at most two presses.
pub proof fn lemma_frames_count(actions: Seq<Action>, k: int, split: bool)
    requires
        0 <= k,
    ensures
        frames_of(actions, k, split).len() <= 2 * k,
    decreases k,
{
    if k > 0 {
        lemma_frames_count(actions, k - 1, split);
    }
}

/// The press extractor.
pub struct HitFrames;

impl HitFrames {
    /// The presses of a replay, in the order of its records.
    ///
    /// Seek markers are dropped before anything else. Every other record
    /// advances the clock by its delta and replaces the buttons held; it is a
    /// press if a button goes down in it, its delta is not negative, and it is
    /// not one of the two frames at (256, 500) that the client writes first.
    /// Key bits are normalized, never refused. The presses come in order of
    /// time if no record runs time backwards; a replay that rewinds can give
    /// a press that is earlier than the one before it.
    ///
    /// The input track may hold at most `i32::MAX` records, so that the
    /// clock fits in 64 bits.
    pub fn from_replay(replay: &Replay, config: Config) -> (r: Result<Vec<HitFrame>, InputError>)
        requires
            replay.replay_data matches Some(data) ==> data.len() <= i32::MAX,
        ensures
            match r {
                Ok(frames) => {
                    &&& replay.replay_data matches Some(data) && frames@ == frames_of(
                        data@,
                        data.len() as int,
                        config.split_double_presses,
                    ) && (never_rewinds(data@) ==> time_ordered(frames@))
                    &&& frames@.len() <= 2 * i32::MAX
                },
                Err(e) => replay.replay_data is None && e == InputError::MissingReplayData,
            },
    {
        match &replay.replay_data {
            None => Err(InputError::MissingReplayData),
            Some(data) => {
                proof {
                    lemma_frames_count(data@, data.len() as int, config.split_double_presses);
                    if never_rewinds(data@) {
                        lemma_presses_time_ordered(data@, config.split_double_presses);
                    }
                }
                let mut frames: Vec<HitFrame> = Vec::new();
                let mut time: i64 = 0;
                let mut prev: Buttons = Buttons::default();
                let mut k: usize = 0;
                while k < data.len()
                    invariant
                        k <= data.len() <= i32::MAX,
                        time == elapsed(data@, k as int),
                        prev.bits() == held_before(data@, k as int),
                        frames@ == frames_of(data@, k as int, config.split_double_presses),
                    decreases data.len() - k,
                {
                    let a = data[k];
                    proof {
                        lemma_elapsed_bounds(data@, k as int);
                        lemma_elapsed_bounds(data@, k as int + 1);
                    }
                    if a.delta != SENTINEL_DELTA {
                        time = time + a.delta as i64;
                        let skip = k < 2 && a.x == PLACEHOLDER_X && a.y == PLACEHOLDER_Y;
                        let keys = Buttons::from_bits(a.buttons);
                        let new_press = keys.is_new_press(prev);
                        let twice = config.split_double_presses && keys.is_double_press(prev);
                        prev = keys;
                        if a.delta >= 0 && new_press && !skip {
                            let frame = HitFrame { time, pos: Pos { x: a.x, y: a.y } };
                            frames.push(frame);
                            if twice {
                                frames.push(frame);
                            }
                        }
                    }
                    k = k + 1;
                }
                Ok(frames)
            },
        }
    }
}

} // verus!
