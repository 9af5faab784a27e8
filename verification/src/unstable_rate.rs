//! From a beatmap and a replay to the unstable rate.

use crate::difficulty::HitParams;
use crate::error_stats::{
    is_unstable_rate, lemma_unstable_rate_unique, within_range, ErrorStatistics,
};
use crate::frames::{frames_of, lemma_frames_count, Action, HitFrame, HitFrames, Replay};
use crate::guarantees::lemma_hits_bounded;
use crate::hit_object::Hit;
use crate::hit_object_manager::Beatmap;
use crate::matching::{collect_hits, errors_of, spec_hits};
use crate::models::{Config, InputError};
use crate::mods::{Mods, RATE_MODS};
use crate::pruned::collect_hits_pruned;
use vstd::prelude::*;

verus! {

/// The modifiers that bear on hit matching: those of the replay without
/// double time, half time and nightcore.
pub open spec fn spec_mods(replay: &Replay) -> Mods {
    Mods { bits: replay.mods.bits & !RATE_MODS }
}

/// The numbers by which the presses of the replay are judged on the beatmap.
/// By `lemma_resolve_is_exact` its fields are the radius, the hit window and
/// the approach time themselves.
pub open spec fn spec_params(map: &Beatmap, replay: &Replay, config: Config) -> HitParams {
    HitParams::spec_resolve(map.cs as int, map.od as int, map.ar as int, spec_mods(replay), config)
}

/// The timing errors of the hits that the records `data` of the replay score
/// on the beatmap, in the order of the presses.
pub open spec fn spec_hit_errors(
    map: &Beatmap,
    replay: &Replay,
    data: Seq<Action>,
    config: Config,
) -> Seq<i32> {
    errors_of(
        spec_hits(
            map.hit_objects@,
            spec_params(map, replay, config),
            frames_of(data, data.len() as int, config.split_double_presses),
        ),
    )
}

/// The configuration that `calculate_ur` uses: the late edge of the hit
/// window counts, and a double press is one press.
pub open spec fn default_config() -> Config {
    Config { inclusive_window: true, split_double_presses: false }
}

/// Whether the replay's input track, if it has one, is short enough for its
/// clock to fit in 64 bits.
pub open spec fn fits(replay: &Replay) -> bool {
    replay.replay_data matches Some(data) ==> data.len() <= i32::MAX
}

/// Tells whether the input track is short enough.
pub fn replay_fits(replay: &Replay) -> (r: bool)
    ensures
        r == fits(replay),
{
    match &replay.replay_data {
        Some(data) => data.len() <= 0x7fff_ffff,
        None => true,
    }
}

fn errors_from(hits: &Vec<Hit>) -> (r: Vec<i32>)
    ensures
        r@ == errors_of(hits@),
{
    let mut errors: Vec<i32> = Vec::new();
    let mut k: usize = 0;
    while k < hits.len()
        invariant
            k <= hits.len(),
            errors@.len() == k,
            forall|i: int| 0 <= i < k ==> errors@[i] == hits@[i].error,
        decreases hits.len() - k,
    {
        errors.push(hits[k].error);
        k = k + 1;
    }
    assert(errors@ =~= errors_of(hits@));
    errors
}

fn hit_errors_by(map: &Beatmap, replay: &Replay, config: Config, prune: bool) -> (r: Result<
    Vec<i32>,
    InputError,
>)
    requires
        map.wf(),
        fits(replay),
    ensures
        match r {
            Ok(errors) => {
                &&& replay.replay_data matches Some(data) && errors@ == spec_hit_errors(
                    map,
                    replay,
                    data@,
                    config,
                )
                &&& within_range(errors@)
                &&& errors@.len() <= u32::MAX
            },
            Err(e) => replay.replay_data is None && e == InputError::MissingReplayData,
        },
{
    let mods = replay.mods.without_rate_mods();
    let params = HitParams::resolve(map.cs, map.od, map.ar, mods, config);
    let frames: Vec<HitFrame> = match HitFrames::from_replay(replay, config) {
        Ok(frames) => frames,
        Err(e) => {
            return Err(e);
        },
    };
    let hits = if prune {
        collect_hits_pruned(&map.hit_objects, params, &frames)
    } else {
        collect_hits(&map.hit_objects, params, &frames)
    };
    let errors = errors_from(&hits);
    let count = map.hit_objects.len();
    proof {
        assert(map.hit_objects@.len() == count);
        let data = replay.replay_data->Some_0@;
        lemma_frames_count(data, data.len() as int, config.split_double_presses);
        lemma_hits_bounded(map.hit_objects@, params, frames@, frames@.len() as int);
    }
    Ok(errors)
}

/// The timing errors of the replay on the beatmap, in the order of the
/// presses: press time minus object start for every object that a press hit.
/// There is none without an input track.
pub fn hit_errors(map: &Beatmap, replay: &Replay, config: Config) -> (r: Result<
    Vec<i32>,
    InputError,
>)
    requires
        map.wf(),
        fits(replay),
    ensures
        match r {
            Ok(errors) => {
                &&& replay.replay_data matches Some(data) && errors@ == spec_hit_errors(
                    map,
                    replay,
                    data@,
                    config,
                )
                &&& within_range(errors@)
                &&& errors@.len() <= u32::MAX
            },
            Err(e) => replay.replay_data is None && e == InputError::MissingReplayData,
        },
{
    hit_errors_by(map, replay, config, false)
}

/// What `calculate_ur_with` returns for the beatmap, the replay and the
/// configuration.
pub open spec fn is_result(
    map: &Beatmap,
    replay: &Replay,
    config: Config,
    r: Result<u64, InputError>,
) -> bool {
    match replay.replay_data {
        None => r == Err::<u64, InputError>(InputError::MissingReplayData),
        Some(data) => {
            let errors = spec_hit_errors(map, replay, data@, config);
            if errors.len() == 0 {
                r == Err::<u64, InputError>(InputError::EmptyHitErrorSet)
            } else {
                r matches Ok(rate) && is_unstable_rate(errors, rate as int)
            }
        },
    }
}

/// The beatmap, the replay and the configuration leave one result and no
/// other: whatever is computed twice from the same three comes out the same.
pub proof fn lemma_result_is_determined(
    map: &Beatmap,
    replay: &Replay,
    config: Config,
    first: Result<u64, InputError>,
    second: Result<u64, InputError>,
)
    requires
        is_result(map, replay, config, first),
        is_result(map, replay, config, second),
    ensures
        first == second,
{
    match replay.replay_data {
        None => {},
        Some(data) => {
            let errors = spec_hit_errors(map, replay, data@, config);
            if errors.len() != 0 {
                lemma_unstable_rate_unique(
                    errors,
                    first->Ok_0 as int,
                    second->Ok_0 as int,
                );
            }
        },
    }
}

fn unstable_rate_by(map: &Beatmap, replay: &Replay, config: Config, prune: bool) -> (r: Result<
    u64,
    InputError,
>)
    requires
        map.wf(),
        fits(replay),
    ensures
        is_result(map, replay, config, r),
{
    let errors = match hit_errors_by(map, replay, config, prune) {
        Ok(errors) => errors,
        Err(e) => {
            return Err(e);
        },
    };
    match ErrorStatistics::new(errors.as_slice()) {
        Ok(stats) => Ok(stats.unstable_rate),
        Err(e) => Err(e),
    }
}

/// The unstable rate of the replay on the beatmap, in thousandths and
/// rounded down, under the given configuration.
///
/// Fails with `MissingReplayData` if the replay has no input track, and with
/// `EmptyHitErrorSet` if no press hit any object.
pub fn calculate_ur_with(map: &Beatmap, replay: &Replay, config: Config) -> (r: Result<
    u64,
    InputError,
>)
    requires
        map.wf(),
        fits(replay),
    ensures
        is_result(map, replay, config, r),
{
    unstable_rate_by(map, replay, config, false)
}

/// The same as `calculate_ur_with`, found by the pruned search.
pub fn calculate_ur_pruned(map: &Beatmap, replay: &Replay, config: Config) -> (r: Result<
    u64,
    InputError,
>)
    requires
        map.wf(),
        fits(replay),
    ensures
        is_result(map, replay, config, r),
{
    unstable_rate_by(map, replay, config, true)
}

/// The unstable rate of the replay on the beatmap, in thousandths and
/// rounded down, under the default configuration.
pub fn calculate_ur(map: &Beatmap, replay: &Replay) -> (r: Result<u64, InputError>)
    requires
        map.wf(),
        fits(replay),
    ensures
        is_result(map, replay, default_config(), r),
{
    calculate_ur_with(map, replay, Config::default())
}

} // verus!
