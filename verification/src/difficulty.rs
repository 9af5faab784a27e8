//! From a beatmap's difficulty settings to the numbers a press is judged by.
//!
//! A setting (circle size, overall difficulty, approach rate) is given in
//! thousandths of a point, so 8.5 is `8500`. A setting adjusted for the
//! modifiers is held in ten-thousandths of a point, which keeps the factors
//! 1.4, 1.3 and 0.5 exact.

use crate::models::Config;
use crate::mods::{Mod, Mods};
use vstd::prelude::*;

verus! {

/// Five points, the middle of every difficulty scale, in ten-thousandths.
pub const MIDPOINT: i64 = 50_000;

/// Ten points, the top of every difficulty scale, in ten-thousandths.
pub const CEILING: i64 = 100_000;

/// The quotient rounded toward zero, as a cast from a fraction to an
/// integer rounds.
pub open spec fn trunc_div(n: int, d: int) -> int {
    if n >= 0 {
        n / d
    } else {
        -((-n) / d)
    }
}

/// A setting in thousandths after the modifiers, in ten-thousandths. Hard
/// rock multiplies by `hr_tenths / 10` and stops at ten points; otherwise
/// easy halves and stops at zero; otherwise the setting stays.
pub open spec fn spec_adjusted(value: int, hr_tenths: int, mods: Mods) -> int {
    if mods.spec_contains(Mod::HardRock) {
        if value * hr_tenths < 100_000 {
            value * hr_tenths
        } else {
            100_000
        }
    } else if mods.spec_contains(Mod::Easy) {
        if value * 5 > 0 {
            value * 5
        } else {
            0
        }
    } else {
        value * 10
    }
}

/// The three-point scale of the game: `mid` at five points, `max` at ten,
/// `min` at zero, straight lines between and beyond, rounded toward zero.
/// `adjusted` is in ten-thousandths of a point.
pub open spec fn spec_difficulty_range(adjusted: int, min: int, mid: int, max: int) -> int {
    if adjusted > 50_000 {
        trunc_div(mid * 50_000 + (max - mid) * (adjusted - 50_000), 50_000)
    } else if adjusted < 50_000 {
        trunc_div(mid * 50_000 - (mid - min) * (50_000 - adjusted), 50_000)
    } else {
        mid
    }
}

/// The square of the hit radius in thousandths of an osu!pixel, rounded
/// down. The radius in pixels is `32 * 1.00041 * (1 - 0.7 * (cs - 5) / 5)`;
/// with `cs = adjusted_cs / 10000` and a thousand units to the pixel that is
/// `3201312 * (850000 - 7 * adjusted_cs) / 50000000` units.
pub open spec fn spec_radius_sq(adjusted_cs: int) -> int {
    let m = 3_201_312 * (850_000 - 7 * adjusted_cs);
    (m * m) / 2_500_000_000_000_000
}

/// The furthest a press may come after an object's start and still count,
/// in milliseconds: `150 + 50 * (5 - od) / 5`, rounded toward zero.
pub open spec fn spec_hit_window_50(od: int, mods: Mods) -> int {
    spec_difficulty_range(spec_adjusted(od, 14, mods), 200, 150, 100)
}

/// How long before its start an object can be pressed, in milliseconds.
pub open spec fn spec_preempt(ar: int, mods: Mods) -> int {
    spec_difficulty_range(spec_adjusted(ar, 14, mods), 1800, 1200, 450)
}

fn trunc_div_exec(n: i128, d: i128) -> (r: i128)
    requires
        d > 0,
        n > i128::MIN,
    ensures
        r == trunc_div(n as int, d as int),
{
    if n >= 0 {
        n / d
    } else {
        -((-n) / d)
    }
}

fn adjusted(value: i32, hr_tenths: i64, mods: Mods) -> (r: i64)
    requires
        hr_tenths == 13 || hr_tenths == 14,
    ensures
        r == spec_adjusted(value as int, hr_tenths as int, mods),
        -30_100_000_000 <= r <= 21_500_000_000,
{
    let v: i64 = value as i64;
    if mods.contains(Mod::HardRock) {
        let scaled: i64 = v * hr_tenths;
        if scaled < CEILING {
            scaled
        } else {
            CEILING
        }
    } else if mods.contains(Mod::Easy) {
        let halved: i64 = v * 5;
        if halved > 0 {
            halved
        } else {
            0
        }
    } else {
        v * 10
    }
}

/// Overall difficulty or approach rate after the modifiers: times 1.4 and at
/// most ten points under hard rock, halved and at least zero under easy.
pub fn adjusted_setting(value: i32, mods: Mods) -> (r: i64)
    ensures
        r == spec_adjusted(value as int, 14, mods),
{
    adjusted(value, 14, mods)
}

/// Circle size after the modifiers: times 1.3 and at most ten points under
/// hard rock, halved and at least zero under easy.
pub fn adjusted_circle_size(value: i32, mods: Mods) -> (r: i64)
    ensures
        r == spec_adjusted(value as int, 13, mods),
{
    adjusted(value, 13, mods)
}

/// Maps a setting onto the scale through `min` (zero points), `mid` (five)
/// and `max` (ten), after adjusting it for the modifiers by the factor 1.4.
pub fn map_difficulty_range(difficulty: i32, min: i32, mid: i32, max: i32, mods: Mods) -> (r: i64)
    ensures
        r == spec_difficulty_range(
            spec_adjusted(difficulty as int, 14, mods),
            min as int,
            mid as int,
            max as int,
        ),
{
    let a: i128 = adjusted(difficulty, 14, mods) as i128;
    let lo: i128 = min as i128;
    let md: i128 = mid as i128;
    let hi: i128 = max as i128;
    let half: i128 = MIDPOINT as i128;
    if a > half {
        let slope: i128 = hi - md;
        let run: i128 = a - half;
        assert(-0x1_0000_0000 * 0x10_0000_0000 <= slope * run <= 0x1_0000_0000 * 0x10_0000_0000)
            by (nonlinear_arith)
            requires
                -0x1_0000_0000 <= slope <= 0x1_0000_0000,
                0 <= run <= 0x10_0000_0000,
        ;
        let n: i128 = md * 50_000 + slope * run;
        let q: i128 = trunc_div_exec(n, 50_000);
        q as i64
    } else if a < half {
        let slope: i128 = md - lo;
        let run: i128 = half - a;
        assert(-0x1_0000_0000 * 0x10_0000_0000 <= slope * run <= 0x1_0000_0000 * 0x10_0000_0000)
            by (nonlinear_arith)
            requires
                -0x1_0000_0000 <= slope <= 0x1_0000_0000,
                0 <= run <= 0x10_0000_0000,
        ;
        let n: i128 = md * 50_000 - slope * run;
        let q: i128 = trunc_div_exec(n, 50_000);
        q as i64
    } else {
        mid as i64
    }
}

/// The late edge of the hit window in milliseconds.
pub fn hit_window_50(od: i32, mods: Mods) -> (r: i32)
    ensures
        r == spec_hit_window_50(od as int, mods),
{
    let w: i64 = map_difficulty_range(od, 200, 150, 100, mods);
    w as i32
}

/// The approach time in milliseconds.
pub fn preempt(ar: i32, mods: Mods) -> (r: i32)
    ensures
        r == spec_preempt(ar as int, mods),
{
    let w: i64 = map_difficulty_range(ar, 1800, 1200, 450, mods);
    w as i32
}

/// The square of the hit radius in thousandths of an osu!pixel.
pub fn radius_sq(cs: i32, mods: Mods) -> (r: u128)
    ensures
        r == spec_radius_sq(spec_adjusted(cs as int, 13, mods)),
{
    let c: i128 = adjusted(cs, 13, mods) as i128;
    let span: i128 = 850_000 - 7 * c;
    let m: i128 = 3_201_312 * span;
    assert(0 <= m * m <= 1_000_000_000_000_000_000 * 1_000_000_000_000_000_000)
        by (nonlinear_arith)
        requires
            -1_000_000_000_000_000_000 <= m <= 1_000_000_000_000_000_000,
    ;
    let sq: i128 = m * m;
    (sq / 2_500_000_000_000_000) as u128
}

/// The numbers a press is judged by.
#[derive(Copy, Clone, Debug, PartialEq, Eq, Structural)]
pub struct HitParams {
    /// Square of the hit radius, in thousandths of an osu!pixel squared.
    pub radius_sq: u128,
    /// How long after an object's start a press still counts, in
    /// milliseconds.
    pub hit_window_50: i32,
    /// How long before an object's start it can be pressed, in milliseconds.
    pub preempt: i32,
    /// Whether a press exactly `hit_window_50` after the start still counts.
    pub inclusive: bool,
}

impl HitParams {
    /// The parameters that the settings, the modifiers and the
    /// configuration give.
    pub open spec fn spec_resolve(
        cs: int,
        od: int,
        ar: int,
        mods: Mods,
        config: Config,
    ) -> HitParams {
        HitParams {
            radius_sq: spec_radius_sq(spec_adjusted(cs, 13, mods)) as u128,
            hit_window_50: spec_hit_window_50(od, mods) as i32,
            preempt: spec_preempt(ar, mods) as i32,
            inclusive: config.inclusive_window,
        }
    }

    /// Judging parameters for settings in thousandths of a point. `mods`
    /// should hold no rate modifier; they are not looked at here.
    pub fn resolve(cs: i32, od: i32, ar: i32, mods: Mods, config: Config) -> (r: HitParams)
        ensures
            r == HitParams::spec_resolve(cs as int, od as int, ar as int, mods, config),
            r.radius_sq == spec_radius_sq(spec_adjusted(cs as int, 13, mods)),
            r.hit_window_50 == spec_hit_window_50(od as int, mods),
            r.preempt == spec_preempt(ar as int, mods),
    {
        HitParams {
            radius_sq: radius_sq(cs, mods),
            hit_window_50: hit_window_50(od, mods),
            preempt: preempt(ar, mods),
            inclusive: config.inclusive_window,
        }
    }
}

/// For settings of 32 bits the judging numbers fit the fields that hold
/// them, so the fields of `spec_resolve` are the numbers themselves.
pub proof fn lemma_resolve_is_exact(cs: i32, od: i32, ar: i32, mods: Mods, config: Config)
    ensures
        HitParams::spec_resolve(cs as int, od as int, ar as int, mods, config).radius_sq
            == spec_radius_sq(spec_adjusted(cs as int, 13, mods)),
        HitParams::spec_resolve(cs as int, od as int, ar as int, mods, config).hit_window_50
            == spec_hit_window_50(od as int, mods),
        HitParams::spec_resolve(cs as int, od as int, ar as int, mods, config).preempt
            == spec_preempt(ar as int, mods),
        HitParams::spec_resolve(cs as int, od as int, ar as int, mods, config).inclusive
            == config.inclusive_window,
{
    let c = spec_adjusted(cs as int, 13, mods);
    let m = 3_201_312 * (850_000 - 7 * c);
    assert(0 <= m * m <= 1_000_000_000_000_000_000 * 1_000_000_000_000_000_000)
        by (nonlinear_arith)
        requires
            -1_000_000_000_000_000_000 <= m <= 1_000_000_000_000_000_000,
    ;
    assert(0 <= spec_radius_sq(c) <= u128::MAX);
    assert(i32::MIN <= spec_hit_window_50(od as int, mods) <= i32::MAX);
    assert(i32::MIN <= spec_preempt(ar as int, mods) <= i32::MAX);
}

} // verus!
