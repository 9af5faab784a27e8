//! Unstable rate of an osu!standard replay.
//!
//! The unstable rate is ten times the population standard deviation of the
//! signed timing errors (press time minus object time, in milliseconds) over
//! all hit objects that the player hit. This crate decides which press hits
//! which object under the rules of the stable client (hit windows, note lock,
//! stacking) and reduces the errors to statistics.
//!
//! Floating point is kept out of the library on purpose. Times are whole
//! milliseconds, positions are whole thousandths of an osu!pixel, difficulty
//! settings are whole thousandths of a point, and every result is an exact
//! integer or an integer bracket of the real value.

pub mod models;
pub mod mods;
pub mod difficulty;
pub mod frames;
pub mod hit_object;
pub mod hit_object_manager;
pub mod ruleset;
pub mod matching;
pub mod guarantees;
pub mod pruned;
pub mod error_stats;
pub mod unstable_rate;

pub use crate::difficulty::HitParams;
pub use crate::error_stats::ErrorStatistics;
pub use crate::frames::{Action, HitFrame, HitFrames, Pos, Replay};
pub use crate::hit_object::{Hit, HitObject, HitObjectKind};
pub use crate::hit_object_manager::{Beatmap, HitObjectManager};
pub use crate::models::{Buttons, Config, InputError};
pub use crate::mods::{Mod, Mods};
pub use crate::ruleset::{ClickAction, Ruleset};
pub use crate::unstable_rate::{calculate_ur, calculate_ur_pruned, calculate_ur_with, hit_errors};
