//! Plain data shared by the other modules.

use vstd::prelude::*;

verus! {

/// Why no statistic could be produced.
#[derive(Copy, Clone, Debug, PartialEq, Eq, Structural)]
pub enum InputError {
    /// The replay carries no input track.
    MissingReplayData,
    /// No press was credited to any object, so there is nothing to average.
    EmptyHitErrorSet,
    /// A key bit is set without the mouse bit that the client always
    /// reports with it.
    MalformedButtonState,
}

/// Two rules that are read in more than one way. The caller says which
/// reading holds.
#[derive(Copy, Clone, Debug, PartialEq, Eq, Structural)]
pub struct Config {
    /// Whether a press exactly at the late edge of the hit window counts.
    pub inclusive_window: bool,
    /// Whether a frame in which a left and a right button go down together
    /// gives two presses instead of one.
    pub split_double_presses: bool,
}

impl Default for Config {
    /// The late edge counts, and a double press is one press.
    fn default() -> (r: Config)
        ensures
            r.inclusive_window,
            !r.split_double_presses,
    {
        Config { inclusive_window: true, split_double_presses: false }
    }
}

/// Bit of the left mouse button.
pub const M1: u8 = 1;

/// Bit of the right mouse button.
pub const M2: u8 = 2;

/// Bit of the first keyboard key. The client reports it together with `M1`.
pub const K1: u8 = 4;

/// Bit of the second keyboard key. The client reports it together with `M2`.
pub const K2: u8 = 8;

/// The button mask with each mouse bit cleared where its key bit is set, so
/// that one physical press shows as exactly one bit.
pub open spec fn normalized(bits: u8) -> u8 {
    let a = if bits & K1 != 0 { bits & !M1 } else { bits };
    if a & K2 != 0 { a & !M2 } else { a }
}

/// Whether every key bit in the mask comes with its mouse bit.
pub open spec fn well_paired(bits: u8) -> bool {
    &&& (bits & K1 != 0 ==> bits & M1 != 0)
    &&& (bits & K2 != 0 ==> bits & M2 != 0)
}

/// Whether some button bit is set in `now` that is clear in `prev`.
pub open spec fn mask_new_press(now: u8, prev: u8) -> bool {
    ||| (now & M1 != 0 && !(prev & M1 != 0))
    ||| (now & M2 != 0 && !(prev & M2 != 0))
    ||| (now & K1 != 0 && !(prev & K1 != 0))
    ||| (now & K2 != 0 && !(prev & K2 != 0))
}

/// Whether a left bit (mouse or key) and a right bit (mouse or key) are both
/// set in `now` and clear in `prev`.
pub open spec fn mask_double_press(now: u8, prev: u8) -> bool {
    &&& ((now & M1 != 0 && !(prev & M1 != 0)) || (now & K1 != 0 && !(prev & K1 != 0)))
    &&& ((now & M2 != 0 && !(prev & M2 != 0)) || (now & K2 != 0 && !(prev & K2 != 0)))
}

/// The buttons held down in one replay frame, normalized.
#[derive(Copy, Clone, Debug, PartialEq, Eq, Structural)]
pub struct Buttons(u8);

impl Default for Buttons {
    /// No button held.
    fn default() -> (r: Buttons)
        ensures
            r.bits() == 0,
    {
        Buttons(0)
    }
}

impl Buttons {
    /// The stored mask.
    pub closed spec fn bits(self) -> u8 {
        self.0
    }

    /// Whether the left mouse button is down.
    pub open spec fn spec_m1(self) -> bool {
        self.bits() & M1 != 0
    }

    /// Whether the right mouse button is down.
    pub open spec fn spec_m2(self) -> bool {
        self.bits() & M2 != 0
    }

    /// Whether the first key is down.
    pub open spec fn spec_k1(self) -> bool {
        self.bits() & K1 != 0
    }

    /// Whether the second key is down.
    pub open spec fn spec_k2(self) -> bool {
        self.bits() & K2 != 0
    }

    /// Whether some button is down in `self` that was up in `prev`.
    pub open spec fn spec_is_new_press(self, prev: Buttons) -> bool {
        mask_new_press(self.bits(), prev.bits())
    }

    /// Whether a left button (mouse or key) and a right button (mouse or key)
    /// both went down between `prev` and `self`.
    pub open spec fn spec_is_double_press(self, prev: Buttons) -> bool {
        mask_double_press(self.bits(), prev.bits())
    }

    /// Reads a raw button mask, clearing each mouse bit whose key bit is set.
    /// A mask whose key bit comes without its mouse bit is taken as it is.
    pub fn from_bits(bits: u8) -> (r: Buttons)
        ensures
            r.bits() == normalized(bits),
    {
        let mut b: u8 = bits;
        if (b & K1) > 0 {
            b = b & !M1;
        }
        if (b & K2) > 0 {
            b = b & !M2;
        }
        Buttons(b)
    }

    /// Reads a raw button mask and refuses one whose key bit comes without
    /// its mouse bit.
    pub fn checked_from_bits(bits: u8) -> (r: Result<Buttons, InputError>)
        ensures
            match r {
                Ok(b) => well_paired(bits) && b.bits() == normalized(bits),
                Err(e) => !well_paired(bits) && e == InputError::MalformedButtonState,
            },
    {
        let k1_alone = (bits & K1) > 0 && (bits & M1) == 0;
        let k2_alone = (bits & K2) > 0 && (bits & M2) == 0;
        if k1_alone || k2_alone {
            Err(InputError::MalformedButtonState)
        } else {
            Ok(Buttons::from_bits(bits))
        }
    }

    /// The stored mask.
    pub fn to_bits(self) -> (r: u8)
        ensures
            r == self.bits(),
    {
        self.0
    }

    /// Whether the left mouse button is down.
    #[verifier::when_used_as_spec(spec_m1)]
    pub fn m1(self) -> (r: bool)
        ensures
            r == self.spec_m1(),
    {
        (self.0 & M1) > 0
    }

    /// Whether the right mouse button is down.
    #[verifier::when_used_as_spec(spec_m2)]
    pub fn m2(self) -> (r: bool)
        ensures
            r == self.spec_m2(),
    {
        (self.0 & M2) > 0
    }

    /// Whether the first key is down.
    #[verifier::when_used_as_spec(spec_k1)]
    pub fn k1(self) -> (r: bool)
        ensures
            r == self.spec_k1(),
    {
        (self.0 & K1) > 0
    }

    /// Whether the second key is down.
    #[verifier::when_used_as_spec(spec_k2)]
    pub fn k2(self) -> (r: bool)
        ensures
            r == self.spec_k2(),
    {
        (self.0 & K2) > 0
    }

    /// Whether some button went down between `prev` and `self`.
    #[verifier::when_used_as_spec(spec_is_new_press)]
    pub fn is_new_press(self, prev: Buttons) -> (r: bool)
        ensures
            r == self.spec_is_new_press(prev),
    {
        let m1 = self.m1() && !prev.m1();
        let m2 = self.m2() && !prev.m2();
        let k1 = self.k1() && !prev.k1();
        let k2 = self.k2() && !prev.k2();
        m1 || m2 || k1 || k2
    }

    /// Whether a left and a right button went down between `prev` and `self`.
    #[verifier::when_used_as_spec(spec_is_double_press)]
    pub fn is_double_press(self, prev: Buttons) -> (r: bool)
        ensures
            r == self.spec_is_double_press(prev),
    {
        let left = (self.m1() && !prev.m1()) || (self.k1() && !prev.k1());
        let right = (self.m2() && !prev.m2()) || (self.k2() && !prev.k2());
        left && right
    }
}

} // verus!
