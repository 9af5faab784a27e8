//! Game modifiers as a small closed set.

use vstd::prelude::*;

verus! {

/// The modifiers that matter to hit matching.
#[derive(Copy, Clone, Debug, PartialEq, Eq, Structural)]
pub enum Mod {
    /// Halves circle size, overall difficulty and approach rate.
    Easy,
    /// Raises circle size, overall difficulty and approach rate.
    HardRock,
    /// Plays faster; changes no hit geometry.
    DoubleTime,
    /// Plays slower; changes no hit geometry.
    HalfTime,
    /// Double time with a pitch change.
    Nightcore,
}

impl Mod {
    /// The bit that stands for the modifier in a replay's modifier word.
    pub open spec fn spec_mask(self) -> u32 {
        match self {
            Mod::Easy => 0x2,
            Mod::HardRock => 0x10,
            Mod::DoubleTime => 0x40,
            Mod::HalfTime => 0x100,
            Mod::Nightcore => 0x200,
        }
    }

    /// The bit that stands for the modifier in a replay's modifier word.
    #[verifier::when_used_as_spec(spec_mask)]
    pub fn mask(self) -> (r: u32)
        ensures
            r == self.spec_mask(),
    {
        match self {
            Mod::Easy => 0x2,
            Mod::HardRock => 0x10,
            Mod::DoubleTime => 0x40,
            Mod::HalfTime => 0x100,
            Mod::Nightcore => 0x200,
        }
    }
}

/// The three modifier bits that only change the playback rate.
pub const RATE_MODS: u32 = 0x340;

/// A set of modifiers, held as the replay's modifier word.
#[derive(Copy, Clone, Debug, PartialEq, Eq, Structural)]
pub struct Mods {
    pub bits: u32,
}

/// Calls `osu_db::ModSet::without` on the set with the given bits and reads
/// the resulting bits back. Not proved: that the call clears the one bit of
/// the named modifier (`Easy` is bit 1 of `osu_db`'s numbering, `HardRock`
/// bit 4, `DoubleTime` bit 6, `HalfTime` bit 8, `Nightcore` bit 9) and leaves
/// every other bit as it was.
#[verifier::external_body]
fn mod_set_without(bits: u32, m: Mod) -> (r: u32)
    ensures
        r == bits & !m.spec_mask(),
{
    let which = match m {
        Mod::Easy => osu_db::Mod::Easy,
        Mod::HardRock => osu_db::Mod::HardRock,
        Mod::DoubleTime => osu_db::Mod::DoubleTime,
        Mod::HalfTime => osu_db::Mod::HalfTime,
        Mod::Nightcore => osu_db::Mod::Nightcore,
    };
    osu_db::ModSet::from_bits(bits).without(which).bits()
}

impl Mods {
    /// The set with exactly the bits of `bits`.
    pub fn from_bits(bits: u32) -> (r: Mods)
        ensures
            r.bits == bits,
    {
        Mods { bits }
    }

    /// Whether the modifier is in the set.
    pub open spec fn spec_contains(self, m: Mod) -> bool {
        self.bits & m.spec_mask() != 0
    }

    /// Whether the modifier is in the set.
    #[verifier::when_used_as_spec(spec_contains)]
    pub fn contains(self, m: Mod) -> (r: bool)
        ensures
            r == self.spec_contains(m),
    {
        (self.bits & m.mask()) != 0
    }

    /// The set without the modifier.
    pub fn without(self, m: Mod) -> (r: Mods)
        ensures
            r.bits == self.bits & !m.spec_mask(),
            !r.spec_contains(m),
            forall|o: Mod| o != m ==> r.spec_contains(o) == self.spec_contains(o),
    {
        let r = Mods { bits: mod_set_without(self.bits, m) };
        proof {
            let b = self.bits;
            let k = m.spec_mask();
            assert((b & !k) & k == 0) by (bit_vector);
            assert forall|o: Mod| o != m implies r.spec_contains(o) == self.spec_contains(o) by {
                let j = o.spec_mask();
                assert(j & k == 0) by {
                    lemma_masks_disjoint(o, m);
                }
                assert(j & k == 0 ==> (b & !k) & j == b & j) by (bit_vector);
            }
        }
        r
    }

    /// The set without double time, half time and nightcore. These change
    /// the playback rate and nothing about where or when a press counts.
    pub fn without_rate_mods(self) -> (r: Mods)
        ensures
            r.bits == self.bits & !RATE_MODS,
            r.spec_contains(Mod::HardRock) == self.spec_contains(Mod::HardRock),
            r.spec_contains(Mod::Easy) == self.spec_contains(Mod::Easy),
            !r.spec_contains(Mod::DoubleTime),
            !r.spec_contains(Mod::HalfTime),
            !r.spec_contains(Mod::Nightcore),
    {
        let r = self.without(Mod::DoubleTime).without(Mod::HalfTime).without(Mod::Nightcore);
        proof {
            let b = self.bits;
            assert(((b & !0x40u32) & !0x100u32) & !0x200u32 == b & !0x340u32) by (bit_vector);
        }
        r
    }
}

/// Two different modifiers share no bit.
pub proof fn lemma_masks_disjoint(a: Mod, b: Mod)
    requires
        a != b,
    ensures
        a.spec_mask() & b.spec_mask() == 0,
{
    assert(0x2u32 & 0x10u32 == 0 && 0x2u32 & 0x40u32 == 0 && 0x2u32 & 0x100u32 == 0 && 0x2u32
        & 0x200u32 == 0 && 0x10u32 & 0x40u32 == 0 && 0x10u32 & 0x100u32 == 0 && 0x10u32 & 0x200u32
        == 0 && 0x40u32 & 0x100u32 == 0 && 0x40u32 & 0x200u32 == 0 && 0x100u32 & 0x200u32 == 0)
        by (bit_vector);
    assert(0x10u32 & 0x2u32 == 0 && 0x40u32 & 0x2u32 == 0 && 0x100u32 & 0x2u32 == 0 && 0x200u32
        & 0x2u32 == 0 && 0x40u32 & 0x10u32 == 0 && 0x100u32 & 0x10u32 == 0 && 0x200u32 & 0x10u32
        == 0 && 0x100u32 & 0x40u32 == 0 && 0x200u32 & 0x40u32 == 0 && 0x200u32 & 0x100u32 == 0)
        by (bit_vector);
}

} // verus!
