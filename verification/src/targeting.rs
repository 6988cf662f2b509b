//! Which kinds of targets an AI may select, and in what order it tries them.
use vstd::prelude::*;

verus! {

/// How an attack is judged usable.
#[derive(Debug, Clone, Copy, PartialEq, Eq, Structural)]
pub enum AttackValidator {
    VisibleCharacter,
    Range,
}

/// The kind of a target, without its data.
#[derive(Debug, Clone, Copy, PartialEq, Eq, Structural, Hash)]
pub enum TargetType {
    /// Some character, like the player.
    Character,
    /// A combat opportunity node.
    CombatOpportunity,
    /// A point of disturbance (noise).
    Disturbance,
    /// A point of interest.
    Interest,
    /// An object, like a door or an exploding barrel.
    Object,
    /// Something to interact with.
    SmartObject,
}

/// A set of target selectors, one bit each.
#[derive(Debug, Clone, Copy, PartialEq, Eq, Structural)]
pub struct TargetMask {
    pub bits: u32,
}

pub const TARGET_NONE: u32 = 0;
/// Select a visible character.
pub const TARGET_VISIBLE_CHARACTER: u32 = 1;
pub const TARGET_KNOWN_CHARACTER: u32 = 1 << 1;
/// Select whoever dealt damage.
pub const TARGET_DAMAGER: u32 = 1 << 2;
pub const TARGET_INTEREST: u32 = 1 << 3;
pub const TARGET_NODE: u32 = 1 << 4;
pub const TARGET_DANGER: u32 = 1 << 5;
pub const TARGET_CHARACTER_AIMING_AT_ME: u32 = 1 << 6;

impl TargetMask {
    /// The mask with exactly the given bits.
    pub fn from_bits(bits: u32) -> (mask: Self)
        ensures
            mask.bits == bits,
    {
        TargetMask { bits }
    }

    /// The empty mask, which is also the default.
    pub fn empty() -> (mask: Self)
        ensures
            mask.bits == 0,
    {
        TargetMask { bits: TARGET_NONE }
    }

    /// Every bit of `other` is set in `self`.
    pub fn contains(&self, other: TargetMask) -> (b: bool)
        ensures
            b == (self.bits & other.bits == other.bits),
    {
        self.bits & other.bits == other.bits
    }

    /// The bits set in either mask.
    pub fn union(self, other: TargetMask) -> (mask: TargetMask)
        ensures
            mask.bits == self.bits | other.bits,
    {
        TargetMask { bits: self.bits | other.bits }
    }

    /// The selectors in the order they are tried: each with the mask bit that enables
    /// it and the kind of target it selects.
    pub fn priority() -> (list: Vec<(TargetMask, TargetType)>)
        ensures
            list@ == selector_priority(),
    {
        let mut list: Vec<(TargetMask, TargetType)> = Vec::new();
        list.push((TargetMask { bits: TARGET_VISIBLE_CHARACTER }, TargetType::Character));
        assert(list@ =~= selector_priority());
        list
    }

    /// The selectors, in priority order, whose bit is set in `other`.
    pub fn valid_target_selectors(other: TargetMask) -> (list: Vec<(TargetMask, TargetType)>)
        ensures
            list@ == selector_priority().filter(
                |s: (TargetMask, TargetType)| other.bits & s.0.bits == s.0.bits,
            ),
    {
        let all = Self::priority();
        let mut list: Vec<(TargetMask, TargetType)> = Vec::new();
        let mut i: usize = 0;
        while i < all.len()
            invariant
                all@ == selector_priority(),
                i <= all@.len(),
                list@ == all@.take(i as int).filter(
                    |s: (TargetMask, TargetType)| other.bits & s.0.bits == s.0.bits,
                ),
            decreases all@.len() - i,
        {
            let entry = all[i];
            proof {
                assert(all@.take(i + 1).drop_last() =~= all@.take(i as int));
                reveal(Seq::filter);
            }
            if other.contains(entry.0) {
                list.push(entry);
            }
            i = i + 1;
        }
        assert(all@.take(all@.len() as int) =~= all@);
        list
    }
}

/// The selectors in the order they are tried.
pub open spec fn selector_priority() -> Seq<(TargetMask, TargetType)> {
    seq![(TargetMask { bits: TARGET_VISIBLE_CHARACTER }, TargetType::Character)]
}

} // verus!
