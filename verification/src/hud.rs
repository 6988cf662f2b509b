//! The multi-function display of the player's HUD: which display shows for the
//! equipped item.
use vstd::prelude::*;

verus! {

/// The displays the HUD can show.
#[derive(Debug, Clone, Copy, PartialEq, Eq, Structural)]
pub enum DisplayType {
    NoDisplay,
    SpreadGunDisplay,
    EnergyGunDisplay,
}

/// Every display type, in declaration order.
pub open spec fn all_display_types() -> Seq<DisplayType> {
    seq![DisplayType::NoDisplay, DisplayType::SpreadGunDisplay, DisplayType::EnergyGunDisplay]
}

/// The display types that have a control on screen.
pub open spec fn has_control(display: DisplayType) -> bool {
    display == DisplayType::SpreadGunDisplay
}

impl DisplayType {
    /// Every display type, in declaration order.
    pub fn iter() -> (all: Vec<DisplayType>)
        ensures
            all@ == all_display_types(),
    {
        let all = vec![DisplayType::NoDisplay, DisplayType::SpreadGunDisplay, DisplayType::EnergyGunDisplay];
        assert(all@ =~= all_display_types());
        all
    }

    /// Whether this display has a control on screen.
    pub fn has_display_control(self) -> (b: bool)
        ensures
            b == has_control(self),
    {
        match self {
            DisplayType::SpreadGunDisplay => true,
            _ => false,
        }
    }

    /// The displays to hide so that only `keep` can stay shown: every display with a
    /// control, other than `keep`, in declaration order.
    pub fn displays_to_hide(keep: DisplayType) -> (hidden: Vec<DisplayType>)
        ensures
            hidden@ == all_display_types().filter(|d: DisplayType| d != keep && has_control(d)),
    {
        let all = DisplayType::iter();
        let mut hidden: Vec<DisplayType> = Vec::new();
        let mut i: usize = 0;
        while i < all.len()
            invariant
                all@ == all_display_types(),
                i <= all@.len(),
                hidden@ == all@.take(i as int).filter(|d: DisplayType| d != keep && has_control(d)),
            decreases all@.len() - i,
        {
            let display = all[i];
            proof {
                assert(all@.take(i + 1).drop_last() =~= all@.take(i as int));
                reveal(Seq::filter);
            }
            if display != keep && display.has_display_control() {
                hidden.push(display);
            }
            i = i + 1;
        }
        assert(all@.take(all@.len() as int) =~= all@);
        hidden
    }
}

} // verus!
