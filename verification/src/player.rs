//! The player's interaction state: what is equipped in which slot, what is held
//! active, and how each input event moves the player between its states.
use vstd::prelude::*;

verus! {

/// The number of equipment slots.
pub const SLOT_COUNT: usize = 10;

/// Which item id sits in each equipment slot.
#[derive(Debug, Clone)]
pub struct EquippedItems {
    pub items: Vec<Option<u32>>,
}

impl EquippedItems {
    pub open spec fn wf(&self) -> bool {
        self.items@.len() == SLOT_COUNT
    }

    /// All slots empty.
    pub fn new() -> (slots: Self)
        ensures
            slots.wf(),
            forall|i: int| 0 <= i < SLOT_COUNT ==> #[trigger] slots.items@[i] is None,
    {
        let mut items: Vec<Option<u32>> = Vec::new();
        let mut i: usize = 0;
        while i < SLOT_COUNT
            invariant
                i <= SLOT_COUNT,
                items@.len() == i,
                forall|k: int| 0 <= k < i ==> #[trigger] items@[k] is None,
            decreases SLOT_COUNT - i,
        {
            items.push(None);
            i = i + 1;
        }
        EquippedItems { items }
    }

    /// The item in slot `slot`.
    pub fn get(&self, slot: u32) -> (item: Option<u32>)
        requires
            self.wf(),
            slot < SLOT_COUNT,
        ensures
            item == self.items@[slot as int],
    {
        self.items[slot as usize]
    }

    /// Puts `item` into the slot numbered `slot` (counting from 1). If the item already
    /// sat in another slot, that slot (the first one holding it) is emptied. Returns
    /// the different item that the slot held before, if any.
    pub fn put_into_slot(&mut self, slot: u32, item: u32) -> (removed: Option<u32>)
        requires
            old(self).wf(),
            1 <= slot <= SLOT_COUNT,
        ensures
            final(self).wf(),
            removed == (match old(self).items@[slot - 1] {
                Some(previous) => if previous != item {
                    Some(previous)
                } else {
                    None
                },
                None => None,
            }),
            final(self).items@ == put_item_spec(old(self).items@, (slot - 1) as int, item),
    {
        let slot_idx = (slot - 1) as usize;
        let mut removed: Option<u32> = None;
        if let Some(previous_item) = self.items[slot_idx] {
            if previous_item != item {
                removed = Some(previous_item);
            }
        }
        let mut i: usize = 0;
        let mut found: Option<usize> = None;
        while i < SLOT_COUNT
            invariant
                self.items@ == old(self).items@,
                self.wf(),
                i <= SLOT_COUNT,
                found is None ==> forall|k: int| 0 <= k < i ==> #[trigger] self.items@[k] != Some(
                    item,
                ),
                found is Some ==> found.unwrap() < i && first_slot_of(self.items@, item)
                    == found.unwrap() as int,
            decreases SLOT_COUNT - i,
        {
            if found.is_none() && self.items[i] == Some(item) {
                found = Some(i);
            }
            i = i + 1;
        }
        if let Some(index) = found {
            self.items.set(index, None);
        } else {
            assert(first_slot_of(old(self).items@, item) == -1);
        }
        self.items.set(slot_idx, Some(item));
        assert(self.items@ =~= put_item_spec(old(self).items@, slot_idx as int, item));
        removed
    }

    /// Empties slot `slot` if it holds `item`.
    pub fn remove_from_slot(&mut self, slot: u32, item: u32)
        requires
            old(self).wf(),
            slot < SLOT_COUNT,
        ensures
            final(self).wf(),
            final(self).items@ == if old(self).items@[slot as int] == Some(item) {
                old(self).items@.update(slot as int, None)
            } else {
                old(self).items@
            },
    {
        if self.items[slot as usize] == Some(item) {
            self.items.set(slot as usize, None);
        }
    }
}

/// The first slot that holds `item`, or -1 when none does.
pub open spec fn first_slot_of(items: Seq<Option<u32>>, item: u32) -> int {
    if exists|k: int| 0 <= k < items.len() && items[k] == Some(item) {
        choose|k: int|
            0 <= k < items.len() && items[k] == Some(item) && forall|j: int|
                0 <= j < k ==> items[j] != Some(item)
    } else {
        -1
    }
}

/// The slots after `item` is put into slot index `slot`: the first slot that held it
/// before is emptied, then `slot` holds it.
pub open spec fn put_item_spec(items: Seq<Option<u32>>, slot: int, item: u32) -> Seq<
    Option<u32>,
> {
    let first = first_slot_of(items, item);
    let cleared = if first >= 0 {
        items.update(first, None)
    } else {
        items
    };
    cleared.update(slot, Some(item))
}

/// No item sits in two slots.
pub open spec fn slots_distinct(items: Seq<Option<u32>>) -> bool {
    forall|i: int, j: int|
        #![trigger items[i], items[j]]
        0 <= i < items.len() && 0 <= j < items.len() && i != j && items[i] is Some ==> items[i]
            != items[j]
}

/// Putting an item into a slot keeps every item in at most one slot, and afterwards
/// the item sits exactly in that slot.
pub proof fn lemma_put_keeps_slots_distinct(items: Seq<Option<u32>>, slot: int, item: u32)
    requires
        slots_distinct(items),
        0 <= slot < items.len(),
    ensures
        slots_distinct(put_item_spec(items, slot, item)),
        put_item_spec(items, slot, item)[slot] == Some(item),
        forall|k: int|
            0 <= k < items.len() && k != slot ==> #[trigger] put_item_spec(items, slot, item)[k]
                != Some(item),
{
    let first = first_slot_of(items, item);
    if exists|k: int| 0 <= k < items.len() && items[k] == Some(item) {
        let w = choose|k: int| 0 <= k < items.len() && items[k] == Some(item);
        assert(exists|k: int|
            0 <= k < items.len() && items[k] == Some(item) && forall|j: int|
                0 <= j < k ==> items[j] != Some(item)) by {
            assert forall|j: int| 0 <= j < w implies items[j] != Some(item) by {
                if items[j] == Some(item) {
                    assert(items[j] == items[w]);
                }
            }
        }
        assert(0 <= first < items.len() && items[first] == Some(item));
        assert forall|k: int| 0 <= k < items.len() && k != first implies items[k] != Some(
            item,
        ) by {
            if items[k] == Some(item) {
                assert(items[k] == items[first]);
            }
        }
    }
    let result = put_item_spec(items, slot, item);
    assert forall|i: int, j: int|
        #![trigger result[i], result[j]]
        0 <= i < result.len() && 0 <= j < result.len() && i != j && result[i] is Some implies result[i]
            != result[j] by {
        if i != slot && j != slot && result[i] == result[j] {
            assert(items[i] == items[j]);
        }
    }
}

/// Emptying the slot again undoes putting an item into an empty slot, when the item
/// sat in no slot before.
pub proof fn lemma_remove_undoes_put(items: Seq<Option<u32>>, slot: int, item: u32)
    requires
        0 <= slot < items.len(),
        items[slot] is None,
        forall|k: int| 0 <= k < items.len() ==> #[trigger] items[k] != Some(item),
    ensures
        put_item_spec(items, slot, item).update(slot, None) == items,
{
    assert(first_slot_of(items, item) == -1);
    assert(put_item_spec(items, slot, item).update(slot, None) =~= items);
}

// ---------------------------------------------------------------------------
// The interaction state machine.
// ---------------------------------------------------------------------------

/// What the shape cast in front of the player found.
#[derive(Debug, Clone, Copy, PartialEq, Eq, Structural)]
pub enum ShapeCastHit {
    /// Nothing.
    NoCollision,
    /// Something that cannot be interacted with.
    NotReactArea,
    /// An interactable area (by its instance id); `has_message` is whether it has a
    /// prompt to show.
    ReactArea { area: u64, has_message: bool },
}

/// An input or world event that the player's state machine reacts to.
#[derive(Debug, Clone, Copy, PartialEq, Eq, Structural)]
pub enum PlayerEvent {
    /// The activate action (left mouse button) was pressed.
    ActivateEvent,
    /// The activate action was released.
    DeactivateEvent,
    /// The frob action was pressed (or is being held); `held_long_enough` is whether
    /// the frob time has passed since frobbing the aimed-at area started, `has_acts`
    /// whether the player has acts to apply to it.
    FrobEvent { held_long_enough: bool, has_acts: bool },
    /// The frob action was released.
    FrobStopEvent,
    /// The grabbed or attached object was freed.
    ColliderFreed,
    /// An item was dropped from the inventory.
    ItemDropped,
    /// An object (by its instance id) was grabbed.
    Grabbed(u64),
    /// The grabbed object was released.
    GrabbedReleased,
    /// An equipment slot was selected.
    SlotSelected(u32),
    /// The previously active item finished being taken off.
    OldItemTakenOff,
    /// The shape cast in front of the player was run again and found this.
    ShapeCastUpdateEvent(ShapeCastHit),
    /// The object the player was aiming at was freed.
    ShapeCastObjectFreed,
}

/// The state the player is in.
#[derive(Debug, Clone, Copy, PartialEq, Eq, Structural)]
pub enum PlayerStateKind {
    /// Nothing held and nothing equipped.
    Default,
    /// An object is being carried.
    Grab,
    /// An item is equipped.
    Weapon,
}

/// What the game should do in response to an event.
#[derive(Debug, Clone, Copy, PartialEq, Eq, Structural)]
pub enum PlayerAction {
    /// Nothing.
    Nothing,
    /// Show how far frobbing the area has got.
    FrobProgress(u64),
    /// Let the area react to the player's acts, stop watching it and hide the frob
    /// description.
    React(u64),
    /// Stop watching the area (if any) and hide the frob description.
    StopFrobbing(Option<u64>),
    /// Stop watching `previous` (if any), watch `area`, and show its prompt when
    /// `prompt` is set.
    Focus { area: u64, previous: Option<u64>, prompt: bool },
    /// Stop watching the area (if any) and hide the frob description.
    LoseFocus(Option<u64>),
    /// Hide the frob description of the freed area.
    ForgetFrobbed,
    /// Stop watching the area (second, if any) and start carrying the object (first).
    EnterGrab(u64, Option<u64>),
    /// Take off the equipment of the previous item; the new active item is equipped
    /// once that is done.
    TakeOffPrevious(u32),
    /// Take off the current equipment, if any.
    TakeOff,
    /// Equip the item and show its equipment.
    Equip(u32),
    /// Let go of the carried object and throw it.
    Throw,
    /// Let go of the carried object.
    Detach,
    /// Stop carrying (disconnecting from the carried object first when asked) and
    /// point the equipment back up if there is one.
    LeaveGrab(bool),
    /// Activate the equipment, if any.
    ActivateEquipment,
    /// Deactivate the equipment, if any.
    DeactivateEquipment,
}

/// What the player knows of the area it aims at.
#[derive(Debug, Clone, Copy, PartialEq, Eq, Structural)]
pub struct FrobInfo {
    /// The interactable area aimed at, if any.
    pub frobbed: Option<u64>,
    /// Frobbing it has started (its start time is kept).
    pub since_set: bool,
}

/// Nothing aimed at, nothing started.
pub open spec fn no_frob() -> FrobInfo {
    FrobInfo { frobbed: None, since_set: false }
}

/// What the state machine knows of the player.
#[derive(Debug, Clone, Copy, PartialEq, Eq, Structural)]
pub struct PlayerStatus {
    pub state: PlayerStateKind,
    /// The item that is (or is about to be) active.
    pub active_item: Option<u32>,
    /// Equipment of the active item is shown.
    pub has_equipment: bool,
    /// What is aimed at (kept in the default and weapon states; none while carrying).
    pub frob_info: Option<FrobInfo>,
    /// The frob action is being held on something.
    pub is_frobbing: bool,
}

/// The state machine of the player, with its equipment slots.
#[derive(Debug, Clone)]
pub struct PlayerControl {
    pub status: PlayerStatus,
    pub equipped_items: EquippedItems,
}

/// What selecting a slot holding `slot_item` does in state `s` (when not in `Grab`).
pub open spec fn slot_change(s: PlayerStatus, slot_item: Option<u32>) -> (PlayerStatus, PlayerAction) {
    match slot_item {
        Some(new_item) => match s.active_item {
            Some(previous) => if previous == new_item {
                (s, PlayerAction::Nothing)
            } else {
                (
                    PlayerStatus { active_item: Some(new_item), has_equipment: false, ..s },
                    PlayerAction::TakeOffPrevious(previous),
                )
            },
            None => (
                PlayerStatus {
                    state: PlayerStateKind::Weapon,
                    active_item: Some(new_item),
                    has_equipment: true,
                    ..s
                },
                PlayerAction::Equip(new_item),
            ),
        },
        None => (
            PlayerStatus {
                state: PlayerStateKind::Default,
                active_item: None,
                has_equipment: false,
                ..s
            },
            PlayerAction::TakeOff,
        ),
    }
}

/// The status after the active item is equipped (from the default or weapon state).
pub open spec fn equip_active(s: PlayerStatus) -> (PlayerStatus, PlayerAction) {
    match s.active_item {
        Some(item) => (
            PlayerStatus { state: PlayerStateKind::Weapon, has_equipment: true, ..s },
            PlayerAction::Equip(item),
        ),
        None => (s, PlayerAction::Nothing),
    }
}

/// Holding the frob action: with nothing recorded nothing happens; with no area aimed
/// at, frobbing is on and no start is kept; otherwise frobbing is on and started, and
/// its progress is shown until the frob time has passed; then, when the player has
/// acts, the area reacts and frobbing ends with nothing aimed at.
pub open spec fn frob_step(s: PlayerStatus, held_long_enough: bool, has_acts: bool) -> (
    PlayerStatus,
    PlayerAction,
) {
    match s.frob_info {
        None => (s, PlayerAction::Nothing),
        Some(f) => match f.frobbed {
            None => (
                PlayerStatus { is_frobbing: true, frob_info: Some(no_frob()), ..s },
                PlayerAction::Nothing,
            ),
            Some(area) => {
                let started = PlayerStatus {
                    is_frobbing: true,
                    frob_info: Some(FrobInfo { frobbed: Some(area), since_set: true }),
                    ..s
                };
                if !held_long_enough {
                    (started, PlayerAction::FrobProgress(area))
                } else if !has_acts {
                    (started, PlayerAction::Nothing)
                } else {
                    (
                        PlayerStatus { is_frobbing: false, frob_info: Some(no_frob()), ..s },
                        PlayerAction::React(area),
                    )
                }
            },
        },
    }
}

/// The area aimed at, if any.
pub open spec fn frobbed_of(s: PlayerStatus) -> Option<u64> {
    match s.frob_info {
        Some(f) => f.frobbed,
        None => None,
    }
}

/// Releasing the frob action: frobbing ends, and what was aimed at is forgotten.
pub open spec fn stop_step(s: PlayerStatus) -> (PlayerStatus, PlayerAction) {
    (
        PlayerStatus {
            is_frobbing: false,
            frob_info: match s.frob_info {
                Some(_) => Some(no_frob()),
                None => None,
            },
            ..s
        },
        PlayerAction::StopFrobbing(frobbed_of(s)),
    )
}

/// Looking again at what is in front of the player: nothing there forgets what was
/// aimed at (frobbing ends) when something was; something that is not interactable
/// always does; the same area changes nothing; a new area is aimed at, keeping the
/// frob start, and its prompt is shown when it has one.
pub open spec fn shapecast_step(s: PlayerStatus, hit: ShapeCastHit) -> (PlayerStatus, PlayerAction) {
    let f = match s.frob_info {
        Some(f) => f,
        None => no_frob(),
    };
    match hit {
        ShapeCastHit::NoCollision => if f.frobbed is Some {
            (
                PlayerStatus { is_frobbing: false, frob_info: Some(no_frob()), ..s },
                PlayerAction::LoseFocus(f.frobbed),
            )
        } else {
            (PlayerStatus { frob_info: Some(f), ..s }, PlayerAction::Nothing)
        },
        ShapeCastHit::NotReactArea => (
            PlayerStatus { is_frobbing: false, frob_info: Some(no_frob()), ..s },
            PlayerAction::LoseFocus(f.frobbed),
        ),
        ShapeCastHit::ReactArea { area, has_message } => if f.frobbed == Some(area) {
            (PlayerStatus { frob_info: Some(f), ..s }, PlayerAction::Nothing)
        } else {
            (
                PlayerStatus {
                    frob_info: Some(FrobInfo { frobbed: Some(area), since_set: f.since_set }),
                    ..s
                },
                PlayerAction::Focus { area, previous: f.frobbed, prompt: has_message },
            )
        },
    }
}

/// The events handled alike in the default and the weapon state.
pub open spec fn free_hands_step(s: PlayerStatus, slot_item: Option<u32>, e: PlayerEvent) -> (
    PlayerStatus,
    PlayerAction,
) {
    match e {
        PlayerEvent::FrobEvent { held_long_enough, has_acts } => frob_step(
            s,
            held_long_enough,
            has_acts,
        ),
        PlayerEvent::FrobStopEvent => stop_step(s),
        PlayerEvent::Grabbed(object) => (
            PlayerStatus { state: PlayerStateKind::Grab, frob_info: None, ..s },
            PlayerAction::EnterGrab(object, frobbed_of(s)),
        ),
        PlayerEvent::SlotSelected(_) => slot_change(s, slot_item),
        PlayerEvent::OldItemTakenOff => equip_active(s),
        PlayerEvent::ShapeCastUpdateEvent(hit) => shapecast_step(s, hit),
        PlayerEvent::ShapeCastObjectFreed => if s.frob_info is Some {
            (PlayerStatus { frob_info: Some(no_frob()), ..s }, PlayerAction::ForgetFrobbed)
        } else {
            (s, PlayerAction::Nothing)
        },
        PlayerEvent::ActivateEvent => if s.state == PlayerStateKind::Weapon {
            (s, PlayerAction::ActivateEquipment)
        } else {
            (s, PlayerAction::Nothing)
        },
        PlayerEvent::DeactivateEvent => if s.state == PlayerStateKind::Weapon {
            (s, PlayerAction::DeactivateEquipment)
        } else {
            (s, PlayerAction::Nothing)
        },
        _ => (s, PlayerAction::Nothing),
    }
}

/// Leaving the grab state: to the weapon state when equipment is shown, else to the
/// default state; nothing aimed at is remembered.
pub open spec fn leave_grab(s: PlayerStatus, disconnect: bool) -> (PlayerStatus, PlayerAction) {
    (
        PlayerStatus {
            state: if s.has_equipment {
                PlayerStateKind::Weapon
            } else {
                PlayerStateKind::Default
            },
            frob_info: None,
            ..s
        },
        PlayerAction::LeaveGrab(disconnect),
    )
}

/// One step of the state machine: the new status and the action for event `e`;
/// `slot_item` is the item in the selected slot when `e` selects one.
pub open spec fn player_step(s: PlayerStatus, slot_item: Option<u32>, e: PlayerEvent) -> (
    PlayerStatus,
    PlayerAction,
) {
    match s.state {
        PlayerStateKind::Grab => match e {
            PlayerEvent::ActivateEvent => (s, PlayerAction::Throw),
            PlayerEvent::FrobEvent { .. } => (s, PlayerAction::Detach),
            PlayerEvent::GrabbedReleased => leave_grab(s, true),
            PlayerEvent::ColliderFreed => leave_grab(s, false),
            _ => (s, PlayerAction::Nothing),
        },
        _ => free_hands_step(s, slot_item, e),
    }
}

/// The event can be handled: a selected slot exists, and switching between two
/// different items happens only while equipment is shown.
pub open spec fn player_step_ok(s: PlayerStatus, slots: Seq<Option<u32>>, e: PlayerEvent) -> bool {
    match e {
        PlayerEvent::SlotSelected(slot) => s.state == PlayerStateKind::Grab || (slot
            < SLOT_COUNT && (match (slots[slot as int], s.active_item) {
            (Some(new_item), Some(previous)) => previous == new_item || s.has_equipment,
            _ => true,
        })),
        _ => true,
    }
}

/// The item in the slot that `e` selects, if `e` selects one.
pub open spec fn selected_slot_item(slots: Seq<Option<u32>>, e: PlayerEvent) -> Option<u32> {
    match e {
        PlayerEvent::SlotSelected(slot) => slots[slot as int],
        _ => None,
    }
}

impl PlayerControl {
    /// A player in the default state with nothing equipped.
    pub fn new() -> (control: Self)
        ensures
            control.equipped_items.wf(),
            forall|i: int| 0 <= i < SLOT_COUNT ==> #[trigger] control.equipped_items.items@[i] is None,
            control.status == (PlayerStatus {
                state: PlayerStateKind::Default,
                active_item: None,
                has_equipment: false,
                frob_info: None,
                is_frobbing: false,
            }),
    {
        PlayerControl {
            status: PlayerStatus {
                state: PlayerStateKind::Default,
                active_item: None,
                has_equipment: false,
                frob_info: None,
                is_frobbing: false,
            },
            equipped_items: EquippedItems::new(),
        }
    }

    /// Handles one event: moves to the next state and says what the game should do.
    pub fn handle_event(&mut self, event: PlayerEvent) -> (action: PlayerAction)
        requires
            old(self).equipped_items.wf(),
            player_step_ok(old(self).status, old(self).equipped_items.items@, event),
        ensures
            final(self).equipped_items == old(self).equipped_items,
            (final(self).status, action) == player_step(
                old(self).status,
                selected_slot_item(old(self).equipped_items.items@, event),
                event,
            ),
    {
        let s = self.status;
        let (next, action) = match s.state {
            PlayerStateKind::Grab => match event {
                PlayerEvent::ActivateEvent => (s, PlayerAction::Throw),
                PlayerEvent::FrobEvent { .. } => (s, PlayerAction::Detach),
                PlayerEvent::GrabbedReleased => Self::leave_grab(s, true),
                PlayerEvent::ColliderFreed => Self::leave_grab(s, false),
                _ => (s, PlayerAction::Nothing),
            },
            _ => match event {
                PlayerEvent::FrobEvent { held_long_enough, has_acts } => Self::frob(
                    s,
                    held_long_enough,
                    has_acts,
                ),
                PlayerEvent::FrobStopEvent => Self::stop_frobbing(s),
                PlayerEvent::Grabbed(object) => (
                    PlayerStatus {
                        state: PlayerStateKind::Grab,
                        active_item: s.active_item,
                        has_equipment: s.has_equipment,
                        frob_info: None,
                        is_frobbing: s.is_frobbing,
                    },
                    PlayerAction::EnterGrab(object, Self::frobbed(s)),
                ),
                PlayerEvent::SlotSelected(slot) => {
                    let slot_item = self.equipped_items.get(slot);
                    Self::handle_slot_change(s, slot_item)
                },
                PlayerEvent::OldItemTakenOff => match s.active_item {
                    Some(item) => (
                        PlayerStatus {
                            state: PlayerStateKind::Weapon,
                            active_item: s.active_item,
                            has_equipment: true,
                            frob_info: s.frob_info,
                            is_frobbing: s.is_frobbing,
                        },
                        PlayerAction::Equip(item),
                    ),
                    None => (s, PlayerAction::Nothing),
                },
                PlayerEvent::ShapeCastUpdateEvent(hit) => Self::update_shapecast(s, hit),
                PlayerEvent::ShapeCastObjectFreed => if s.frob_info.is_some() {
                    (
                        PlayerStatus {
                            state: s.state,
                            active_item: s.active_item,
                            has_equipment: s.has_equipment,
                            frob_info: Some(FrobInfo { frobbed: None, since_set: false }),
                            is_frobbing: s.is_frobbing,
                        },
                        PlayerAction::ForgetFrobbed,
                    )
                } else {
                    (s, PlayerAction::Nothing)
                },
                PlayerEvent::ActivateEvent => if s.state == PlayerStateKind::Weapon {
                    (s, PlayerAction::ActivateEquipment)
                } else {
                    (s, PlayerAction::Nothing)
                },
                PlayerEvent::DeactivateEvent => if s.state == PlayerStateKind::Weapon {
                    (s, PlayerAction::DeactivateEquipment)
                } else {
                    (s, PlayerAction::Nothing)
                },
                _ => (s, PlayerAction::Nothing),
            },
        };
        self.status = next;
        action
    }

    fn frobbed(s: PlayerStatus) -> (area: Option<u64>)
        ensures
            area == frobbed_of(s),
    {
        match s.frob_info {
            Some(f) => f.frobbed,
            None => None,
        }
    }

    fn with_frob(s: PlayerStatus, frob_info: Option<FrobInfo>, is_frobbing: bool) -> (r: PlayerStatus)
        ensures
            r == (PlayerStatus { frob_info, is_frobbing, ..s }),
    {
        PlayerStatus {
            state: s.state,
            active_item: s.active_item,
            has_equipment: s.has_equipment,
            frob_info,
            is_frobbing,
        }
    }

    fn frob(s: PlayerStatus, held_long_enough: bool, has_acts: bool) -> (r: (PlayerStatus, PlayerAction))
        ensures
            r == frob_step(s, held_long_enough, has_acts),
    {
        let f = match s.frob_info {
            Some(f) => f,
            None => {
                return (s, PlayerAction::Nothing);
            },
        };
        let area = match f.frobbed {
            Some(area) => area,
            None => {
                return (
                    Self::with_frob(s, Some(FrobInfo { frobbed: None, since_set: false }), true),
                    PlayerAction::Nothing,
                );
            },
        };
        let started = Self::with_frob(s, Some(FrobInfo { frobbed: Some(area), since_set: true }), true);
        if !held_long_enough {
            return (started, PlayerAction::FrobProgress(area));
        }
        if !has_acts {
            return (started, PlayerAction::Nothing);
        }
        (
            Self::with_frob(s, Some(FrobInfo { frobbed: None, since_set: false }), false),
            PlayerAction::React(area),
        )
    }

    fn stop_frobbing(s: PlayerStatus) -> (r: (PlayerStatus, PlayerAction))
        ensures
            r == stop_step(s),
    {
        let frob_info = match s.frob_info {
            Some(_) => Some(FrobInfo { frobbed: None, since_set: false }),
            None => None,
        };
        (Self::with_frob(s, frob_info, false), PlayerAction::StopFrobbing(Self::frobbed(s)))
    }

    fn update_shapecast(s: PlayerStatus, hit: ShapeCastHit) -> (r: (PlayerStatus, PlayerAction))
        ensures
            r == shapecast_step(s, hit),
    {
        let f = match s.frob_info {
            Some(f) => f,
            None => FrobInfo { frobbed: None, since_set: false },
        };
        match hit {
            ShapeCastHit::NoCollision => if f.frobbed.is_some() {
                (
                    Self::with_frob(s, Some(FrobInfo { frobbed: None, since_set: false }), false),
                    PlayerAction::LoseFocus(f.frobbed),
                )
            } else {
                (Self::with_frob(s, Some(f), s.is_frobbing), PlayerAction::Nothing)
            },
            ShapeCastHit::NotReactArea => (
                Self::with_frob(s, Some(FrobInfo { frobbed: None, since_set: false }), false),
                PlayerAction::LoseFocus(f.frobbed),
            ),
            ShapeCastHit::ReactArea { area, has_message } => {
                let same = match f.frobbed {
                    Some(current) => current == area,
                    None => false,
                };
                if same {
                    (Self::with_frob(s, Some(f), s.is_frobbing), PlayerAction::Nothing)
                } else {
                    (
                        Self::with_frob(
                            s,
                            Some(FrobInfo { frobbed: Some(area), since_set: f.since_set }),
                            s.is_frobbing,
                        ),
                        PlayerAction::Focus { area, previous: f.frobbed, prompt: has_message },
                    )
                }
            },
        }
    }

    fn leave_grab(s: PlayerStatus, disconnect: bool) -> (r: (PlayerStatus, PlayerAction))
        ensures
            r == leave_grab(s, disconnect),
    {
        let state = if s.has_equipment {
            PlayerStateKind::Weapon
        } else {
            PlayerStateKind::Default
        };
        (
            PlayerStatus {
                state,
                active_item: s.active_item,
                has_equipment: s.has_equipment,
                frob_info: None,
                is_frobbing: s.is_frobbing,
            },
            PlayerAction::LeaveGrab(disconnect),
        )
    }

    fn handle_slot_change(s: PlayerStatus, slot_item: Option<u32>) -> (r: (
        PlayerStatus,
        PlayerAction,
    ))
        requires
            match (slot_item, s.active_item) {
                (Some(new_item), Some(previous)) => previous == new_item || s.has_equipment,
                _ => true,
            },
        ensures
            r == slot_change(s, slot_item),
    {
        match slot_item {
            Some(new_item) => match s.active_item {
                Some(previous) => {
                    if previous == new_item {
                        (s, PlayerAction::Nothing)
                    } else {
                        (
                            PlayerStatus {
                                state: s.state,
                                active_item: Some(new_item),
                                has_equipment: false,
                                frob_info: s.frob_info,
                                is_frobbing: s.is_frobbing,
                            },
                            PlayerAction::TakeOffPrevious(previous),
                        )
                    }
                },
                None => (
                    PlayerStatus {
                        state: PlayerStateKind::Weapon,
                        active_item: Some(new_item),
                        has_equipment: true,
                        frob_info: s.frob_info,
                        is_frobbing: s.is_frobbing,
                    },
                    PlayerAction::Equip(new_item),
                ),
            },
            None => (
                PlayerStatus {
                    state: PlayerStateKind::Default,
                    active_item: None,
                    has_equipment: false,
                    frob_info: s.frob_info,
                    is_frobbing: s.is_frobbing,
                },
                PlayerAction::TakeOff,
            ),
        }
    }
}

// ---------------------------------------------------------------------------
// Laws of the state machine.
// ---------------------------------------------------------------------------

/// While carrying an object the player ignores every event but activate, frob,
/// release and the object being freed; only release or the object being freed ends
/// carrying, and it ends in the weapon state exactly when equipment is shown.
pub proof fn lemma_grab_is_left_only_by_release(s: PlayerStatus, slot_item: Option<u32>, e: PlayerEvent)
    requires
        s.state == PlayerStateKind::Grab,
    ensures
        ({
            let (next, action) = player_step(s, slot_item, e);
            &&& (e == PlayerEvent::GrabbedReleased || e == PlayerEvent::ColliderFreed) <==> next.state
                != PlayerStateKind::Grab
            &&& next.state != PlayerStateKind::Grab ==> (next.state == PlayerStateKind::Weapon
                <==> s.has_equipment)
            &&& next.active_item == s.active_item
            &&& next.has_equipment == s.has_equipment
            &&& !(e == PlayerEvent::ActivateEvent || e is FrobEvent || e
                == PlayerEvent::GrabbedReleased || e == PlayerEvent::ColliderFreed) ==> (next == s
                && action == PlayerAction::Nothing)
        }),
{
}

/// Carrying starts only when an object is grabbed outside the grab state, and then
/// nothing stays aimed at.
pub proof fn lemma_grab_entered_only_by_grabbing(s: PlayerStatus, slot_item: Option<u32>, e: PlayerEvent)
    requires
        s.state != PlayerStateKind::Grab,
    ensures
        player_step(s, slot_item, e).0.state == PlayerStateKind::Grab <==> e is Grabbed,
        e is Grabbed ==> player_step(s, slot_item, e).0.frob_info is None,
{
}

/// Frobbing and looking around never change the state, the active item or whether
/// equipment is shown.
pub proof fn lemma_frob_keeps_state(s: PlayerStatus, slot_item: Option<u32>, e: PlayerEvent)
    requires
        e is FrobEvent || e == PlayerEvent::FrobStopEvent || e is ShapeCastUpdateEvent,
    ensures
        player_step(s, slot_item, e).0.state == s.state,
        player_step(s, slot_item, e).0.active_item == s.active_item,
        player_step(s, slot_item, e).0.has_equipment == s.has_equipment,
{
}

/// An area reacts only when it was the one aimed at, the frob time had passed and the
/// player has acts; afterwards frobbing has ended and nothing is aimed at.
pub proof fn lemma_react_ends_frobbing(s: PlayerStatus, slot_item: Option<u32>, e: PlayerEvent, area: u64)
    ensures
        ({
            let (next, action) = player_step(s, slot_item, e);
            action == PlayerAction::React(area) ==> {
                &&& s.state != PlayerStateKind::Grab
                &&& frobbed_of(s) == Some(area)
                &&& e == (PlayerEvent::FrobEvent { held_long_enough: true, has_acts: true })
                &&& !next.is_frobbing
                &&& next.frob_info == Some(no_frob())
            }
        }),
{
}

/// Looking again at the area already aimed at changes nothing.
pub proof fn lemma_same_area_changes_nothing(s: PlayerStatus, slot_item: Option<u32>, area: u64, has_message: bool)
    requires
        s.state != PlayerStateKind::Grab,
        s.frob_info is Some,
        frobbed_of(s) == Some(area),
    ensures
        player_step(
            s,
            slot_item,
            PlayerEvent::ShapeCastUpdateEvent(ShapeCastHit::ReactArea { area, has_message }),
        ) == (s, PlayerAction::Nothing),
{
}

/// Releasing the fire button deactivates the equipment in the weapon state and does
/// nothing in the default state; pressing it activates the equipment in the weapon
/// state; and no other event ever activates or deactivates the equipment.
pub proof fn lemma_fire_button_drives_equipment(s: PlayerStatus, slot_item: Option<u32>, e: PlayerEvent)
    ensures
        s.state != PlayerStateKind::Grab ==> player_step(s, slot_item, PlayerEvent::DeactivateEvent)
            == (s, if s.state == PlayerStateKind::Weapon {
            PlayerAction::DeactivateEquipment
        } else {
            PlayerAction::Nothing
        }),
        s.state == PlayerStateKind::Weapon ==> player_step(s, slot_item, PlayerEvent::ActivateEvent)
            == (s, PlayerAction::ActivateEquipment),
        player_step(s, slot_item, e).1 == PlayerAction::ActivateEquipment ==> e
            == PlayerEvent::ActivateEvent && s.state == PlayerStateKind::Weapon,
        player_step(s, slot_item, e).1 == PlayerAction::DeactivateEquipment ==> e
            == PlayerEvent::DeactivateEvent && s.state == PlayerStateKind::Weapon,
{
}

/// A step from a status where the default state shows no equipment and the weapon
/// state shows it never ends in the default state with equipment shown.
pub proof fn lemma_default_state_shows_no_equipment(
    s: PlayerStatus,
    slot_item: Option<u32>,
    e: PlayerEvent,
)
    requires
        (s.state == PlayerStateKind::Weapon) ==> s.has_equipment,
        s.state == PlayerStateKind::Default ==> !s.has_equipment,
    ensures
        ({
            let next = player_step(s, slot_item, e);
            &&& next.0.state == PlayerStateKind::Default ==> !next.0.has_equipment
        }),
{
}

} // verus!
