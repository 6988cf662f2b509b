use godot_goap_rust::inventory_entity::InventoryEntityResult;
use godot_goap_rust::inventory_ui::{CellHighlights, UiAction, UiEvent, UiState};
use godot_goap_rust::player::{
    EquippedItems, FrobInfo, PlayerAction, PlayerControl, PlayerEvent, PlayerStateKind,
    ShapeCastHit, SLOT_COUNT,
};

fn frob(held_long_enough: bool) -> PlayerEvent {
    PlayerEvent::FrobEvent { held_long_enough, has_acts: true }
}

fn look_at(area: u64, has_message: bool) -> PlayerEvent {
    PlayerEvent::ShapeCastUpdateEvent(ShapeCastHit::ReactArea { area, has_message })
}

#[test]
fn equipped_items_keep_each_item_in_one_slot() {
    let mut slots = EquippedItems::new();
    assert_eq!(slots.items.len(), SLOT_COUNT);
    assert!(slots.items.iter().all(|s| s.is_none()));
    assert_eq!(slots.put_into_slot(1, 7), None);
    assert_eq!(slots.get(0), Some(7));
    // moving the item to slot 3 empties slot 1
    assert_eq!(slots.put_into_slot(3, 7), None);
    assert_eq!(slots.get(0), None);
    assert_eq!(slots.get(2), Some(7));
    // another item replaces it; the replaced one is returned
    assert_eq!(slots.put_into_slot(3, 9), Some(7));
    assert_eq!(slots.items.iter().filter(|s| **s == Some(7)).count(), 0);
    assert_eq!(slots.put_into_slot(3, 9), None);
    slots.remove_from_slot(2, 4);
    assert_eq!(slots.get(2), Some(9));
    slots.remove_from_slot(2, 9);
    assert_eq!(slots.get(2), None);
}

#[test]
fn player_equips_grabs_and_releases() {
    let mut player = PlayerControl::new();
    assert_eq!(player.status.state, PlayerStateKind::Default);
    // an empty slot takes off whatever was equipped
    assert_eq!(player.handle_event(PlayerEvent::SlotSelected(0)), PlayerAction::TakeOff);
    player.equipped_items.put_into_slot(1, 7);
    assert_eq!(player.handle_event(PlayerEvent::SlotSelected(0)), PlayerAction::Equip(7));
    assert_eq!(player.status.state, PlayerStateKind::Weapon);
    assert!(player.status.has_equipment);
    assert_eq!(player.handle_event(PlayerEvent::SlotSelected(0)), PlayerAction::Nothing);
    assert_eq!(player.handle_event(PlayerEvent::ActivateEvent), PlayerAction::ActivateEquipment);
    assert_eq!(player.handle_event(look_at(5, false)), PlayerAction::Focus { area: 5, previous: None, prompt: false });
    assert_eq!(player.handle_event(PlayerEvent::Grabbed(42)), PlayerAction::EnterGrab(42, Some(5)));
    assert_eq!(player.status.frob_info, None);
    assert_eq!(player.status.state, PlayerStateKind::Grab);
    // while carrying, slots and looking around are ignored
    assert_eq!(player.handle_event(PlayerEvent::SlotSelected(4)), PlayerAction::Nothing);
    assert_eq!(player.handle_event(look_at(6, true)), PlayerAction::Nothing);
    assert_eq!(player.status.state, PlayerStateKind::Grab);
    assert_eq!(player.handle_event(PlayerEvent::ActivateEvent), PlayerAction::Throw);
    assert_eq!(player.handle_event(frob(true)), PlayerAction::Detach);
    assert_eq!(player.handle_event(PlayerEvent::GrabbedReleased), PlayerAction::LeaveGrab(true));
    assert_eq!(player.status.state, PlayerStateKind::Weapon);
    assert_eq!(player.status.frob_info, None);
}

#[test]
fn player_swaps_items_through_take_off() {
    let mut player = PlayerControl::new();
    player.equipped_items.put_into_slot(1, 7);
    player.equipped_items.put_into_slot(2, 8);
    player.handle_event(PlayerEvent::SlotSelected(0));
    assert_eq!(player.handle_event(PlayerEvent::SlotSelected(1)), PlayerAction::TakeOffPrevious(7));
    assert_eq!(player.status.active_item, Some(8));
    assert!(!player.status.has_equipment);
    assert_eq!(player.handle_event(PlayerEvent::OldItemTakenOff), PlayerAction::Equip(8));
    assert!(player.status.has_equipment);
    assert_eq!(player.handle_event(PlayerEvent::SlotSelected(5)), PlayerAction::TakeOff);
    assert_eq!(player.status.state, PlayerStateKind::Default);
    assert_eq!(player.status.active_item, None);
    assert_eq!(player.handle_event(PlayerEvent::ActivateEvent), PlayerAction::Nothing);
}

#[test]
fn player_frob_keeps_state() {
    let mut player = PlayerControl::new();
    // nothing recorded yet: frobbing does nothing
    assert_eq!(player.handle_event(frob(true)), PlayerAction::Nothing);
    assert!(!player.status.is_frobbing);
    assert_eq!(player.handle_event(PlayerEvent::FrobStopEvent), PlayerAction::StopFrobbing(None));
    assert_eq!(player.handle_event(PlayerEvent::ShapeCastObjectFreed), PlayerAction::Nothing);
    assert_eq!(
        player.handle_event(PlayerEvent::ShapeCastUpdateEvent(ShapeCastHit::NoCollision)),
        PlayerAction::Nothing
    );
    assert_eq!(player.status.frob_info, Some(FrobInfo { frobbed: None, since_set: false }));
    assert_eq!(player.handle_event(PlayerEvent::ShapeCastObjectFreed), PlayerAction::ForgetFrobbed);
    assert_eq!(player.status.state, PlayerStateKind::Default);
    // the carried object disappearing ends carrying without disconnecting
    player.handle_event(PlayerEvent::Grabbed(3));
    assert_eq!(player.handle_event(PlayerEvent::ColliderFreed), PlayerAction::LeaveGrab(false));
    assert_eq!(player.status.state, PlayerStateKind::Default);
}

#[test]
fn player_frobs_an_area_until_it_reacts() {
    let mut player = PlayerControl::new();
    assert_eq!(player.handle_event(look_at(9, true)), PlayerAction::Focus { area: 9, previous: None, prompt: true });
    // the same area again changes nothing
    let before = player.status;
    assert_eq!(player.handle_event(look_at(9, true)), PlayerAction::Nothing);
    assert_eq!(player.status, before);
    assert_eq!(player.handle_event(frob(false)), PlayerAction::FrobProgress(9));
    assert!(player.status.is_frobbing);
    assert_eq!(player.status.frob_info, Some(FrobInfo { frobbed: Some(9), since_set: true }));
    // without acts nothing reacts
    assert_eq!(
        player.handle_event(PlayerEvent::FrobEvent { held_long_enough: true, has_acts: false }),
        PlayerAction::Nothing
    );
    // a new area keeps the start of frobbing
    assert_eq!(player.handle_event(look_at(10, false)), PlayerAction::Focus { area: 10, previous: Some(9), prompt: false });
    assert_eq!(player.status.frob_info, Some(FrobInfo { frobbed: Some(10), since_set: true }));
    assert_eq!(player.handle_event(frob(true)), PlayerAction::React(10));
    assert!(!player.status.is_frobbing);
    assert_eq!(player.status.frob_info, Some(FrobInfo { frobbed: None, since_set: false }));
}

#[test]
fn player_loses_focus() {
    let mut player = PlayerControl::new();
    player.handle_event(look_at(4, false));
    player.handle_event(frob(false));
    assert_eq!(
        player.handle_event(PlayerEvent::ShapeCastUpdateEvent(ShapeCastHit::NotReactArea)),
        PlayerAction::LoseFocus(Some(4))
    );
    assert!(!player.status.is_frobbing);
    assert_eq!(
        player.handle_event(PlayerEvent::ShapeCastUpdateEvent(ShapeCastHit::NotReactArea)),
        PlayerAction::LoseFocus(None)
    );
    player.handle_event(look_at(5, false));
    player.handle_event(frob(false));
    assert_eq!(player.handle_event(PlayerEvent::FrobStopEvent), PlayerAction::StopFrobbing(Some(5)));
    assert_eq!(player.status.frob_info, Some(FrobInfo { frobbed: None, since_set: false }));
    player.handle_event(look_at(6, false));
    assert_eq!(
        player.handle_event(PlayerEvent::ShapeCastUpdateEvent(ShapeCastHit::NoCollision)),
        PlayerAction::LoseFocus(Some(6))
    );
}

#[test]
fn ui_drag_and_frob_cycle() {
    let press = |presser: u64, running: bool, over: bool, react: bool| UiEvent::Press {
        presser,
        cooldown_running: running,
        cooldown_over: over,
        can_react: react,
    };
    let s = UiState::Default;
    assert_eq!(s.handle(press(5, true, false, false)), (UiState::Default, UiAction::Nothing));
    let (s, a) = s.handle(press(5, false, true, false));
    assert_eq!((s, a), (UiState::MoveItem(5), UiAction::PickUp(5)));
    assert_eq!(s.handle(UiEvent::MouseMotion), (s, UiAction::Drag));
    assert_eq!(s.handle(UiEvent::MouseButton(true)), (s, UiAction::TryRelease));
    assert_eq!(s.handle(press(6, false, false, false)), (s, UiAction::Nothing));
    assert_eq!(s.handle(UiEvent::Hide), (UiState::Default, UiAction::PutBack));
    assert_eq!(s.handle(UiEvent::Released), (UiState::Default, UiAction::Nothing));

    let d = UiState::Default;
    assert_eq!(d.handle(UiEvent::FrobRequest { frobber: 2, can_frob: false }), (d, UiAction::Nothing));
    let (f, a) = d.handle(UiEvent::FrobRequest { frobber: 2, can_frob: true });
    assert_eq!((f, a), (UiState::Frob(2), UiAction::StartFrob(2)));
    assert_eq!(f.handle(press(3, false, true, false)), (f, UiAction::Nothing));
    assert_eq!(f.handle(press(3, false, true, true)), (UiState::Default, UiAction::React(3)));
    assert_eq!(f.handle(press(2, false, true, true)), (UiState::Default, UiAction::EndFrob));
    assert_eq!(f.handle(press(3, true, false, true)), (f, UiAction::Nothing));
}

#[test]
fn highlights_switch_between_free_and_taken() {
    let mut h = CellHighlights::new();
    let change = h.highlight_cells(vec![1, 2]).unwrap();
    assert_eq!(change.unhighlight, Vec::<usize>::new());
    assert_eq!(change.highlight, vec![1, 2]);
    assert!(h.highlight_cells(vec![1, 2]).is_none());
    let change = h.highlight_cells(vec![2, 3]).unwrap();
    assert_eq!(change.unhighlight, vec![1]);
    assert_eq!(change.highlight, vec![2, 3]);
    let change = h.highlight_cells_red(vec![(3, 9), (4, 9)]).unwrap();
    assert_eq!(change.unhighlight, vec![2, 3]);
    assert_eq!(change.highlight, vec![3, 4]);
    assert!(h.highlighted.is_empty());
    assert!(h.highlight_cells_red(vec![(3, 9), (4, 9)]).is_none());
    let change = h.highlight_cells_red(vec![(4, 9)]).unwrap();
    assert_eq!(change.unhighlight, vec![3]);
    assert_eq!(change.highlight, vec![4]);
    assert_eq!(h.stop_highlighting_all(), vec![4]);
    assert!(h.highlighted.is_empty() && h.danger.is_empty());
}

#[test]
fn highlight_grid_follows_check_result() {
    let mut h = CellHighlights::new();
    let change = h.highlight_grid(InventoryEntityResult::FreeSpace(vec![0, 1], 3)).unwrap();
    assert_eq!(change.highlight, vec![0, 1]);
    assert_eq!(h.highlighted, vec![0, 1]);
    let change = h.highlight_grid(InventoryEntityResult::SpaceTaken(vec![(1, 8)], 3)).unwrap();
    assert_eq!(change.unhighlight, vec![0, 1]);
    assert_eq!(change.highlight, vec![1]);
    assert!(h.highlight_grid(InventoryEntityResult::NoSpaceForItem(3)).is_none());
    assert_eq!(h.danger, vec![(1, 8)]);
}

#[test]
fn removing_undoes_putting_into_empty_slot() {
    let mut slots = EquippedItems::new();
    slots.put_into_slot(2, 5);
    let before = slots.items.clone();
    slots.put_into_slot(4, 11);
    slots.remove_from_slot(3, 11);
    assert_eq!(slots.items, before);
}
