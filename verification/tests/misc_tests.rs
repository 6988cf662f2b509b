use godot_goap_rust::hud::DisplayType;
use godot_goap_rust::inventory_item::{Coord, InventoryItemData};
use godot_goap_rust::item_builder::{ItemBuilder, ItemToSpawn};
use godot_goap_rust::sensors::DamageSensor;
use godot_goap_rust::targeting::{
    TargetMask, TargetType, TARGET_DAMAGER, TARGET_KNOWN_CHARACTER, TARGET_VISIBLE_CHARACTER,
};

fn kind(id: u64, max_stack: u32) -> InventoryItemData {
    InventoryItemData::new(id, max_stack, Coord { x: 1, y: 1 })
}

#[test]
fn target_mask_operations() {
    let visible = TargetMask::from_bits(TARGET_VISIBLE_CHARACTER);
    let damager = TargetMask::from_bits(TARGET_DAMAGER);
    let both = visible.union(damager);
    assert_eq!(both.bits, 0b101);
    assert!(both.contains(visible));
    assert!(both.contains(damager));
    assert!(!visible.contains(both));
    assert!(visible.contains(TargetMask::empty()));
    assert_eq!(TargetMask::empty().bits, 0);
}

#[test]
fn target_selectors_follow_mask() {
    let all = TargetMask::priority();
    assert_eq!(all, vec![(TargetMask::from_bits(TARGET_VISIBLE_CHARACTER), TargetType::Character)]);
    let mask = TargetMask::from_bits(TARGET_VISIBLE_CHARACTER | TARGET_KNOWN_CHARACTER);
    assert_eq!(TargetMask::valid_target_selectors(mask), all);
    let none = TargetMask::from_bits(TARGET_KNOWN_CHARACTER);
    assert!(TargetMask::valid_target_selectors(none).is_empty());
    assert!(TargetMask::valid_target_selectors(TargetMask::empty()).is_empty());
}

#[test]
fn hud_hides_every_other_display_with_control() {
    assert_eq!(
        DisplayType::iter(),
        vec![DisplayType::NoDisplay, DisplayType::SpreadGunDisplay, DisplayType::EnergyGunDisplay]
    );
    assert!(DisplayType::SpreadGunDisplay.has_display_control());
    assert!(!DisplayType::EnergyGunDisplay.has_display_control());
    assert!(!DisplayType::NoDisplay.has_display_control());
    assert_eq!(DisplayType::displays_to_hide(DisplayType::NoDisplay), vec![DisplayType::SpreadGunDisplay]);
    assert_eq!(
        DisplayType::displays_to_hide(DisplayType::EnergyGunDisplay),
        vec![DisplayType::SpreadGunDisplay]
    );
    assert!(DisplayType::displays_to_hide(DisplayType::SpreadGunDisplay).is_empty());
}

#[test]
fn damage_sensor_consumes_stimulus() {
    let mut sensor = DamageSensor {};
    assert!(sensor.stimulate());
}

#[test]
fn builder_splits_into_full_stacks_then_rest() {
    let mut counter: u32 = 10;
    let mut builder = ItemBuilder::from_resource(Some(kind(1, 3))).amount(7);
    let items = builder.build_all(&mut counter);
    let stacks: Vec<u32> = items.iter().map(|i| i.inventory.as_ref().unwrap().stack).collect();
    let ids: Vec<u32> = items.iter().map(|i| i.id).collect();
    assert_eq!(stacks, vec![3, 3, 1]);
    assert_eq!(stacks.iter().sum::<u32>(), 7);
    assert_eq!(ids, vec![11, 12, 13]);
    assert_eq!(counter, 13);
    assert!(builder.next(&mut counter).is_none());
    assert_eq!(counter, 13);
}

#[test]
fn builder_exact_multiple_and_single_build() {
    let mut counter: u32 = 0;
    let mut builder = ItemBuilder::from_resource(Some(kind(1, 2))).amount(4);
    let first = builder.next(&mut counter).unwrap();
    let second = builder.next(&mut counter).unwrap();
    assert!(builder.next(&mut counter).is_none());
    assert_eq!(first.inventory.as_ref().unwrap().stack, 2);
    assert_eq!(second.inventory.as_ref().unwrap().stack, 2);
    assert_eq!((first.id, second.id), (1, 2));

    let single = ItemBuilder::from_resource(Some(kind(1, 2))).amount(9).build(&mut counter);
    assert_eq!(single.id, 3);
    assert_eq!(single.inventory.as_ref().unwrap().stack, 9);

    let mut bare = ItemBuilder::new();
    assert!(bare.next(&mut counter).is_none());
    assert!(bare.build_all(&mut counter).is_empty());
    let item = ItemBuilder::from_resource(None).build(&mut counter);
    assert!(item.inventory.is_none());
    assert_eq!(item.id, 4);
}

#[test]
fn spawn_description_gives_builder() {
    let spawn = ItemToSpawn {
        amount: 5,
        assign_position: false,
        position: Coord { x: 0, y: 0 },
        inventory_data: Some(kind(8, 4)),
    };
    let builder = spawn.builder();
    assert_eq!(builder.amount, 5);
    let inv = builder.inventory.unwrap();
    assert_eq!(inv.inventory_data.id, 8);
    assert_eq!(inv.stack, 1);
    assert_eq!(inv.current_inventory_id, None);
}

#[test]
fn next_runs_through_all_stacks() {
    let mut counter: u32 = 5;
    let mut builder = ItemBuilder::from_resource(Some(kind(2, 4))).amount(10);
    let mut stacks = Vec::new();
    let mut ids = Vec::new();
    while let Some(item) = builder.next(&mut counter) {
        stacks.push(item.inventory.as_ref().unwrap().stack);
        ids.push(item.id);
    }
    assert_eq!(stacks, vec![4, 4, 2]);
    assert_eq!(ids, vec![6, 7, 8]);
    assert_eq!(counter, 8);
    assert!(builder.next(&mut counter).is_none());
    let mut empty = ItemBuilder::from_resource(Some(kind(2, 4))).amount(0);
    assert!(empty.next(&mut counter).is_none());
    assert_eq!(counter, 8);
}
