use godot_goap_rust::inventory_entity::{InventoryEntity, InventoryEntityResult};
use godot_goap_rust::inventory_item::{Coord, InventoryItemData, StackResult};
use godot_goap_rust::inventory_manager::{InventoryEvent, InventoryManager};
use godot_goap_rust::item_builder::ItemToSpawn;
use godot_goap_rust::reacts::{CombineItemsInInventory, EffectResult, PickupItem};

fn kind(id: u64, max_stack: u32, w: i32, h: i32) -> InventoryItemData {
    InventoryItemData::new(id, max_stack, Coord { x: w, y: h })
}

fn spawn(amount: u32, data: InventoryItemData) -> ItemToSpawn {
    ItemToSpawn {
        amount,
        assign_position: false,
        position: Coord { x: 0, y: 0 },
        inventory_data: Some(data),
    }
}

fn spawn_at(amount: u32, data: InventoryItemData, x: i32, y: i32) -> ItemToSpawn {
    ItemToSpawn { amount, assign_position: true, position: Coord { x, y }, inventory_data: Some(data) }
}

/// Inventory 1 is 3x3, inventory 2 is 2x2.
fn manager() -> InventoryManager {
    let mut m = InventoryManager::new();
    m.add_inventory(1, InventoryEntity::new(3, 3));
    m.add_inventory(2, InventoryEntity::new(2, 2));
    m
}

fn stack_of(m: &InventoryManager, id: u32) -> u32 {
    m.get_item(id).unwrap().inventory.as_ref().unwrap().stack
}

fn home_of(m: &InventoryManager, id: u32) -> Option<u32> {
    m.get_item(id).unwrap().inventory.as_ref().unwrap().current_inventory_id
}

fn cells(m: &InventoryManager, inventory_id: u32) -> Vec<Option<u32>> {
    let inventory = m.get_inventory(inventory_id).unwrap();
    (0..inventory.cell_count()).map(|i| inventory.get_item_id_at(i)).collect()
}

#[test]
fn manager_places_moves_and_reports() {
    let mut m = manager();
    let id = m.create_item(&spawn(2, kind(10, 5, 1, 1)));
    assert_eq!(id, 1);
    assert_eq!(stack_of(&m, id), 2);
    assert_eq!(home_of(&m, id), None);
    assert!(m.take_events().is_empty());

    assert_eq!(m.put_item_at_first_free_space(id, 1).unwrap(), 1);
    assert_eq!(m.get_item_at(1, 0), Some(1));
    assert_eq!(home_of(&m, id), Some(1));
    assert_eq!(
        m.take_events(),
        vec![InventoryEvent::InventorySwitched(1, 1), InventoryEvent::NewItemCreated(1, 1)]
    );

    assert_eq!(m.move_item(id, 2, 3).unwrap(), 1);
    assert_eq!(m.get_item_at(2, 3), Some(1));
    assert_eq!(m.get_item_at(1, 0), None);
    assert_eq!(home_of(&m, id), Some(2));
    assert_eq!(m.take_events(), vec![InventoryEvent::InventorySwitched(1, 2)]);

    assert!(matches!(m.move_item(id, 9, 0), Err(InventoryEntityResult::WrongItemType(1))));
    assert_eq!(m.get_item_at(9, 0), None);
}

#[test]
fn manager_move_within_inventory_reports_nothing() {
    let mut m = manager();
    let id = m.create_item(&spawn(1, kind(10, 1, 1, 1)));
    m.put_item_at_first_free_space(id, 1).unwrap();
    m.take_events();
    assert_eq!(m.move_item(id, 1, 8).unwrap(), id);
    assert_eq!(cells(&m, 1), vec![None, None, None, None, None, None, None, None, Some(id)]);
    assert!(m.take_events().is_empty());
}

#[test]
fn manager_move_onto_same_kind_merges_stacks() {
    let mut m = manager();
    let a = m.create_item(&spawn(2, kind(10, 5, 1, 1)));
    let b = m.create_item(&spawn(4, kind(10, 5, 1, 1)));
    m.put_item_at_first_free_space(a, 1).unwrap();
    m.put_item_at_first_free_space(b, 1).unwrap();
    assert_eq!(cells(&m, 1)[..2], [Some(a), Some(b)]);
    m.take_events();

    // one item fits onto b: b is filled, a keeps the rest
    assert_eq!(m.move_item(a, 1, 1).unwrap(), a);
    assert_eq!((stack_of(&m, a), stack_of(&m, b)), (1, 5));
    assert_eq!(m.take_events(), vec![InventoryEvent::ItemUpdated(b)]);

    // b is full now: nothing changes
    assert_eq!(m.move_item(a, 1, 1).unwrap(), a);
    assert_eq!((stack_of(&m, a), stack_of(&m, b)), (1, 5));
    assert!(m.take_events().is_empty());

    // a third stack of two absorbs a completely
    let c = m.create_item(&spawn(2, kind(10, 5, 1, 1)));
    m.put_item_at_first_free_space(c, 2).unwrap();
    m.take_events();
    assert!(matches!(m.move_item(a, 2, 0), Err(InventoryEntityResult::ItemDepleted)));
    assert!(m.get_item(a).is_none());
    assert_eq!(stack_of(&m, c), 3);
    assert_eq!(m.get_item_at(1, 0), None);
    assert_eq!(
        m.take_events(),
        vec![InventoryEvent::ItemUpdated(c), InventoryEvent::ItemDeleted(a)]
    );
}

#[test]
fn manager_move_onto_other_kind_is_refused() {
    let mut m = manager();
    let a = m.create_item(&spawn(1, kind(10, 5, 1, 1)));
    let b = m.create_item(&spawn(1, kind(11, 5, 1, 1)));
    m.put_item_at_first_free_space(a, 1).unwrap();
    m.put_item_at_first_free_space(b, 1).unwrap();
    m.take_events();
    match m.move_item(a, 1, 1) {
        Err(InventoryEntityResult::SpaceTaken(t, it)) => {
            assert_eq!(t, vec![(1, b)]);
            assert_eq!(it, a);
        }
        other => panic!("expected space taken, got {:?}", other),
    }
    assert!(m.take_events().is_empty());
    // a shape that leaves the grid is refused too
    let long = m.create_item(&spawn(1, kind(12, 1, 3, 1)));
    assert!(matches!(m.move_item(long, 1, 4), Err(InventoryEntityResult::NoSpaceForItem(_))));
    assert_eq!(home_of(&m, long), None);
}

#[test]
fn manager_try_stack_item_cases() {
    let mut m = manager();
    let a = m.create_item(&spawn(4, kind(10, 5, 1, 1)));
    let b = m.create_item(&spawn(3, kind(10, 5, 1, 1)));
    let other = m.create_item(&spawn(1, kind(11, 5, 1, 1)));
    assert_eq!(m.try_stack_item(a, a), StackResult::WrongType);
    assert_eq!(m.try_stack_item(a, other), StackResult::WrongType);
    assert_eq!(m.try_stack_item(a, b), StackResult::Updated);
    assert_eq!((stack_of(&m, a), stack_of(&m, b)), (2, 5));
    assert_eq!(
        m.take_events(),
        vec![InventoryEvent::ItemUpdated(a), InventoryEvent::ItemUpdated(b)]
    );
    assert_eq!(m.try_stack_item(a, b), StackResult::NoChange);
    assert_eq!(m.try_stack_item(b, a), StackResult::Updated);
    assert_eq!((stack_of(&m, a), stack_of(&m, b)), (5, 2));
    let c = m.create_item(&spawn(1, kind(10, 5, 1, 1)));
    m.take_events();
    assert_eq!(m.try_stack_item(b, c), StackResult::Depleted);
    assert!(m.get_item(b).is_none());
    assert_eq!(stack_of(&m, c), 3);
    assert_eq!(
        m.take_events(),
        vec![InventoryEvent::ItemUpdated(c), InventoryEvent::ItemDeleted(b)]
    );
}

#[test]
fn manager_reduce_and_remove() {
    let mut m = manager();
    let a = m.create_item(&spawn(3, kind(10, 5, 1, 1)));
    m.put_item_at_first_free_space(a, 1).unwrap();
    m.take_events();
    m.reduce_stack(a, 2);
    assert_eq!(stack_of(&m, a), 1);
    assert_eq!(m.take_events(), vec![InventoryEvent::ItemUpdated(a)]);
    m.reduce_stack(a, 1);
    assert!(m.get_item(a).is_none());
    assert_eq!(cells(&m, 1), vec![None; 9]);
    assert_eq!(m.take_events(), vec![InventoryEvent::ItemDeleted(a)]);

    let bare = m.create_item(&ItemToSpawn {
        amount: 1,
        assign_position: false,
        position: Coord { x: 0, y: 0 },
        inventory_data: None,
    });
    m.reduce_stack(bare, 1);
    assert!(m.get_item(bare).unwrap().inventory.is_none());
    assert!(m.take_events().is_empty());
    m.remove_item(bare);
    assert!(m.get_item(bare).is_none());
    assert_eq!(m.take_events(), vec![InventoryEvent::ItemDeleted(bare)]);
}

#[test]
fn manager_create_item_in_inventory_splits_stacks() {
    let mut m = manager();
    assert!(m.create_item_in_inventory(&spawn(7, kind(10, 3, 1, 1)), 1));
    assert_eq!(cells(&m, 1)[..4], [Some(1), Some(2), Some(3), None]);
    assert_eq!((stack_of(&m, 1), stack_of(&m, 2), stack_of(&m, 3)), (3, 3, 1));
    assert_eq!(home_of(&m, 3), Some(1));
    assert_eq!(
        m.take_events(),
        vec![
            InventoryEvent::NewItemCreated(1, 1),
            InventoryEvent::NewItemCreated(1, 2),
            InventoryEvent::NewItemCreated(1, 3),
        ]
    );
    let mut same: Vec<u32> = m.get_items_of_the_same_type(1, 10).into_iter().collect();
    same.sort();
    assert_eq!(same, vec![1, 2, 3]);
    assert!(m.get_items_of_the_same_type(1, 11).is_empty());
    assert_eq!(m.get_items(1).len(), 3);
}

#[test]
fn manager_create_item_at_position_and_failure() {
    let mut m = manager();
    assert!(m.create_item_in_inventory(&spawn_at(1, kind(10, 1, 1, 1), 1, 1), 2));
    assert_eq!(cells(&m, 2), vec![None, None, None, Some(1)]);
    // a second item at the same place does not fit: it is built but not registered
    assert!(!m.create_item_in_inventory(&spawn_at(1, kind(11, 1, 1, 1), 1, 1), 2));
    assert_eq!(cells(&m, 2), vec![None, None, None, Some(1)]);
    assert!(m.get_item(2).is_none());
    // a 2x2 item fills the small inventory; another one finds no place
    let mut fresh = manager();
    assert!(fresh.create_item_in_inventory(&spawn(1, kind(10, 1, 2, 2)), 2));
    assert!(!fresh.create_item_in_inventory(&spawn(2, kind(10, 1, 1, 1)), 2));
    assert_eq!(fresh.get_items(2).len(), 1);
}

#[test]
fn manager_check_grid_cells() {
    let mut m = manager();
    let a = m.create_item(&spawn(1, kind(10, 1, 1, 1)));
    m.put_item_at_first_free_space(a, 1).unwrap();
    let b = m.create_item(&spawn(1, kind(11, 1, 2, 2)));
    // make the shape of b known, as the inventory screen does before asking
    m.put_item_at_first_free_space(b, 2).unwrap();
    match m.check_grid_cells(b, 1, 0) {
        InventoryEntityResult::SpaceTaken(t, it) => {
            assert_eq!(t, vec![(0, a)]);
            assert_eq!(it, b);
        }
        other => panic!("expected space taken, got {:?}", other),
    }
    match m.check_grid_cells(b, 1, 4) {
        InventoryEntityResult::FreeSpace(f, _) => assert_eq!(f, vec![4, 5, 7, 8]),
        other => panic!("expected free space, got {:?}", other),
    }
    assert!(matches!(m.check_grid_cells(b, 1, 5), InventoryEntityResult::NoSpaceForItem(_)));
    assert!(matches!(m.check_grid_cells(b, 7, 0), InventoryEntityResult::WrongItemType(_)));
}

#[test]
fn pickup_merges_onto_existing_stacks_first() {
    let mut m = manager();
    assert!(m.create_item_in_inventory(&spawn(4, kind(10, 5, 1, 1)), 1));
    assert!(m.create_item_in_inventory(&spawn(3, kind(10, 5, 1, 1)), 2));
    m.take_events();
    let picked = m.create_item(&spawn(3, kind(10, 5, 1, 1)));
    let mut pickup = PickupItem { item: Some(picked), inventories_ids: vec![1, 2] };
    assert_eq!(pickup.execute(&mut m), EffectResult::Free);
    assert!(pickup.item.is_none());
    // one item fills the stack in inventory 1, the other two join inventory 2
    assert_eq!(stack_of(&m, 1), 5);
    assert_eq!(stack_of(&m, 2), 5);
    assert!(m.get_item(picked).is_none());
    assert_eq!(
        m.take_events(),
        vec![
            InventoryEvent::ItemUpdated(picked),
            InventoryEvent::ItemUpdated(1),
            InventoryEvent::StackUpdated(1, 1),
            InventoryEvent::ItemUpdated(2),
            InventoryEvent::ItemDeleted(picked),
            InventoryEvent::StackUpdated(2, 2),
        ]
    );
}

#[test]
fn pickup_places_what_is_left() {
    let mut m = manager();
    assert!(m.create_item_in_inventory(&spawn(4, kind(10, 5, 1, 1)), 1));
    m.take_events();
    let picked = m.create_item(&spawn(3, kind(10, 5, 1, 1)));
    let mut pickup = PickupItem { item: Some(picked), inventories_ids: vec![1] };
    assert_eq!(pickup.execute(&mut m), EffectResult::Free);
    assert_eq!((stack_of(&m, 1), stack_of(&m, picked)), (5, 2));
    assert_eq!(home_of(&m, picked), Some(1));
    assert_eq!(m.get_item_at(1, 1), Some(picked));
}

#[test]
fn pickup_goes_to_first_inventory_with_room() {
    let mut m = manager();
    assert!(m.create_item_in_inventory(&spawn(1, kind(20, 1, 2, 2)), 2));
    let picked = m.create_item(&spawn(1, kind(21, 1, 1, 1)));
    let pickup = PickupItem { item: Some(picked), inventories_ids: vec![2, 1] };
    // a kind that does not stack is handed back by the first phase
    assert_eq!(pickup.try_stack_item(&mut m, picked), Err(picked));
    assert_eq!(pickup.try_place_item(&mut m, picked), Ok(EffectResult::Free));
    assert_eq!(home_of(&m, picked), Some(1));
    assert_eq!(m.get_item_at(1, 0), Some(picked));
}

#[test]
fn pickup_without_room_leaves_item_where_it_was() {
    let mut m = manager();
    assert!(m.create_item_in_inventory(&spawn(1, kind(20, 1, 2, 2)), 2));
    m.take_events();
    let picked = m.create_item(&spawn(1, kind(21, 1, 1, 1)));
    let mut pickup = PickupItem { item: Some(picked), inventories_ids: vec![2] };
    assert_eq!(pickup.try_place_item(&mut m, picked), Err(picked));
    assert_eq!(pickup.execute(&mut m), EffectResult::Free);
    assert_eq!(home_of(&m, picked), None);
    assert!(m.take_events().is_empty());
    // an item without an inventory side is done at once
    let bare = m.create_item(&ItemToSpawn {
        amount: 1,
        assign_position: false,
        position: Coord { x: 0, y: 0 },
        inventory_data: None,
    });
    let pickup_bare = PickupItem { item: Some(bare), inventories_ids: vec![1] };
    assert_eq!(pickup_bare.try_stack_item(&mut m, bare), Ok(EffectResult::Free));
    assert!(m.get_item(bare).unwrap().inventory.is_none());
}

#[test]
fn combine_uses_up_both_and_creates_outcome() {
    let mut m = manager();
    assert!(m.create_item_in_inventory(&spawn(1, kind(30, 1, 1, 1)), 2));
    assert!(m.create_item_in_inventory(&spawn(2, kind(31, 5, 1, 1)), 2));
    m.take_events();
    let mut combine = CombineItemsInInventory {
        actor: Some(1),
        reactor: Some(2),
        reduce_stack: true,
        inventories_ids: vec![2, 1],
        outcome: Some(spawn(1, kind(32, 1, 1, 1))),
    };
    assert_eq!(combine.execute(&mut m), EffectResult::Free);
    assert!(combine.actor.is_none() && combine.reactor.is_none());
    assert!(m.get_item(1).is_none());
    assert_eq!(stack_of(&m, 2), 1);
    // the outcome took the cell the actor left
    assert_eq!(m.get_item_at(2, 0), Some(3));
    assert_eq!(
        m.take_events(),
        vec![
            InventoryEvent::ItemDeleted(1),
            InventoryEvent::ItemUpdated(2),
            InventoryEvent::NewItemCreated(2, 3),
        ]
    );
}

#[test]
fn combine_keeps_actor_when_asked_and_tries_next_inventory() {
    let mut m = manager();
    assert!(m.create_item_in_inventory(&spawn(1, kind(30, 1, 2, 2)), 2));
    let reactor = m.create_item(&spawn(1, kind(31, 5, 1, 1)));
    m.take_events();
    let mut combine = CombineItemsInInventory {
        actor: Some(1),
        reactor: Some(reactor),
        reduce_stack: false,
        inventories_ids: vec![2, 1],
        outcome: Some(spawn(1, kind(32, 1, 1, 1))),
    };
    assert_eq!(combine.execute(&mut m), EffectResult::Free);
    assert_eq!(combine.actor, Some(1));
    assert!(m.get_item(1).is_some());
    assert!(m.get_item(reactor).is_none());
    // inventory 2 is full, so the outcome went to inventory 1; the id of the failed
    // attempt was used up
    assert_eq!(m.get_item_at(1, 0), Some(4));
    assert_eq!(
        m.take_events(),
        vec![InventoryEvent::ItemDeleted(reactor), InventoryEvent::NewItemCreated(1, 4)]
    );
}
