use godot_goap_rust::grid::{Grid, InventoryResult, ItemSize, RowSpace};
use godot_goap_rust::inventory_entity::{InventoryEntity, InventoryEntityResult};
use godot_goap_rust::inventory_item::{Coord, InventoryItem, InventoryItemData, Item, StackResult};

fn kind(id: u64, max_stack: u32, w: i32, h: i32) -> InventoryItemData {
    InventoryItemData::new(id, max_stack, Coord { x: w, y: h })
}

fn item(id: u32, data: InventoryItemData, stack: u32) -> Item {
    let mut inv = InventoryItem::from_data(data);
    inv.stack = stack;
    Item { id, inventory: Some(inv) }
}

fn cells_of(entity: &InventoryEntity) -> Vec<Option<u32>> {
    (0..entity.cell_count()).map(|i| entity.get_item_id_at(i)).collect()
}

#[test]
fn grid_free_empties_every_cell_of_the_item() {
    let mut grid = Grid::new(3, 2);
    let size = ItemSize::new_rectangular(2, 2);
    assert!(matches!(grid.insert_item_at(7, 1, &size), InventoryResult::Inserted(_)));
    assert_eq!(grid.array, vec![None, Some(7), Some(7), None, Some(7), Some(7)]);
    grid.free(7);
    assert_eq!(grid.array, vec![None; 6]);
}

#[test]
fn grid_first_free_space_is_row_major() {
    let mut grid = Grid::new(3, 3);
    grid.force_insert(1, &[0, 1]);
    let size = ItemSize::new_rectangular(2, 2);
    match grid.get_first_free_space(&size) {
        InventoryResult::Free(cells) => assert_eq!(cells, vec![3, 4, 6, 7]),
        other => panic!("expected free cells, got {:?}", other),
    }
    let big = ItemSize::new_rectangular(3, 3);
    assert!(matches!(grid.get_first_free_space(&big), InventoryResult::OutsideRange));
}

#[test]
fn grid_check_at_reports_taken_cells_and_ignores_own_cells() {
    let mut grid = Grid::new(3, 3);
    grid.force_insert(5, &[4]);
    let size = ItemSize::new_rectangular(2, 2);
    match grid.check_at(0, &size, Some(9)) {
        InventoryResult::Taken(t) => assert_eq!(t, vec![(4, 5)]),
        other => panic!("expected taken, got {:?}", other),
    }
    match grid.check_at(0, &size, Some(5)) {
        InventoryResult::Free(f) => assert_eq!(f, vec![0, 1, 3, 4]),
        other => panic!("expected free, got {:?}", other),
    }
    assert!(matches!(grid.check_at(2, &size, Some(9)), InventoryResult::OutsideRange));
}

#[test]
fn grid_clear_empties_given_cells() {
    let mut grid = Grid::new(2, 2);
    grid.force_insert(3, &[0, 1, 2]);
    grid.clear(&[1, 2]);
    assert_eq!(grid.array, vec![Some(3), None, None, None]);
}

#[test]
fn item_size_rectangle_bounds() {
    let size = ItemSize {
        space: vec![
            RowSpace { row_offset: 0, col_offset: 1, growth: 2 },
            RowSpace { row_offset: 2, col_offset: 0, growth: 1 },
        ],
    };
    assert_eq!(size.total_rectangular_space_taken(), (3, 3));
    assert_eq!(ItemSize::new_rectangular(4, 2).total_rectangular_space_taken(), (4, 2));
}

#[test]
fn kind_shape_is_derived_from_rectangle_once() {
    let mut data = kind(1, 5, 2, 3);
    assert!(data.item_size.is_none());
    let size = data.get_size().space.clone();
    assert_eq!(size, ItemSize::new_rectangular(2, 3).space);
    assert_eq!(data.item_size.as_ref().unwrap().space, size);
    assert_eq!(data.get_size_force().space, size);
}

#[test]
fn reduce_stack_updates_or_depletes() {
    let mut inv = InventoryItem::from_data(kind(1, 9, 1, 1));
    inv.stack = 5;
    assert_eq!(inv.reduce_stack(2), StackResult::Updated);
    assert_eq!(inv.stack, 3);
    assert_eq!(inv.reduce_stack(3), StackResult::Depleted);
    assert_eq!(inv.stack, 3);
}

#[test]
fn stacking_conserves_items() {
    let data = kind(4, 5, 1, 1);
    let mut a = InventoryItem::from_data(data.duplicate());
    let mut b = InventoryItem::from_data(data.duplicate());
    a.stack = 3;
    b.stack = 4;
    assert_eq!(a.stack(&mut b), StackResult::Updated);
    assert_eq!((a.stack, b.stack), (2, 5));
    assert_eq!(a.stack + b.stack, 7);
    assert_eq!(a.stack(&mut b), StackResult::NoChange);
    assert_eq!((a.stack, b.stack), (2, 5));
    let mut c = InventoryItem::from_data(data.duplicate());
    c.stack = 1;
    assert_eq!(a.stack(&mut c), StackResult::Depleted);
    assert_eq!(c.stack, 3);
    let mut other_kind = InventoryItem::from_data(kind(5, 5, 1, 1));
    assert_eq!(a.stack(&mut other_kind), StackResult::WrongType);
    assert_eq!((a.stack, other_kind.stack), (2, 1));
}

#[test]
fn entity_places_items_at_first_free_space() {
    let mut inventory = InventoryEntity::new(3, 3);
    let mut big = item(1, kind(1, 1, 2, 2), 1);
    assert_eq!(inventory.insert_at_first_free_space(&mut big).unwrap(), 1);
    assert_eq!(big.inventory.as_ref().unwrap().location, Coord { x: 0, y: 0 });
    assert_eq!(
        cells_of(&inventory),
        vec![Some(1), Some(1), None, Some(1), Some(1), None, None, None, None]
    );
    let mut second = item(2, kind(1, 1, 2, 2), 1);
    match inventory.insert_at_first_free_space(&mut second) {
        Err(InventoryEntityResult::NoSpaceForItem(id)) => assert_eq!(id, 2),
        other => panic!("expected no space, got {:?}", other),
    }
    let mut small = item(3, kind(2, 1, 1, 1), 1);
    assert_eq!(inventory.insert_at_first_free_space(&mut small).unwrap(), 3);
    assert_eq!(small.inventory.as_ref().unwrap().location, Coord { x: 2, y: 0 });
    assert_eq!(inventory.get_item_id_at(2), Some(3));
    let mut ids: Vec<u32> = inventory.get_items().into_iter().collect();
    ids.sort();
    assert_eq!(ids, vec![1, 3]);
    assert_eq!(inventory.get_size(), (3, 3));
}

#[test]
fn entity_rejects_items_without_inventory_side() {
    let mut inventory = InventoryEntity::new(2, 2);
    let mut bare = Item { id: 8, inventory: None };
    match inventory.insert_at_first_free_space(&mut bare) {
        Err(InventoryEntityResult::WrongItemType(id)) => assert_eq!(id, 8),
        other => panic!("expected wrong item type, got {:?}", other),
    }
    match inventory.try_insert_item_at(&mut bare, 0) {
        Err(InventoryEntityResult::WrongItemType(id)) => assert_eq!(id, 8),
        other => panic!("expected wrong item type, got {:?}", other),
    }
    assert_eq!(cells_of(&inventory), vec![None; 4]);
}

#[test]
fn entity_moves_item_and_frees_old_cells() {
    let mut inventory = InventoryEntity::new(3, 2);
    let mut a = item(1, kind(1, 1, 2, 1), 1);
    assert_eq!(inventory.try_insert_item_at(&mut a, 0).unwrap(), 1);
    assert_eq!(cells_of(&inventory), vec![Some(1), Some(1), None, None, None, None]);
    // moving onto a cell it holds itself counts as free
    assert_eq!(inventory.try_insert_item_at(&mut a, 1).unwrap(), 1);
    assert_eq!(cells_of(&inventory), vec![None, Some(1), Some(1), None, None, None]);
    assert_eq!(a.inventory.as_ref().unwrap().location, Coord { x: 1, y: 0 });
    let mut b = item(2, kind(2, 1, 1, 2), 1);
    match inventory.try_insert_item_at(&mut b, 2) {
        Err(InventoryEntityResult::SpaceTaken(t, id)) => {
            assert_eq!(t, vec![(2, 1)]);
            assert_eq!(id, 2);
        }
        other => panic!("expected space taken, got {:?}", other),
    }
    match inventory.try_insert_item_at(&mut b, 3) {
        Err(InventoryEntityResult::NoSpaceForItem(id)) => assert_eq!(id, 2),
        other => panic!("expected no space, got {:?}", other),
    }
    assert_eq!(cells_of(&inventory), vec![None, Some(1), Some(1), None, None, None]);
    inventory.remove_item(1);
    assert_eq!(cells_of(&inventory), vec![None; 6]);
}

#[test]
fn entity_check_at_answers_without_changing() {
    let mut inventory = InventoryEntity::new(2, 2);
    let mut a = item(1, kind(1, 1, 1, 1), 1);
    inventory.try_insert_item_at(&mut a, 3).unwrap();
    let mut probe = item(2, kind(2, 1, 2, 2), 1);
    probe.inventory.as_mut().unwrap().inventory_data.get_size();
    match inventory.check_at(&probe, 0) {
        InventoryEntityResult::SpaceTaken(t, id) => {
            assert_eq!(t, vec![(3, 1)]);
            assert_eq!(id, 2);
        }
        other => panic!("expected space taken, got {:?}", other),
    }
    match inventory.check_at(&probe, 1) {
        InventoryEntityResult::NoSpaceForItem(id) => assert_eq!(id, 2),
        other => panic!("expected no space, got {:?}", other),
    }
    let mut small = item(3, kind(3, 1, 1, 1), 1);
    small.inventory.as_mut().unwrap().inventory_data.get_size();
    match inventory.check_at(&small, 2) {
        InventoryEntityResult::FreeSpace(f, id) => {
            assert_eq!(f, vec![2]);
            assert_eq!(id, 3);
        }
        other => panic!("expected free space, got {:?}", other),
    }
    assert_eq!(inventory.index_to_coord(3), Coord { x: 1, y: 1 });
    assert_eq!(InventoryEntityResult::NoSpaceForItem(4).item(), 4);
}

#[test]
fn grid_and_shape_as_text() {
    let mut grid = Grid::new(2, 2);
    grid.force_insert(3, &[1]);
    assert_eq!(grid.to_string(), " 0  3 \n 0  0 \n");
    grid.force_insert(12, &[2]);
    assert_eq!(grid.to_string(), " 0  3 \n 12  0 \n");
    assert_eq!(ItemSize::new_rectangular(2, 1).to_string(), " 1  1 \n");
    let shape = ItemSize {
        space: vec![
            RowSpace { row_offset: 0, col_offset: 1, growth: 2 },
            RowSpace { row_offset: 1, col_offset: 0, growth: 1 },
        ],
    };
    assert_eq!(shape.to_string(), " 0  1  1 \n 1  0  0 \n");
    assert_eq!(Grid::new(0, 0).to_string(), "");
}

#[test]
fn item_display_shows_stack_before_name() {
    let many = item(1, kind(1, 99, 1, 1), 12);
    assert_eq!(many.get_item_display("Ammo"), "12 Ammo");
    let one = item(2, kind(1, 99, 1, 1), 1);
    assert_eq!(one.get_item_display("Ammo"), "Ammo");
    let bare = Item { id: 3, inventory: None };
    assert_eq!(bare.get_item_display("Key"), "Key");
    let huge = item(4, kind(1, u32::MAX, 1, 1), 4_000_000_000);
    assert_eq!(huge.get_item_display("x"), "4000000000 x");
}

#[test]
fn check_and_insert_agree() {
    let mut grid = Grid::new(3, 3);
    grid.force_insert(5, &[4]);
    let size = ItemSize::new_rectangular(2, 2);
    let checked = grid.check_at(6, &size, Some(9));
    assert!(matches!(checked, InventoryResult::OutsideRange));
    assert!(matches!(grid.insert_item_at(9, 6, &size), InventoryResult::OutsideRange));
    let checked = grid.check_at(0, &size, Some(9));
    let inserted = grid.insert_item_at(9, 0, &size);
    match (checked, inserted) {
        (InventoryResult::Taken(a), InventoryResult::Taken(b)) => assert_eq!(a, b),
        other => panic!("expected both taken, got {:?}", other),
    }
    grid.free(5);
    let checked = grid.check_at(0, &size, Some(9));
    let inserted = grid.insert_item_at(9, 0, &size);
    match (checked, inserted) {
        (InventoryResult::Free(a), InventoryResult::Inserted(b)) => assert_eq!(a, b),
        other => panic!("expected free then inserted, got {:?}", other),
    }
    assert_eq!(grid.array[..5], [Some(9), Some(9), None, Some(9), Some(9)]);
}

#[test]
fn check_and_move_agree() {
    let mut inventory = InventoryEntity::new(3, 1);
    let mut a = item(1, kind(1, 1, 1, 1), 1);
    inventory.try_insert_item_at(&mut a, 0).unwrap();
    let mut b = item(2, kind(2, 1, 2, 1), 1);
    b.inventory.as_mut().unwrap().inventory_data.get_size();
    assert!(matches!(inventory.check_at(&b, 0), InventoryEntityResult::SpaceTaken(_, 2)));
    assert!(matches!(inventory.try_insert_item_at(&mut b, 0), Err(InventoryEntityResult::SpaceTaken(_, 2))));
    match inventory.check_at(&b, 1) {
        InventoryEntityResult::FreeSpace(f, _) => assert_eq!(f, vec![1, 2]),
        other => panic!("expected free space, got {:?}", other),
    }
    assert_eq!(inventory.try_insert_item_at(&mut b, 1).unwrap(), 2);
    assert_eq!(cells_of(&inventory), vec![Some(1), Some(2), Some(2)]);
}

#[test]
fn reinserting_in_place_changes_nothing() {
    let mut grid = Grid::new(3, 3);
    let size = ItemSize::new_rectangular(2, 2);
    let first = grid.insert_item_at(4, 4, &size);
    let after_first = grid.array.clone();
    let second = grid.insert_item_at(4, 4, &size);
    match (first, second) {
        (InventoryResult::Inserted(a), InventoryResult::Inserted(b)) => assert_eq!(a, b),
        other => panic!("expected two insertions, got {:?}", other),
    }
    assert_eq!(grid.array, after_first);
}

#[test]
fn first_free_space_is_least_fitting_cell() {
    let mut grid = Grid::new(4, 3);
    grid.force_insert(1, &[0, 1, 4, 5]);
    let size = ItemSize::new_rectangular(2, 2);
    let least = (0..grid.array.len())
        .find(|&p| matches!(grid.check_at(p, &size, None), InventoryResult::Free(_)))
        .unwrap();
    assert_eq!(least, 2);
    match (grid.get_first_free_space(&size), grid.check_at(least, &size, None)) {
        (InventoryResult::Free(a), InventoryResult::Free(b)) => assert_eq!(a, b),
        other => panic!("expected free, got {:?}", other),
    }
    grid.force_insert(2, &[2, 3, 6, 7, 8, 9, 10, 11]);
    assert!(matches!(grid.get_first_free_space(&size), InventoryResult::OutsideRange));
}
