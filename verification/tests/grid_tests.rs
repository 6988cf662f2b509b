use godot_goap_rust::grid::{Grid, InventoryResult, ItemSize, RowSpace};

#[test]
fn test_creating_item_sizes() {
    // two rows taking 2 spaces each
    let excepted_item_sizes = [
        ItemSize {
            space: vec![
                RowSpace { row_offset: 0, col_offset: 0, growth: 2 },
                RowSpace { row_offset: 1, col_offset: 0, growth: 2 },
            ],
        },
        ItemSize {
            space: vec![
                RowSpace { row_offset: 0, col_offset: 0, growth: 3 },
                RowSpace { row_offset: 1, col_offset: 0, growth: 3 },
            ],
        },
        ItemSize {
            space: vec![
                RowSpace { row_offset: 0, col_offset: 0, growth: 2 },
                RowSpace { row_offset: 1, col_offset: 0, growth: 2 },
                RowSpace { row_offset: 2, col_offset: 0, growth: 2 },
            ],
        },
    ];
    let created_item_sizes = [
        ItemSize::new_rectangular(2, 2),
        ItemSize::new_rectangular(3, 2),
        ItemSize::new_rectangular(2, 3),
    ];
    for i in 0..excepted_item_sizes.len() {
        if excepted_item_sizes[i] != created_item_sizes[i] {
            panic!(
                "failed creating rectangular item. Excepted: {:?}, given: {:?}",
                excepted_item_sizes[i], created_item_sizes[i]
            )
        }
    }
}

#[test]
fn test_inserting_space_free() {
    let mut grid = Grid::new(3, 3);
    let item_a = ItemSize {
        space: vec![
            RowSpace { row_offset: 0, col_offset: 1, growth: 2 },
            RowSpace { row_offset: 1, col_offset: 0, growth: 1 },
            RowSpace { row_offset: 1, col_offset: 2, growth: 1 },
            RowSpace { row_offset: 2, col_offset: 0, growth: 3 },
        ],
    };
    let insert_result = grid.insert_item_at(1, 0, &item_a);
    // excepted grid result:
    // 0  1  1
    // 1  0  1
    // 1  1  1
    if !matches!(insert_result, InventoryResult::Inserted(_)) {
        panic!(
            "failed to insert an item. Excepted: InventoryResult::Inserted, actual: {:?}",
            insert_result
        );
    }
    if grid.array[0].is_some() || grid.array[4].is_some() {
        panic!("excepted grid indices 0 and 4 to be free!")
    }
    let item_b = ItemSize::new_rectangular(1, 1);
    let insert_result = grid.insert_item_at(2, 4, &item_b);
    // excepted grid result:
    // 0  1  1
    // 1  2  1
    // 1  1  1
    if !matches!(insert_result, InventoryResult::Inserted(_)) {
        panic!(
            "failed to insert an item. Excepted: InventoryResult::Inserted, actual: {:?}",
            insert_result
        );
    }
}

#[test]
fn test_inserting_first_free_space() {
    let mut grid = Grid::new(3, 3);
    let item_a = ItemSize::new_rectangular(2, 3);
    let _ = grid.insert_item_at(1, 0, &item_a);
    let item_b = ItemSize::new_rectangular(1, 2);
    let InventoryResult::Free(first_free_space) = grid.get_first_free_space(&item_b) else {
        panic!("no free space found!")
    };
    if first_free_space != vec![2, 5] {
        panic!("wrong free space!");
    }
    grid.force_insert(2, &first_free_space);
    // excepted grid result:
    // 1  1  2
    // 1  1  2
    // 1  1  0

    let item_c = ItemSize::new_rectangular(1, 1);
    let InventoryResult::Free(first_free_space) = grid.get_first_free_space(&item_c) else {
        panic!("no free space found!")
    };
    if first_free_space != vec![8] {
        panic!("wrong free space!");
    }
}

#[test]
fn test_inserting_space_taken() {
    let mut grid = Grid::new(3, 3);
    let item_a = ItemSize::new_rectangular(2, 2);
    let _ = grid.insert_item_at(1, 0, &item_a);
    let insert_result = grid.insert_item_at(2, 4, &item_a);
    if !matches!(insert_result, InventoryResult::Taken(_)) {
        panic!(
            "Wrong result! Excepted: InventoryResult::Taken, actual: {:?}",
            insert_result
        )
    }
}

#[test]
fn test_inserting_outside_space() {
    let mut grid = Grid::new(3, 3);
    let item_a = ItemSize::new_rectangular(3, 3);
    let insert_result = grid.insert_item_at(2, 4, &item_a);
    if !matches!(insert_result, InventoryResult::OutsideRange) {
        panic!(
            "Wrong result! Excepted: InventoryResult::OutsideRange, actual: {:?}",
            insert_result
        )
    }
}

#[test]
fn test_removing() {
    let mut grid = Grid::new(3, 3);
    let item_a = ItemSize::new_rectangular(2, 2);
    let _ = grid.insert_item_at(1, 0, &item_a);
    assert!(grid.array[0].is_some());
    grid.free(1);
    let insert_result = grid.insert_item_at(2, 4, &item_a);
    if !matches!(insert_result, InventoryResult::Inserted(_)) {
        panic!(
            "given space should be free! Excepted: InventoryResult::Inserted, actual: {:?}",
            insert_result
        )
    }
    assert!(grid.array[0].is_none());
    assert!(grid.array[5].is_some());
}
