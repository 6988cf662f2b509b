//! One inventory: a grid of cells holding item ids, and the placing and moving of items in it.
use vstd::prelude::*;

use crate::grid::{
    fill_cells, first_free_cells, first_free_ok, fits_at, fits_nowhere, free_id,
    lemma_size_cells_in_grid, lemma_size_cells_len, rect_width, size_arith_ok, size_cells,
    size_outside, size_taken, total_growth, Grid, InventoryResult, RowSpace,
};
use crate::inventory_item::{data_has_size, data_rows, Coord, Item};

verus! {

/// Why an item could not be placed, or what a look at the inventory found. Every
/// variant but `ItemDepleted` names the item (by its id).
#[derive(Debug)]
pub enum InventoryEntityResult {
    /// The item fits into these cells.
    FreeSpace(Vec<usize>, u32),
    /// These cells are held by other items (cell, id).
    SpaceTaken(Vec<(usize, u32)>, u32),
    /// The item does not fit.
    NoSpaceForItem(u32),
    /// The item has no inventory side.
    WrongItemType(u32),
    /// The item was used up and no longer exists.
    ItemDepleted,
}

impl InventoryEntityResult {
    /// The item that the result names.
    pub fn item(self) -> (item: u32)
        requires
            !(self is ItemDepleted),
        ensures
            item == match self {
                InventoryEntityResult::FreeSpace(_, i) => i,
                InventoryEntityResult::SpaceTaken(_, i) => i,
                InventoryEntityResult::NoSpaceForItem(i) => i,
                InventoryEntityResult::WrongItemType(i) => i,
                InventoryEntityResult::ItemDepleted => item,
            },
    {
        match self {
            InventoryEntityResult::SpaceTaken(_, item)
            | InventoryEntityResult::NoSpaceForItem(item)
            | InventoryEntityResult::WrongItemType(item)
            | InventoryEntityResult::FreeSpace(_, item) => item,
            InventoryEntityResult::ItemDepleted => vstd::pervasive::unreached(),
        }
    }
}

/// The column and row of cell `index` in a grid `width` cells wide.
pub open spec fn coord_of(width: int, index: int) -> Coord {
    Coord { x: (index % width) as i32, y: (index / width) as i32 }
}

/// The shape of `item` as its kind describes it.
pub open spec fn item_rows(item: Item) -> Seq<RowSpace> {
    data_rows(item.inventory.unwrap().inventory_data)
}

/// The item can be placed: it has an inventory side whose shape is known or derivable.
pub open spec fn placeable(item: Item) -> bool {
    item.inventory.is_some() && data_has_size(item.inventory.unwrap().inventory_data)
}

/// `after` is `before` with the shape of its kind now known; nothing else changed but
/// possibly its location.
pub open spec fn same_item_sized(before: Item, after: Item) -> bool {
    let o = before.inventory.unwrap();
    let n = after.inventory.unwrap();
    &&& after.id == before.id
    &&& after.inventory.is_some()
    &&& n.current_inventory_id == o.current_inventory_id
    &&& n.stack == o.stack
    &&& n.inventory_data.id == o.inventory_data.id
    &&& n.inventory_data.max_stack == o.inventory_data.max_stack
    &&& n.inventory_data.rectangular_grid_size == o.inventory_data.rectangular_grid_size
    &&& n.inventory_data.item_size.is_some()
    &&& n.inventory_data.item_size.unwrap().space@ == data_rows(o.inventory_data)
    &&& o.inventory_data.item_size.is_some() ==> n.inventory_data.item_size
        == o.inventory_data.item_size
}

/// The grid after item `id` moved into `cells`: those cells hold `id`, the cells
/// it held before are emptied, every other cell is unchanged.
pub open spec fn moved_cells(array: Seq<Option<u32>>, cells: Seq<usize>, id: u32) -> Seq<
    Option<u32>,
> {
    Seq::new(
        array.len(),
        |i: int|
            if cells.contains(i as usize) {
                Some(id)
            } else if array[i] == Some(id) {
                None
            } else {
                array[i]
            },
    )
}

/// What checking `item` with its origin at `at` in `grid` answers: `FreeSpace` with the
/// cells it would cover when it fits there (its own cells counting as free),
/// `NoSpaceForItem` when some run leaves the grid, else `SpaceTaken` with the cells
/// held by other items.
pub open spec fn check_at_outcome(result: InventoryEntityResult, grid: Grid, item: Item, at: int) -> bool {
    let w = grid.width as int;
    let h = grid.height as int;
    let rows = item_rows(item);
    let array = grid.array@;
    match result {
        InventoryEntityResult::FreeSpace(f, it) => {
            &&& it == item.id
            &&& !size_outside(w, h, at, rows)
            &&& size_taken(array, Some(item.id), w, at, rows).len() == 0
            &&& f@ == size_cells(w, at, rows)
        },
        InventoryEntityResult::NoSpaceForItem(it) => {
            &&& it == item.id
            &&& size_outside(w, h, at, rows)
        },
        InventoryEntityResult::SpaceTaken(t, it) => {
            &&& it == item.id
            &&& !size_outside(w, h, at, rows)
            &&& t@ == size_taken(array, Some(item.id), w, at, rows)
            &&& t@.len() > 0
        },
        _ => false,
    }
}

/// What `insert_at_first_free_space` does to inventory `before` (giving `after`)
/// and to item `old_item` (giving `new_item`), answering `result`.
pub open spec fn first_free_placement(
    before: InventoryEntity,
    after: InventoryEntity,
    old_item: Item,
    new_item: Item,
    result: Result<u32, InventoryEntityResult>,
) -> bool {
    &&& after.wf()
    &&& after.grid_view().width == before.grid_view().width
    &&& after.grid_view().height == before.grid_view().height
    &&& ({
            let w = before.grid_view().width as int;
            let h = before.grid_view().height as int;
            let rows = item_rows(old_item);
            let array = before.grid_view().array@;
            match result {
                Ok(it) => {
                    &&& it == old_item.id
                    &&& old_item.inventory.is_some()
                    &&& same_item_sized(old_item, new_item)
                    &&& exists|cells: Seq<usize>|
                        #![trigger first_free_cells(array, w, h, rows, cells)]
                        first_free_cells(array, w, h, rows, cells) && after.grid_view().array@
                            == fill_cells(array, cells, Some(old_item.id)) && cells.len() > 0
                            && new_item.inventory.unwrap().location == coord_of(
                            w,
                            cells[0] as int,
                        )
                },
                Err(InventoryEntityResult::NoSpaceForItem(it)) => {
                    &&& it == old_item.id
                    &&& old_item.inventory.is_some()
                    &&& same_item_sized(old_item, new_item)
                    &&& new_item.inventory.unwrap().location == old_item.inventory.unwrap().location
                    &&& fits_nowhere(array, w, h, rows)
                    &&& after.grid_view().array@ == array
                },
                Err(InventoryEntityResult::WrongItemType(it)) => {
                    &&& it == old_item.id
                    &&& old_item.inventory.is_none()
                    &&& new_item == old_item
                    &&& after.grid_view().array@ == array
                },
                _ => false,
            }
        })
}

/// What `try_insert_item_at` with origin `at` does to inventory `before` (giving
/// `after`) and to item `old_item` (giving `new_item`), answering `result`.
pub open spec fn move_placement(
    before: InventoryEntity,
    after: InventoryEntity,
    old_item: Item,
    new_item: Item,
    at: int,
    result: Result<u32, InventoryEntityResult>,
) -> bool {
    &&& after.wf()
    &&& after.grid_view().width == before.grid_view().width
    &&& after.grid_view().height == before.grid_view().height
    &&& ({
            let w = before.grid_view().width as int;
            let h = before.grid_view().height as int;
            let rows = item_rows(old_item);
            let array = before.grid_view().array@;
            let cells = size_cells(w, at, rows);
            let id = old_item.id;
            match result {
                Ok(it) => {
                    &&& it == id
                    &&& old_item.inventory.is_some()
                    &&& same_item_sized(old_item, new_item)
                    &&& fits_at(array, w, h, at, rows, Some(id))
                    &&& after.grid_view().array@ == moved_cells(array, cells, id)
                    &&& cells.len() > 0
                    &&& new_item.inventory.unwrap().location == coord_of(w, cells[0] as int)
                },
                Err(InventoryEntityResult::NoSpaceForItem(it)) => {
                    &&& it == id
                    &&& old_item.inventory.is_some()
                    &&& same_item_sized(old_item, new_item)
                    &&& new_item.inventory.unwrap().location == old_item.inventory.unwrap().location
                    &&& size_outside(w, h, at, rows)
                    &&& after.grid_view().array@ == array
                },
                Err(InventoryEntityResult::SpaceTaken(t, it)) => {
                    &&& it == id
                    &&& old_item.inventory.is_some()
                    &&& same_item_sized(old_item, new_item)
                    &&& new_item.inventory.unwrap().location == old_item.inventory.unwrap().location
                    &&& !size_outside(w, h, at, rows)
                    &&& t@ == size_taken(array, Some(id), w, at, rows)
                    &&& t@.len() > 0
                    &&& after.grid_view().array@ == array
                },
                Err(InventoryEntityResult::WrongItemType(it)) => {
                    &&& it == id
                    &&& old_item.inventory.is_none()
                    &&& new_item == old_item
                    &&& after.grid_view().array@ == array
                },
                _ => false,
            }
        })
}

/// A single inventory.
#[derive(Debug)]
pub struct InventoryEntity {
    grid: Grid,
}

impl InventoryEntity {
    /// The grid of this inventory.
    pub closed spec fn grid_view(&self) -> Grid {
        self.grid
    }

    pub open spec fn wf(&self) -> bool {
        self.grid_view().wf()
    }

    /// The column and row of cell `index`.
    pub fn index_to_coord(&self, index: usize) -> (coord: Coord)
        requires
            self.grid_view().width > 0,
        ensures
            coord == coord_of(self.grid_view().width as int, index as int),
    {
        let width = self.grid.width;
        let row = index / width;
        proof {
            vstd::arithmetic::div_mod::lemma_fundamental_div_mod(index as int, width as int);
            assert(width * (index / width) == (index / width) * width) by (nonlinear_arith);
        }
        let col = index - row * width;
        Coord { x: col as i32, y: row as i32 }
    }

    /// An empty inventory of `width * height` cells.
    pub fn new(width: usize, height: usize) -> (entity: Self)
        requires
            width * height <= usize::MAX,
        ensures
            entity.wf(),
            entity.grid_view().width == width,
            entity.grid_view().height == height,
            entity.grid_view().array@ == Seq::new((width * height) as nat, |i: int| None::<u32>),
    {
        Self { grid: Grid::new(width, height) }
    }

    /// Takes item `item_id` out of the inventory.
    pub fn remove_item(&mut self, item_id: u32)
        ensures
            final(self).grid_view().array@ == free_id(old(self).grid_view().array@, item_id),
            final(self).grid_view().width == old(self).grid_view().width,
            final(self).grid_view().height == old(self).grid_view().height,
    {
        self.grid.free(item_id);
    }

    /// The ids of all items in the inventory.
    pub fn get_items(&self) -> (ids: std::collections::HashSet<u32>)
        ensures
            ids@ == Set::new(
                |id: u32|
                    exists|i: int|
                        0 <= i < self.grid_view().array@.len() && #[trigger] self.grid_view().array@[i]
                            == Some(id),
            ),
    {
        broadcast use vstd::std_specs::hash::group_hash_axioms;

        let ghost cells = self.grid.array@;
        let mut ids: std::collections::HashSet<u32> = std::collections::HashSet::new();
        let n = self.grid.array.len();
        let mut i: usize = 0;
        while i < n
            invariant
                n == cells.len(),
                cells == self.grid.array@,
                i <= n,
                ids@ == Set::new(
                    |id: u32| exists|k: int| 0 <= k < i && #[trigger] cells[k] == Some(id),
                ),
            decreases n - i,
        {
            if let Some(id) = self.grid.array[i] {
                ids.insert(id);
            }
            proof {
                let next = Set::new(
                    |id: u32| exists|k: int| 0 <= k < i + 1 && #[trigger] cells[k] == Some(id),
                );
                assert forall|id: u32| ids@.contains(id) <==> next.contains(id) by {
                    if next.contains(id) {
                        let k = choose|k: int| 0 <= k < i + 1 && #[trigger] cells[k] == Some(id);
                        if k < i {
                            assert(exists|k2: int| 0 <= k2 < i && #[trigger] cells[k2] == Some(id));
                        }
                    }
                }
                assert(ids@ =~= next);
            }
            i = i + 1;
        }
        ids
    }

    /// Returns (width, height).
    pub fn get_size(&self) -> (wh: (usize, usize))
        ensures
            wh == (self.grid_view().width, self.grid_view().height),
    {
        (self.grid.width, self.grid.height)
    }

    /// The number of cells.
    pub fn cell_count(&self) -> (n: usize)
        ensures
            n == self.grid_view().array@.len(),
    {
        self.grid.array.len()
    }

    /// The id of the item in cell `at`, if any.
    pub fn get_item_id_at(&self, at: usize) -> (id: Option<u32>)
        requires
            at < self.grid_view().array@.len(),
        ensures
            id == self.grid_view().array@[at as int],
    {
        self.grid.array[at]
    }
}


/// Whether `x` is one of `v`.
fn contains_index(v: &Vec<usize>, x: usize) -> (found: bool)
    ensures
        found == v@.contains(x),
{
    let mut i: usize = 0;
    while i < v.len()
        invariant
            i <= v@.len(),
            forall|k: int| 0 <= k < i ==> v@[k] != x,
        decreases v@.len() - i,
    {
        if v[i] == x {
            assert(v@[i as int] == x);
            return true;
        }
        i = i + 1;
    }
    false
}

impl InventoryEntity {
    /// Looks at the cells that `item` would cover with its origin at `position_idx`;
    /// cells the item already holds count as free.
    pub fn check_at(&self, item: &Item, position_idx: usize) -> (result: InventoryEntityResult)
        requires
            self.wf(),
            item.inventory.is_some(),
            item.inventory.unwrap().inventory_data.item_size.is_some(),
            self.grid_view().width > 0 || item_rows(*item).len() == 0,
            size_arith_ok(
                self.grid_view().width as int,
                self.grid_view().height as int,
                position_idx as int,
                item_rows(*item),
            ),
        ensures
            check_at_outcome(result, self.grid_view(), *item, position_idx as int),
    {
        let result = self.grid.check_at(
            position_idx,
            item.inventory.as_ref().unwrap().inventory_data.get_size_force(),
            Some(item.id),
        );
        match result {
            InventoryResult::Free(free) => InventoryEntityResult::FreeSpace(free, item.id),
            InventoryResult::OutsideRange => InventoryEntityResult::NoSpaceForItem(item.id),
            InventoryResult::Taken(by) => InventoryEntityResult::SpaceTaken(by, item.id),
            InventoryResult::Inserted(_) => vstd::pervasive::unreached(),
        }
    }

    /// Puts `item` at the first place where it fits (row by row, left to right) and
    /// records that place as its location.
    pub fn insert_at_first_free_space(&mut self, item: &mut Item) -> (result: Result<
        u32,
        InventoryEntityResult,
    >)
        requires
            old(self).wf(),
            placeable(*old(item)) || old(item).inventory.is_none(),
            old(item).inventory.is_some() ==> first_free_ok(
                old(self).grid_view().width as int,
                old(self).grid_view().height as int,
                item_rows(*old(item)),
            ),
            old(item).inventory.is_some() ==> (total_growth(item_rows(*old(item))) > 0
                || rect_width(item_rows(*old(item))) == old(self).grid_view().width + 1),
        ensures
            first_free_placement(*old(self), *final(self), *old(item), *final(item), result),
            result is Err ==> *final(self) == *old(self),
    {
        let id = item.id;
        let mut inv = match item.inventory.take() {
            Some(inv) => inv,
            None => {
                return Err(InventoryEntityResult::WrongItemType(id));
            },
        };
        let ghost w = self.grid.width as int;
        let ghost h = self.grid.height as int;
        let ghost rows = item_rows(*old(item));
        let ghost array = self.grid.array@;
        let len = self.grid.array.len();
        let space_check = self.grid.get_first_free_space(inv.inventory_data.get_size());
        match space_check {
            InventoryResult::Free(ids) => {
                proof {
                    let (row, col) = choose|row: int, col: int|
                        0 <= row <= h - crate::grid::rect_height(rows) && 0 <= col <= w
                            - rect_width(rows) && #[trigger] crate::grid::first_fit(
                            array,
                            w,
                            h,
                            rows,
                            row,
                            col,
                        ) && ids@ == size_cells(w, row * w + col, rows);
                    lemma_size_cells_len(w, row * w + col, rows);
                    assert(rows.len() > 0) by {
                        if rows.len() == 0 {
                            assert(total_growth(rows) == 0);
                            assert(rect_width(rows) == 0);
                        }
                    }
                    assert(w > 0);
                    assert(row * w + col >= 0) by (nonlinear_arith)
                        requires
                            row >= 0,
                            col >= 0,
                            w > 0,
                    ;
                    lemma_size_cells_in_grid(w, h, row * w + col, rows);
                    assert forall|i: int| 0 <= i < ids@.len() implies #[trigger] ids@[i]
                        < self.grid.array@.len() by {
                        assert(ids@[i] == size_cells(w, row * w + col, rows)[i]);
                    }
                    assert(ids@.len() > 0);
                }
                self.grid.force_insert(id, ids.as_slice());
                inv.location = self.index_to_coord(ids[0]);
                item.inventory = Some(inv);
                Ok(id)
            },
            InventoryResult::OutsideRange => {
                item.inventory = Some(inv);
                Err(InventoryEntityResult::NoSpaceForItem(id))
            },
            _ => vstd::pervasive::unreached(),
        }
    }

    /// Moves `item` so that its origin is at cell `at`: when every cell it would cover
    /// is free or its own, it takes those cells, gives up the other cells it held, and
    /// records its new location; otherwise the inventory is left as it was.
    pub fn try_insert_item_at(&mut self, item: &mut Item, at: usize) -> (result: Result<
        u32,
        InventoryEntityResult,
    >)
        requires
            old(self).wf(),
            placeable(*old(item)) || old(item).inventory.is_none(),
            old(item).inventory.is_some() ==> (old(self).grid_view().width > 0 || item_rows(
                *old(item),
            ).len() == 0),
            old(item).inventory.is_some() ==> size_arith_ok(
                old(self).grid_view().width as int,
                old(self).grid_view().height as int,
                at as int,
                item_rows(*old(item)),
            ),
            old(item).inventory.is_some() ==> (total_growth(item_rows(*old(item))) > 0
                || size_outside(
                old(self).grid_view().width as int,
                old(self).grid_view().height as int,
                at as int,
                item_rows(*old(item)),
            )),
        ensures
            move_placement(*old(self), *final(self), *old(item), *final(item), at as int, result),
    {
        let id = item.id;
        let mut inv = match item.inventory.take() {
            Some(inv) => inv,
            None => {
                return Err(InventoryEntityResult::WrongItemType(id));
            },
        };
        let ghost w = self.grid.width as int;
        let ghost h = self.grid.height as int;
        let ghost rows = item_rows(*old(item));
        let ghost array = self.grid.array@;
        let n = self.grid.array.len();
        let mut currently_occupied_space: Vec<usize> = Vec::new();
        let mut i: usize = 0;
        while i < n
            invariant
                n == array.len(),
                self.grid.array@ == array,
                i <= n,
                forall|k: int|
                    0 <= k < currently_occupied_space@.len() ==> #[trigger] currently_occupied_space@[k]
                        < n,
                forall|k: int|
                    0 <= k < n ==> (currently_occupied_space@.contains(k as usize) <==> (k < i
                        && array[k] == Some(id))),
            decreases n - i,
        {
            let ghost before = currently_occupied_space@;
            if self.grid.array[i] == Some(id) {
                currently_occupied_space.push(i);
            }
            proof {
                assert forall|k: int|
                    0 <= k < n implies (currently_occupied_space@.contains(k as usize) <==> (k
                        < i + 1 && array[k] == Some(id))) by {
                    if currently_occupied_space@.contains(k as usize) {
                        let j = choose|j: int|
                            0 <= j < currently_occupied_space@.len()
                                && #[trigger] currently_occupied_space@[j] == k as usize;
                        if j < before.len() {
                            assert(before[j] == k as usize);
                        }
                    }
                    if k < i && array[k] == Some(id) {
                        let j = choose|j: int| 0 <= j < before.len() && #[trigger] before[j] == k as usize;
                        assert(currently_occupied_space@[j] == k as usize);
                    }
                    if k == i && array[k] == Some(id) {
                        assert(currently_occupied_space@[before.len() as int] == k as usize);
                    }
                }
            }
            i = i + 1;
        }
        let result = self.grid.insert_item_at(id, at, inv.inventory_data.get_size());
        match result {
            InventoryResult::Inserted(cells) => {
                let ghost filled = self.grid.array@;
                let mut shared: Vec<usize> = Vec::new();
                let mut j: usize = 0;
                while j < currently_occupied_space.len()
                    invariant
                        j <= currently_occupied_space@.len(),
                        forall|k: int|
                            0 <= k < currently_occupied_space@.len() ==> #[trigger] currently_occupied_space@[k]
                                < n,
                        forall|k: int| 0 <= k < shared@.len() ==> #[trigger] shared@[k] < n,
                        forall|x: usize|
                            shared@.contains(x) <==> (exists|k: int|
                                0 <= k < j && #[trigger] currently_occupied_space@[k] == x)
                                && !cells@.contains(x),
                    decreases currently_occupied_space@.len() - j,
                {
                    let ghost before = shared@;
                    let c = currently_occupied_space[j];
                    if !contains_index(&cells, c) {
                        shared.push(c);
                    }
                    proof {
                        assert forall|x: usize|
                            shared@.contains(x) <==> (exists|k: int|
                                0 <= k < j + 1 && #[trigger] currently_occupied_space@[k] == x)
                                && !cells@.contains(x) by {
                            if shared@.contains(x) {
                                let m = choose|m: int| 0 <= m < shared@.len() && #[trigger] shared@[m] == x;
                                if m < before.len() {
                                    assert(before[m] == x);
                                } else {
                                    assert(currently_occupied_space@[j as int] == x);
                                }
                            }
                            if (exists|k: int|
                                0 <= k < j + 1 && #[trigger] currently_occupied_space@[k] == x)
                                && !cells@.contains(x) {
                                let k = choose|k: int|
                                    0 <= k < j + 1 && #[trigger] currently_occupied_space@[k] == x;
                                if k < j {
                                    let m = choose|m: int| 0 <= m < before.len() && #[trigger] before[m] == x;
                                    assert(shared@[m] == x);
                                } else {
                                    assert(shared@[before.len() as int] == x);
                                }
                            }
                        }
                    }
                    j = j + 1;
                }
                proof {
                    assert forall|k: int| 0 <= k < shared@.len() implies #[trigger] shared@[k]
                        < self.grid.array@.len() by {}
                }
                self.grid.clear(shared.as_slice());
                proof {
                    let cells_s = size_cells(w, at as int, rows);
                    assert forall|k: int| 0 <= k < n implies #[trigger] self.grid.array@[k]
                        == moved_cells(array, cells_s, id)[k] by {
                        if !cells@.contains(k as usize) && array[k] == Some(id) {
                            assert(currently_occupied_space@.contains(k as usize));
                            let m = choose|m: int|
                                0 <= m < currently_occupied_space@.len()
                                    && #[trigger] currently_occupied_space@[m] == k as usize;
                            assert(shared@.contains(k as usize));
                        }
                        if shared@.contains(k as usize) {
                            let m = choose|m: int|
                                0 <= m < currently_occupied_space@.len()
                                    && #[trigger] currently_occupied_space@[m] == k as usize;
                            assert(currently_occupied_space@.contains(k as usize));
                        }
                    }
                    assert(self.grid.array@ =~= moved_cells(array, cells_s, id));
                    lemma_size_cells_len(w, at as int, rows);
                }
                inv.location = self.index_to_coord(cells[0]);
                item.inventory = Some(inv);
                assert(self.wf());
                assert(cells@.len() > 0);
                Ok(id)
            },
            InventoryResult::OutsideRange => {
                item.inventory = Some(inv);
                Err(InventoryEntityResult::NoSpaceForItem(id))
            },
            InventoryResult::Taken(ids) => {
                item.inventory = Some(inv);
                Err(InventoryEntityResult::SpaceTaken(ids, id))
            },
            InventoryResult::Free(_) => vstd::pervasive::unreached(),
        }
    }
}

/// What a check shows is what a move does: for the same inventory, item and origin,
/// the check finds the cells free exactly when the move succeeds (and then names the
/// cells the item takes), finds the item outside the grid exactly when the move
/// reports no space, and finds cells taken exactly when the move is refused for
/// those same cells.
pub proof fn lemma_check_agrees_with_move(
    checked: InventoryEntityResult,
    moved: Result<u32, InventoryEntityResult>,
    before: InventoryEntity,
    after: InventoryEntity,
    item: Item,
    new_item: Item,
    at: int,
)
    requires
        item.inventory is Some,
        check_at_outcome(checked, before.grid_view(), item, at),
        move_placement(before, after, item, new_item, at, moved),
    ensures
        checked is FreeSpace <==> moved is Ok,
        checked matches InventoryEntityResult::FreeSpace(f, _) ==> f@ == size_cells(
            before.grid_view().width as int,
            at,
            item_rows(item),
        ) && after.grid_view().array@ == moved_cells(before.grid_view().array@, f@, item.id),
        checked is NoSpaceForItem <==> moved matches Err(InventoryEntityResult::NoSpaceForItem(_)),
        checked matches InventoryEntityResult::SpaceTaken(t, _) ==> (moved matches Err(
            InventoryEntityResult::SpaceTaken(t2, _),
        ) && t2@ == t@),
{
}

/// After an item moves, it holds exactly the cells it moved into; every cell that
/// neither held it nor was moved into keeps what it held.
pub proof fn lemma_move_places_item_exactly(array: Seq<Option<u32>>, cells: Seq<usize>, id: u32)
    requires
        array.len() <= usize::MAX,
    ensures
        forall|i: int|
            0 <= i < array.len() ==> (#[trigger] moved_cells(array, cells, id)[i] == Some(id)
                <==> cells.contains(i as usize)),
        forall|i: int|
            0 <= i < array.len() && array[i] != Some(id) && !cells.contains(i as usize)
                ==> #[trigger] moved_cells(array, cells, id)[i] == array[i],
{
}
} // verus!
