//! The inventory side of an item: its kind, its shape in the grid and its stack.
use vstd::prelude::*;

use crate::grid::{ItemSize, RowSpace};

verus! {

/// What an attempt to merge or reduce stacks did.
#[derive(Debug, PartialEq, Eq, Structural, Clone, Copy)]
pub enum StackResult {
    /// The two items are of different kinds.
    WrongType,
    /// The receiving stack was already full.
    NoChange,
    /// The whole stack was used up.
    Depleted,
    /// Part of the stack moved or was taken away.
    Updated,
}

/// A pair of integer coordinates (column `x`, row `y`), or a width and a height.
#[derive(Debug, Clone, Copy, PartialEq, Eq, Structural)]
pub struct Coord {
    pub x: i32,
    pub y: i32,
}

/// The shared description of one kind of inventory item.
#[derive(Debug, Clone)]
pub struct InventoryItemData {
    /// Identity of this kind: two items stack only when their kinds have the same id.
    pub id: u64,
    /// How many items of this kind one stack can hold.
    pub max_stack: u32,
    /// Width and height of a rectangular item; (0, 0) when the shape is set directly.
    pub rectangular_grid_size: Coord,
    /// The shape in the grid, once known.
    pub item_size: Option<ItemSize>,
}

/// The runs of a `width` by `height` rectangle: one run of `width` cells per row.
pub open spec fn rect_rows(width: usize, height: usize) -> Seq<RowSpace> {
    Seq::new(
        height as nat,
        |i: int| RowSpace { col_offset: 0, row_offset: i as usize, growth: width },
    )
}

/// The shape an item of this kind has: the one set, or else the rectangle it names.
pub open spec fn data_rows(data: InventoryItemData) -> Seq<RowSpace> {
    match data.item_size {
        Some(size) => size.space@,
        None => rect_rows(
            data.rectangular_grid_size.x as usize,
            data.rectangular_grid_size.y as usize,
        ),
    }
}

/// The shape of an item of this kind is known or can be derived from its rectangle.
pub open spec fn data_has_size(data: InventoryItemData) -> bool {
    data.item_size.is_some() || (data.rectangular_grid_size != Coord { x: 0, y: 0 }
        && data.rectangular_grid_size.x >= 0 && data.rectangular_grid_size.y >= 0)
}

impl InventoryItemData {
    /// A kind with the given identity, stack limit and rectangle; its shape is
    /// derived from the rectangle when first asked for.
    pub fn new(id: u64, max_stack: u32, rectangular_grid_size: Coord) -> (data: Self)
        ensures
            data.id == id,
            data.max_stack == max_stack,
            data.rectangular_grid_size == rectangular_grid_size,
            data.item_size.is_none(),
    {
        InventoryItemData { id, max_stack, rectangular_grid_size, item_size: None }
    }

    /// The shape, which must already be known.
    pub fn get_size_force(&self) -> (size: &ItemSize)
        requires
            self.item_size.is_some(),
        ensures
            *size == self.item_size.unwrap(),
    {
        self.item_size.as_ref().unwrap()
    }

    /// Makes sure the shape is known, deriving it from the rectangle when it is not yet.
    pub fn get_size(&mut self) -> (size: &ItemSize)
        requires
            data_has_size(*old(self)),
        ensures
            *size == final(self).item_size.unwrap(),
            final(self).item_size.is_some(),
            final(self).item_size.unwrap().space@ == data_rows(*old(self)),
            old(self).item_size.is_some() ==> final(self).item_size == old(self).item_size,
            final(self).id == old(self).id,
            final(self).max_stack == old(self).max_stack,
            final(self).rectangular_grid_size == old(self).rectangular_grid_size,
    {
        if self.item_size.is_none() {
            let w = self.rectangular_grid_size.x;
            let h = self.rectangular_grid_size.y;
            let size = ItemSize::new_rectangular(w as usize, h as usize);
            assert(size.space@ =~= rect_rows(w as usize, h as usize));
            self.item_size = Some(size);
        }
        self.item_size.as_ref().unwrap()
    }
}

/// An item as the inventory sees it.
#[derive(Debug, Clone)]
pub struct InventoryItem {
    /// The inventory the item is in, if any.
    pub current_inventory_id: Option<u32>,
    /// The kind of the item.
    pub inventory_data: InventoryItemData,
    /// How many items this stack holds.
    pub stack: u32,
    /// Column and row of the item's origin in its inventory.
    pub location: Coord,
}

impl InventoryItem {
    /// A single item of the given kind, in no inventory yet.
    pub fn from_data(inventory_data: InventoryItemData) -> (item: Self)
        ensures
            item.current_inventory_id.is_none(),
            item.inventory_data == inventory_data,
            item.stack == 1,
            item.location == (Coord { x: 0, y: 0 }),
    {
        InventoryItem { current_inventory_id: None, inventory_data, stack: 1, location: Coord { x: 0, y: 0 } }
    }

    /// Takes `by` items from the stack. When that would leave nothing the stack is
    /// reported `Depleted` and left as it was (the caller removes the item).
    pub fn reduce_stack(&mut self, by: u32) -> (result: StackResult)
        ensures
            result == (if old(self).stack <= by {
                StackResult::Depleted
            } else {
                StackResult::Updated
            }),
            final(self).stack == (if old(self).stack <= by {
                old(self).stack
            } else {
                (old(self).stack - by) as u32
            }),
            final(self).current_inventory_id == old(self).current_inventory_id,
            final(self).inventory_data == old(self).inventory_data,
            final(self).location == old(self).location,
    {
        if self.stack <= by {
            return StackResult::Depleted;
        }
        self.stack = self.stack - by;
        StackResult::Updated
    }

    /// Moves as much of this stack onto `other` as `other` can still take.
    /// `Depleted`: all of it moved (this stack keeps its count; the caller removes it).
    /// `Updated`: `other` is now full and this stack keeps the rest.
    pub fn stack(&mut self, other: &mut InventoryItem) -> (result: StackResult)
        ensures
            stack_outcome(*old(self), *old(other), *final(self), *final(other), result),
            final(self).current_inventory_id == old(self).current_inventory_id,
            final(self).inventory_data == old(self).inventory_data,
            final(self).location == old(self).location,
            final(other).current_inventory_id == old(other).current_inventory_id,
            final(other).inventory_data == old(other).inventory_data,
            final(other).location == old(other).location,
    {
        if other.inventory_data.id != self.inventory_data.id {
            return StackResult::WrongType;
        }
        let max_stack = self.inventory_data.max_stack;
        let other_stack = other.stack;
        if other_stack >= max_stack {
            return StackResult::NoChange;
        }
        let free_space = max_stack - other_stack;
        if free_space >= self.stack {
            other.stack = other.stack + self.stack;
            return StackResult::Depleted;
        }
        other.stack = other.stack + free_space;
        self.stack = self.stack - free_space;
        StackResult::Updated
    }
}

/// What merging stack `a` onto stack `b` gives (`a2`, `b2` are the stacks afterwards).
pub open spec fn stack_outcome(
    a: InventoryItem,
    b: InventoryItem,
    a2: InventoryItem,
    b2: InventoryItem,
    result: StackResult,
) -> bool {
    if b.inventory_data.id != a.inventory_data.id {
        result == StackResult::WrongType && a2.stack == a.stack && b2.stack == b.stack
    } else if b.stack >= a.inventory_data.max_stack {
        result == StackResult::NoChange && a2.stack == a.stack && b2.stack == b.stack
    } else if a.inventory_data.max_stack - b.stack >= a.stack {
        result == StackResult::Depleted && a2.stack == a.stack && b2.stack == b.stack + a.stack
    } else {
        result == StackResult::Updated && b2.stack == a.inventory_data.max_stack && a2.stack
            == a.stack - (a.inventory_data.max_stack - b.stack)
    }
}

/// Merging stacks never creates or destroys items: when part of a stack moves, the
/// two stacks hold together what they held before, and when the whole stack moves,
/// the receiving stack gains exactly what the other held.
pub proof fn lemma_stack_conserves_items(
    a: InventoryItem,
    b: InventoryItem,
    a2: InventoryItem,
    b2: InventoryItem,
    result: StackResult,
)
    requires
        stack_outcome(a, b, a2, b2, result),
    ensures
        result == StackResult::Updated ==> a2.stack + b2.stack == a.stack + b.stack,
        result == StackResult::Depleted ==> b2.stack == a.stack + b.stack,
        result == StackResult::WrongType || result == StackResult::NoChange ==> a2.stack
            == a.stack && b2.stack == b.stack,
{
}

/// A merge never pushes the receiving stack past the limit of the kind when it
/// started within it, and an `Updated` merge always leaves it exactly full.
pub proof fn lemma_stack_respects_limit(
    a: InventoryItem,
    b: InventoryItem,
    a2: InventoryItem,
    b2: InventoryItem,
    result: StackResult,
)
    requires
        stack_outcome(a, b, a2, b2, result),
        b.stack <= a.inventory_data.max_stack,
    ensures
        b2.stack <= a.inventory_data.max_stack,
        result == StackResult::Updated ==> b2.stack == a.inventory_data.max_stack && a2.stack > 0,
{
}


/// A game item: its identity and, when it can be kept in an inventory, its inventory side.
#[derive(Debug, Clone)]
pub struct Item {
    pub id: u32,
    pub inventory: Option<InventoryItem>,
}


/// The two kinds are the same description: same identity, limit, rectangle and shape.
pub open spec fn same_data(a: InventoryItemData, b: InventoryItemData) -> bool {
    &&& a.id == b.id
    &&& a.max_stack == b.max_stack
    &&& a.rectangular_grid_size == b.rectangular_grid_size
    &&& a.item_size.is_some() == b.item_size.is_some()
    &&& a.item_size.is_some() ==> a.item_size.unwrap().space@ == b.item_size.unwrap().space@
}

/// The two inventory sides agree in every field (shapes compared by their runs).
pub open spec fn same_inventory_item(a: InventoryItem, b: InventoryItem) -> bool {
    &&& a.current_inventory_id == b.current_inventory_id
    &&& same_data(a.inventory_data, b.inventory_data)
    &&& a.stack == b.stack
    &&& a.location == b.location
}

impl ItemSize {
    /// A copy of this shape.
    pub fn duplicate(&self) -> (copy: ItemSize)
        ensures
            copy.space@ == self.space@,
    {
        let mut space: Vec<RowSpace> = Vec::with_capacity(self.space.len());
        let mut i: usize = 0;
        while i < self.space.len()
            invariant
                i <= self.space@.len(),
                space@ == self.space@.take(i as int),
            decreases self.space@.len() - i,
        {
            let r = self.space[i];
            space.push(RowSpace { col_offset: r.col_offset, row_offset: r.row_offset, growth: r.growth });
            i = i + 1;
            assert(space@ =~= self.space@.take(i as int));
        }
        assert(self.space@.take(self.space@.len() as int) =~= self.space@);
        ItemSize { space }
    }
}

impl InventoryItemData {
    /// A copy of this description.
    pub fn duplicate(&self) -> (copy: InventoryItemData)
        ensures
            same_data(copy, *self),
    {
        let item_size = match &self.item_size {
            Some(size) => Some(size.duplicate()),
            None => None,
        };
        InventoryItemData {
            id: self.id,
            max_stack: self.max_stack,
            rectangular_grid_size: self.rectangular_grid_size,
            item_size,
        }
    }
}

impl InventoryItem {
    /// A copy of this inventory side.
    pub fn duplicate(&self) -> (copy: InventoryItem)
        ensures
            same_inventory_item(copy, *self),
    {
        InventoryItem {
            current_inventory_id: self.current_inventory_id,
            inventory_data: self.inventory_data.duplicate(),
            stack: self.stack,
            location: self.location,
        }
    }
}
/// Kinds that are the same description have the same shape.
pub proof fn lemma_same_data_same_rows(a: InventoryItemData, b: InventoryItemData)
    requires
        same_data(a, b),
    ensures
        data_rows(a) == data_rows(b),
        data_has_size(a) == data_has_size(b),
{
}

} // verus!
