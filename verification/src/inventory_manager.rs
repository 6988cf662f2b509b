//! The registry of all inventories and items, and the operations that move items
//! between them, merge their stacks and create or delete them.
use vstd::prelude::*;

use std::collections::{HashMap, HashSet};

use crate::inventory_entity::{
    check_at_outcome, first_free_placement, item_rows, move_placement, placeable, InventoryEntity,
    InventoryEntityResult,
};
use crate::grid::{first_free_ok, rect_width, size_outside, total_growth};
use crate::inventory_item::{InventoryItem, Item, StackResult};
use crate::item_builder::{stack_sizes, ItemToSpawn};
use crate::grid::{free_id, size_arith_ok};
use crate::inventory_item::{data_has_size, data_rows, lemma_same_data_same_rows, same_data};
use crate::inventory_item::Coord;
use crate::inventory_entity::coord_of;
use crate::grid::lemma_size_cells_first;

verus! {

/// Something that the game shows or reacts to.
#[derive(Debug, Clone, Copy, PartialEq, Eq, Structural)]
pub enum InventoryEvent {
    /// The item (its stack) changed.
    ItemUpdated(u32),
    /// The item no longer exists.
    ItemDeleted(u32),
    /// The item (first) was put into the inventory (second).
    InventorySwitched(u32, u32),
    /// A new item (second) appeared in the inventory (first).
    NewItemCreated(u32, u32),
    /// A stack (second) in the inventory (first) took items from one being picked up.
    StackUpdated(u32, u32),
}

/// The inventory that holds `item`, if any.
pub open spec fn item_home(item: Item) -> Option<u32> {
    match item.inventory {
        Some(inv) => inv.current_inventory_id,
        None => None,
    }
}

/// `item` with its stack set to `stack`.
pub open spec fn restack(item: Item, stack: int) -> Item {
    Item {
        id: item.id,
        inventory: Some(InventoryItem { stack: stack as u32, ..item.inventory.unwrap() }),
    }
}

/// `item` now in inventory `inventory_id`.
pub open spec fn with_home(item: Item, inventory_id: u32) -> Item {
    Item {
        id: item.id,
        inventory: Some(
            InventoryItem { current_inventory_id: Some(inventory_id), ..item.inventory.unwrap() },
        ),
    }
}

/// `item` with its inventory set to `home` (as an inventory side, when it has one).
pub open spec fn with_home_opt(item: Item, home: Option<u32>) -> Item {
    if item.inventory is Some {
        Item {
            id: item.id,
            inventory: Some(InventoryItem { current_inventory_id: home, ..item.inventory.unwrap() }),
        }
    } else {
        item
    }
}

/// The registry after `placed` was put into inventory `inventory_id`: the item now
/// names that inventory; when it came from another one it is emptied from there
/// and reported as switched; a new item is reported as switched and as created.
pub open spec fn registered_at(
    old_inventories: Map<u32, InventoryEntity>,
    new_inventories: Map<u32, InventoryEntity>,
    old_items: Map<u32, Item>,
    new_items: Map<u32, Item>,
    old_events: Seq<InventoryEvent>,
    new_events: Seq<InventoryEvent>,
    placed: Item,
    inventory_id: u32,
) -> bool {
    &&& new_items == old_items.insert(placed.id, with_home(placed, inventory_id))
    &&& match item_home(placed) {
        Some(p) => if p != inventory_id {
            &&& freed_from(
                old_inventories,
                new_inventories,
                if old_inventories.contains_key(p) {
                    Some(p)
                } else {
                    None
                },
                placed.id,
            )
            &&& new_events == old_events.push(InventoryEvent::InventorySwitched(placed.id, inventory_id))
        } else {
            &&& new_inventories == old_inventories
            &&& new_events == old_events
        },
        None => {
            &&& new_inventories == old_inventories
            &&& new_events == old_events.push(
                InventoryEvent::InventorySwitched(placed.id, inventory_id),
            ).push(InventoryEvent::NewItemCreated(inventory_id, placed.id))
        },
    }
}

/// `it` is a freshly built item `id` of the kind of `spawn`, holding `stack` items.
pub open spec fn spawned_item(spawn: ItemToSpawn, id: u32, stack: u32, it: Item) -> bool {
    &&& it.id == id
    &&& match spawn.inventory_data {
        None => it.inventory is None,
        Some(d) => {
            &&& it.inventory is Some
            &&& same_data(it.inventory.unwrap().inventory_data, d)
            &&& it.inventory.unwrap().stack == stack
            &&& it.inventory.unwrap().current_inventory_id is None
            &&& it.inventory.unwrap().location == (Coord { x: 0, y: 0 })
        },
    }
}

/// Merging the stack of item `id` onto item `other` in the registry `items`, with the
/// reports `events` so far: the registry and reports after it, and the answer. Two
/// different items of one kind are needed (else `WrongType`); a full receiving stack
/// gives `NoChange`; when the whole stack fits it moves and item `id` is deleted
/// (`Depleted`); otherwise the receiving stack is filled (`Updated`).
pub open spec fn stack_step(items: Map<u32, Item>, events: Seq<InventoryEvent>, id: u32, other: u32) -> (
    Map<u32, Item>,
    Seq<InventoryEvent>,
    StackResult,
) {
    let a = items[id];
    let b = items[other];
    if id == other || a.inventory is None || b.inventory is None
        || a.inventory.unwrap().inventory_data.id != b.inventory.unwrap().inventory_data.id {
        (items, events, StackResult::WrongType)
    } else {
        let max_stack = a.inventory.unwrap().inventory_data.max_stack;
        let sa = a.inventory.unwrap().stack;
        let sb = b.inventory.unwrap().stack;
        if sb >= max_stack {
            (items, events, StackResult::NoChange)
        } else if max_stack - sb >= sa {
            (
                items.remove(id).insert(other, restack(b, sb + sa)),
                events.push(InventoryEvent::ItemUpdated(other)).push(InventoryEvent::ItemDeleted(id)),
                StackResult::Depleted,
            )
        } else {
            (
                items.insert(id, restack(a, sa - (max_stack - sb))).insert(
                    other,
                    restack(b, max_stack as int),
                ),
                events.push(InventoryEvent::ItemUpdated(id)).push(InventoryEvent::ItemUpdated(other)),
                StackResult::Updated,
            )
        }
    }
}

/// Item `id` is of kind `data_id`.
pub open spec fn kind_is(items: Map<u32, Item>, id: u32, data_id: u64) -> bool {
    items[id].inventory.unwrap().inventory_data.id == data_id
}

/// The ids held in the cells of `inventory`.
pub open spec fn ids_in(inventory: InventoryEntity) -> Set<u32> {
    Set::new(
        |id: u32|
            exists|i: int|
                0 <= i < inventory.grid_view().array@.len() && #[trigger] inventory.grid_view().array@[i]
                    == Some(id),
    )
}

/// `new` is `old` after item `id` was emptied from the grid of its inventory `home`
/// (no change when it has none).
pub open spec fn freed_from(
    old: Map<u32, InventoryEntity>,
    new: Map<u32, InventoryEntity>,
    home: Option<u32>,
    id: u32,
) -> bool {
    match home {
        None => new == old,
        Some(h) => {
            &&& new == old.insert(h, new[h])
            &&& new[h].grid_view().array@ == free_id(old[h].grid_view().array@, id)
            &&& new[h].grid_view().width == old[h].grid_view().width
            &&& new[h].grid_view().height == old[h].grid_view().height
        },
    }
}

/// Every inventory is well formed.
pub open spec fn inventories_wf(m: Map<u32, InventoryEntity>) -> bool {
    forall|k: u32| #[trigger] m.dom().contains(k) ==> m[k].wf()
}

/// Every item is registered under its own id.
pub open spec fn items_keyed(m: Map<u32, Item>) -> bool {
    forall|k: u32| #[trigger] m.dom().contains(k) ==> m[k].id == k
}

/// What taking `by` items from the stack of item `item_id` did to the registry
/// (`before` and `after`): an item without an inventory side is left alone; when
/// nothing would be left the item is deleted and emptied from its inventory;
/// otherwise its stack shrinks by `by` and it is reported as updated.
pub open spec fn stack_reduced(before: InventoryManager, after: InventoryManager, item_id: u32, by: u32) -> bool {
    let item = before.items_view()[item_id];
    match item.inventory {
        None => {
            &&& after.items_view() == before.items_view()
            &&& after.inventories_view() == before.inventories_view()
            &&& after.events_view() == before.events_view()
        },
        Some(inv) => if inv.stack <= by {
            &&& after.items_view() == before.items_view().remove(item_id)
            &&& freed_from(
                before.inventories_view(),
                after.inventories_view(),
                item_home(item),
                item_id,
            )
            &&& after.events_view() == before.events_view().push(InventoryEvent::ItemDeleted(item_id))
        } else {
            &&& after.items_view() == before.items_view().insert(
                item_id,
                restack(item, inv.stack - by),
            )
            &&& after.inventories_view() == before.inventories_view()
            &&& after.events_view() == before.events_view().push(InventoryEvent::ItemUpdated(item_id))
        },
    }
}

/// The registry of all inventories and all items.
#[derive(Debug)]
pub struct InventoryManager {
    current_item_id: u32,
    inventories: HashMap<u32, InventoryEntity>,
    items: HashMap<u32, Item>,
    events: Vec<InventoryEvent>,
}

impl InventoryManager {
    /// The inventories by id.
    pub closed spec fn inventories_view(&self) -> Map<u32, InventoryEntity> {
        self.inventories@
    }

    /// The items by id.
    pub closed spec fn items_view(&self) -> Map<u32, Item> {
        self.items@
    }

    /// The last item id handed out.
    pub closed spec fn item_counter(&self) -> u32 {
        self.current_item_id
    }

    /// What happened so far and was not yet taken.
    pub closed spec fn events_view(&self) -> Seq<InventoryEvent> {
        self.events@
    }

    /// Every inventory is well formed, and every item is registered under its own id.
    pub open spec fn wf(&self) -> bool {
        inventories_wf(self.inventories_view()) && items_keyed(self.items_view())
    }

    /// The inventory of the item exists, if the item is in one.
    pub open spec fn home_known(&self, item: Item) -> bool {
        item_home(item) is Some ==> self.inventories_view().contains_key(item_home(item).unwrap())
    }

    /// No inventories, no items.
    pub fn new() -> (manager: Self)
        ensures
            manager.wf(),
            manager.inventories_view() == Map::<u32, InventoryEntity>::empty(),
            manager.items_view() == Map::<u32, Item>::empty(),
            manager.events_view() == Seq::<InventoryEvent>::empty(),
            manager.item_counter() == 0,
    {
        InventoryManager {
            current_item_id: 0,
            inventories: HashMap::new(),
            items: HashMap::new(),
            events: Vec::new(),
        }
    }

    /// Registers `inventory` under `inventory_id`.
    pub fn add_inventory(&mut self, inventory_id: u32, inventory: InventoryEntity)
        requires
            old(self).wf(),
            inventory.wf(),
        ensures
            final(self).wf(),
            final(self).inventories_view() == old(self).inventories_view().insert(
                inventory_id,
                inventory,
            ),
            final(self).items_view() == old(self).items_view(),
            final(self).events_view() == old(self).events_view(),
            final(self).item_counter() == old(self).item_counter(),
    {
        broadcast use vstd::std_specs::hash::group_hash_axioms;

        self.inventories.insert(inventory_id, inventory);
    }

    /// Records that `event` happened.
    pub(crate) fn notify(&mut self, event: InventoryEvent)
        ensures
            final(self).events_view() == old(self).events_view().push(event),
            final(self).inventories_view() == old(self).inventories_view(),
            final(self).items_view() == old(self).items_view(),
            final(self).item_counter() == old(self).item_counter(),
    {
        self.events.push(event);
    }

    /// Hands over the events that happened so far.
    pub fn take_events(&mut self) -> (events: Vec<InventoryEvent>)
        ensures
            events@ == old(self).events_view(),
            final(self).events_view() == Seq::<InventoryEvent>::empty(),
            final(self).inventories_view() == old(self).inventories_view(),
            final(self).items_view() == old(self).items_view(),
            final(self).item_counter() == old(self).item_counter(),
    {
        let mut events: Vec<InventoryEvent> = Vec::new();
        std::mem::swap(&mut events, &mut self.events);
        events
    }

    /// The item registered under `item_id`, if any.
    pub fn get_item(&self, item_id: u32) -> (item: Option<&Item>)
        ensures
            match item {
                Some(it) => self.items_view().contains_key(item_id) && *it
                    == self.items_view()[item_id],
                None => !self.items_view().contains_key(item_id),
            },
    {
        broadcast use vstd::std_specs::hash::group_hash_axioms;

        self.items.get(&item_id)
    }

    /// The inventory registered under `inventory_id`, if any.
    pub fn get_inventory(&self, inventory_id: u32) -> (inventory: Option<&InventoryEntity>)
        ensures
            match inventory {
                Some(inv) => self.inventories_view().contains_key(inventory_id) && *inv
                    == self.inventories_view()[inventory_id],
                None => !self.inventories_view().contains_key(inventory_id),
            },
    {
        broadcast use vstd::std_specs::hash::group_hash_axioms;

        self.inventories.get(&inventory_id)
    }

    /// Deletes item `item_id`: forgets it and empties its cells in its inventory.
    pub fn remove_item(&mut self, item_id: u32)
        requires
            old(self).wf(),
            old(self).items_view().contains_key(item_id),
            old(self).home_known(old(self).items_view()[item_id]),
        ensures
            final(self).wf(),
            final(self).items_view() == old(self).items_view().remove(item_id),
            freed_from(
                old(self).inventories_view(),
                final(self).inventories_view(),
                item_home(old(self).items_view()[item_id]),
                item_id,
            ),
            final(self).events_view() == old(self).events_view().push(
                InventoryEvent::ItemDeleted(item_id),
            ),
            final(self).item_counter() == old(self).item_counter(),
    {
        broadcast use vstd::std_specs::hash::group_hash_axioms;

        let item = self.items.remove(&item_id).unwrap();
        self.events.push(InventoryEvent::ItemDeleted(item_id));
        let home = match &item.inventory {
            Some(inv) => inv.current_inventory_id,
            None => None,
        };
        if let Some(inventory_id) = home {
            let mut inventory = self.inventories.remove(&inventory_id).unwrap();
            inventory.remove_item(item_id);
            self.inventories.insert(inventory_id, inventory);
            proof {
                assert(self.inventories@ =~= old(self).inventories@.insert(
                    inventory_id,
                    self.inventories@[inventory_id],
                ));
                assert(old(self).inventories_view().dom().contains(inventory_id));
            }
        }
    }

    /// Takes `by` items from the stack of item `item_id`; when nothing would be left
    /// the item is deleted instead. Items without an inventory side are left alone.
    pub fn reduce_stack(&mut self, item_id: u32, by: u32)
        requires
            old(self).wf(),
            old(self).items_view().contains_key(item_id),
            old(self).home_known(old(self).items_view()[item_id]),
        ensures
            final(self).wf(),
            final(self).item_counter() == old(self).item_counter(),
            stack_reduced(*old(self), *final(self), item_id, by),
    {
        broadcast use vstd::std_specs::hash::group_hash_axioms;

        let mut item = self.items.remove(&item_id).unwrap();
        let mut inv = match item.inventory.take() {
            Some(inv) => inv,
            None => {
                self.items.insert(item_id, item);
                assert(self.items@ =~= old(self).items@);
                return;
            },
        };
        let result = inv.reduce_stack(by);
        item.inventory = Some(inv);
        self.items.insert(item_id, item);
        match result {
            StackResult::Depleted => {
                assert(self.items@ =~= old(self).items@);
                self.remove_item(item_id);
            },
            _ => {
                assert(self.items@ =~= old(self).items@.insert(
                    item_id,
                    restack(old(self).items@[item_id], old(self).items@[item_id].inventory.unwrap().stack - by),
                ));
                self.events.push(InventoryEvent::ItemUpdated(item_id));
            },
        }
    }
}


impl InventoryManager {
    /// Merges the stack of item `item_id` onto item `other_id` (see `stack_step`); when
    /// the first item is used up it is also emptied from its inventory.
    pub fn try_stack_item(&mut self, item_id: u32, other_id: u32) -> (result: StackResult)
        requires
            old(self).wf(),
            old(self).items_view().contains_key(item_id),
            old(self).items_view().contains_key(other_id),
            stack_step(old(self).items_view(), old(self).events_view(), item_id, other_id).2
                is Depleted ==> old(self).home_known(old(self).items_view()[item_id]),
        ensures
            final(self).wf(),
            final(self).item_counter() == old(self).item_counter(),
            ({
                let (items, events, r) = stack_step(
                    old(self).items_view(),
                    old(self).events_view(),
                    item_id,
                    other_id,
                );
                &&& result == r
                &&& final(self).items_view() == items
                &&& final(self).events_view() == events
                &&& if r is Depleted {
                    freed_from(
                        old(self).inventories_view(),
                        final(self).inventories_view(),
                        item_home(old(self).items_view()[item_id]),
                        item_id,
                    )
                } else {
                    final(self).inventories_view() == old(self).inventories_view()
                }
            }),
    {
        broadcast use vstd::std_specs::hash::group_hash_axioms;

        if item_id == other_id {
            return StackResult::WrongType;
        }
        let ghost a = old(self).items@[item_id];
        let ghost b = old(self).items@[other_id];
        let mut item = self.items.remove(&item_id).unwrap();
        let mut other = self.items.remove(&other_id).unwrap();
        let (mut inv, mut other_inv) = match (item.inventory.take(), other.inventory.take()) {
            (Some(inv), Some(other_inv)) => (inv, other_inv),
            (i, o) => {
                item.inventory = i;
                other.inventory = o;
                self.items.insert(other_id, other);
                self.items.insert(item_id, item);
                assert(self.items@ =~= old(self).items@);
                return StackResult::WrongType;
            },
        };
        if inv.inventory_data.id != other_inv.inventory_data.id {
            item.inventory = Some(inv);
            other.inventory = Some(other_inv);
            self.items.insert(other_id, other);
            self.items.insert(item_id, item);
            assert(self.items@ =~= old(self).items@);
            return StackResult::WrongType;
        }
        let result = inv.stack(&mut other_inv);
        item.inventory = Some(inv);
        other.inventory = Some(other_inv);
        self.items.insert(other_id, other);
        self.items.insert(item_id, item);
        match result {
            StackResult::Depleted => {
                self.events.push(InventoryEvent::ItemUpdated(other_id));
                let ghost mid = self.items@;
                assert(mid =~= old(self).items@.insert(other_id, restack(b, b.inventory.unwrap().stack + a.inventory.unwrap().stack)));
                self.remove_item(item_id);
                assert(self.items@ =~= old(self).items@.remove(item_id).insert(
                    other_id,
                    restack(b, b.inventory.unwrap().stack + a.inventory.unwrap().stack),
                ));
            },
            StackResult::Updated => {
                self.events.push(InventoryEvent::ItemUpdated(item_id));
                self.events.push(InventoryEvent::ItemUpdated(other_id));
            },
            _ => {
                assert(self.items@ =~= old(self).items@);
            },
        }
        result
    }

    /// Creates one item of the kind of `item_to_spawn`, holding its whole amount, with
    /// the next item id, and registers it. Returns its id.
    pub fn create_item(&mut self, item_to_spawn: &ItemToSpawn) -> (id: u32)
        requires
            old(self).wf(),
            old(self).item_counter() < u32::MAX,
        ensures
            final(self).wf(),
            final(self).item_counter() == old(self).item_counter() + 1,
            id == final(self).item_counter(),
            final(self).items_view().contains_key(id),
            final(self).items_view() == old(self).items_view().insert(id, final(self).items_view()[id]),
            spawned_item(*item_to_spawn, id, item_to_spawn.amount, final(self).items_view()[id]),
            final(self).inventories_view() == old(self).inventories_view(),
            final(self).events_view() == old(self).events_view(),
    {
        broadcast use vstd::std_specs::hash::group_hash_axioms;

        let builder = item_to_spawn.builder();
        let item = builder.build(&mut self.current_item_id);
        let id = item.id;
        self.items.insert(id, item);
        id
    }

    /// The id of the registered item in cell `position_idx` of inventory `inventory_id`.
    pub fn get_item_at(&self, inventory_id: u32, position_idx: usize) -> (id: Option<u32>)
        requires
            self.inventories_view().contains_key(inventory_id) ==> position_idx
                < self.inventories_view()[inventory_id].grid_view().array@.len(),
        ensures
            id == if !self.inventories_view().contains_key(inventory_id) {
                None
            } else {
                match self.inventories_view()[inventory_id].grid_view().array@[position_idx as int] {
                    Some(held) => if self.items_view().contains_key(held) {
                        Some(held)
                    } else {
                        None
                    },
                    None => None,
                }
            },
    {
        broadcast use vstd::std_specs::hash::group_hash_axioms;

        let inventory = match self.inventories.get(&inventory_id) {
            Some(inventory) => inventory,
            None => {
                return None;
            },
        };
        let item_id = match inventory.get_item_id_at(position_idx) {
            Some(item_id) => item_id,
            None => {
                return None;
            },
        };
        if self.items.contains_key(&item_id) {
            Some(item_id)
        } else {
            None
        }
    }

    /// Checks where item `item_id` would go in inventory `inventory_id` with its origin
    /// at `position_idx` (`WrongItemType` when there is no such inventory).
    pub fn check_grid_cells(&self, item_id: u32, inventory_id: u32, position_idx: usize) -> (result:
        InventoryEntityResult)
        requires
            self.wf(),
            self.items_view().contains_key(item_id),
            self.inventories_view().contains_key(inventory_id) ==> {
                let item = self.items_view()[item_id];
                let inventory = self.inventories_view()[inventory_id];
                &&& item.inventory.is_some()
                &&& item.inventory.unwrap().inventory_data.item_size.is_some()
                &&& inventory.grid_view().width > 0 || item_rows(item).len() == 0
                &&& size_arith_ok(
                    inventory.grid_view().width as int,
                    inventory.grid_view().height as int,
                    position_idx as int,
                    item_rows(item),
                )
            },
        ensures
            !self.inventories_view().contains_key(inventory_id) ==> result
                == InventoryEntityResult::WrongItemType(item_id),
            self.inventories_view().contains_key(inventory_id) ==> check_at_outcome(
                result,
                self.inventories_view()[inventory_id].grid_view(),
                self.items_view()[item_id],
                position_idx as int,
            ),
    {
        broadcast use vstd::std_specs::hash::group_hash_axioms;

        let inventory = match self.inventories.get(&inventory_id) {
            Some(inventory) => inventory,
            None => {
                return InventoryEntityResult::WrongItemType(item_id);
            },
        };
        assert(self.inventories_view().dom().contains(inventory_id));
        let item = self.items.get(&item_id).unwrap();
        inventory.check_at(item, position_idx)
    }

    /// The ids of all items in inventory `inventory_id`.
    pub fn get_items(&self, inventory_id: u32) -> (ids: HashSet<u32>)
        requires
            self.inventories_view().contains_key(inventory_id),
            forall|id: u32| #[trigger]
                ids_in(self.inventories_view()[inventory_id]).contains(id)
                    ==> self.items_view().contains_key(id),
        ensures
            ids@ == ids_in(self.inventories_view()[inventory_id]),
    {
        broadcast use vstd::std_specs::hash::group_hash_axioms;

        let inventory = self.inventories.get(&inventory_id).unwrap();
        let ids = inventory.get_items();
        assert(ids@ =~= ids_in(self.inventories_view()[inventory_id]));
        ids
    }

    /// The ids of the items in inventory `inventory_id` whose kind is `data_id`.
    pub fn get_items_of_the_same_type(&self, inventory_id: u32, data_id: u64) -> (ids: HashSet<
        u32,
    >)
        requires
            self.inventories_view().contains_key(inventory_id),
            forall|id: u32| #[trigger]
                ids_in(self.inventories_view()[inventory_id]).contains(id)
                    ==> self.items_view().contains_key(id)
                    && self.items_view()[id].inventory is Some,
        ensures
            ids@ == ids_in(self.inventories_view()[inventory_id]).filter(
                |id: u32| kind_is(self.items_view(), id, data_id),
            ),
    {
        broadcast use vstd::std_specs::hash::group_hash_axioms;

        let inventory = self.inventories.get(&inventory_id).unwrap();
        let ghost cells = inventory.grid_view().array@;
        let n = inventory.cell_count();
        let mut ids: HashSet<u32> = HashSet::new();
        let mut i: usize = 0;
        while i < n
            invariant
                n == cells.len(),
                cells == inventory.grid_view().array@,
                *inventory == self.inventories_view()[inventory_id],
                self.inventories_view().contains_key(inventory_id),
                forall|id: u32| #[trigger]
                    ids_in(self.inventories_view()[inventory_id]).contains(id)
                        ==> self.items_view().contains_key(id)
                        && self.items_view()[id].inventory is Some,
                i <= n,
                ids@ == Set::new(
                    |id: u32| (exists|k: int| 0 <= k < i && #[trigger] cells[k] == Some(id)) && kind_is(self.items_view(), id, data_id),
                ),
            decreases n - i,
        {
            let ghost before = ids@;
            let cell = inventory.get_item_id_at(i);
            if let Some(id) = cell {
                assert(ids_in(self.inventories_view()[inventory_id]).contains(id));
                let item = self.items.get(&id).unwrap();
                let kind = match &item.inventory {
                    Some(inv) => inv.inventory_data.id,
                    None => vstd::pervasive::unreached(),
                };
                assert(*item == self.items_view()[id]);
                assert(kind_is(self.items_view(), id, data_id) == (kind == data_id));
                if kind == data_id {
                    ids.insert(id);
                }
            }
            proof {
                assert(ids@ == if cell is Some && kind_is(self.items_view(), cell.unwrap(), data_id) {
                    before.insert(cell.unwrap())
                } else {
                    before
                });
                let next = Set::new(
                    |id: u32| (exists|k: int| 0 <= k < i + 1 && #[trigger] cells[k] == Some(id)) && kind_is(self.items_view(), id, data_id),
                );
                assert forall|id: u32| ids@.contains(id) <==> next.contains(id) by {
                    if next.contains(id) {
                        let k = choose|k: int| 0 <= k < i + 1 && #[trigger] cells[k] == Some(id);
                        if k < i {
                            assert(exists|k2: int| 0 <= k2 < i && #[trigger] cells[k2] == Some(id));
                        }
                    }
                    if before.contains(id) {
                        let k = choose|k: int| 0 <= k < i && #[trigger] cells[k] == Some(id);
                        assert(exists|k2: int| 0 <= k2 < i + 1 && #[trigger] cells[k2] == Some(id));
                    }
                    if cell == Some(id) {
                        assert(cells[i as int] == Some(id));
                    }
                }
                assert(ids@ =~= next);
            }
            i = i + 1;
        }
        proof {
            let target = ids_in(self.inventories_view()[inventory_id]).filter(
                |id: u32| kind_is(self.items_view(), id, data_id),
            );
            assert forall|id: u32| ids@.contains(id) <==> target.contains(id) by {
                if target.contains(id) {
                    let k = choose|k: int| 0 <= k < cells.len() && #[trigger] cells[k] == Some(id);
                    assert(exists|k2: int| 0 <= k2 < n && #[trigger] cells[k2] == Some(id));
                }
            }
            assert(ids@ =~= target);
        }
        ids
    }
}

impl InventoryManager {
    /// Registers `item` again after an attempt to place it into inventory
    /// `inventory_id`; when the attempt succeeded, the item now names that inventory
    /// (see `registered_at`). Returns `result` as it was.
    fn update_item_and_return_result(
        &mut self,
        result: Result<u32, InventoryEntityResult>,
        item: Item,
        inventory_id: u32,
    ) -> (r: Result<u32, InventoryEntityResult>)
        requires
            old(self).wf(),
            result is Ok ==> item.inventory is Some,
        ensures
            final(self).wf(),
            r == result,
            final(self).item_counter() == old(self).item_counter(),
            result is Ok ==> registered_at(
                old(self).inventories_view(),
                final(self).inventories_view(),
                old(self).items_view(),
                final(self).items_view(),
                old(self).events_view(),
                final(self).events_view(),
                item,
                inventory_id,
            ),
            result is Err ==> {
                &&& final(self).items_view() == old(self).items_view().insert(item.id, item)
                &&& final(self).inventories_view() == old(self).inventories_view()
                &&& final(self).events_view() == old(self).events_view()
            },
    {
        broadcast use vstd::std_specs::hash::group_hash_axioms;

        match result {
            Ok(placed_id) => {
                let mut item = item;
                let id = item.id;
                let mut inv = item.inventory.take().unwrap();
                let previous = inv.current_inventory_id;
                if let Some(p) = previous {
                    if p != inventory_id {
                        if self.inventories.contains_key(&p) {
                            let mut previous_inventory = self.inventories.remove(&p).unwrap();
                            previous_inventory.remove_item(id);
                            self.inventories.insert(p, previous_inventory);
                            proof {
                                assert(self.inventories@ =~= old(self).inventories@.insert(
                                    p,
                                    self.inventories@[p],
                                ));
                                assert(old(self).inventories_view().dom().contains(p));
                            }
                        }
                        self.events.push(InventoryEvent::InventorySwitched(id, inventory_id));
                    }
                }
                inv.current_inventory_id = Some(inventory_id);
                if previous.is_none() {
                    self.events.push(InventoryEvent::InventorySwitched(id, inventory_id));
                    self.events.push(InventoryEvent::NewItemCreated(inventory_id, id));
                }
                item.inventory = Some(inv);
                self.items.insert(id, item);
                Ok(placed_id)
            },
            Err(e) => {
                self.items.insert(item.id, item);
                Err(e)
            },
        }
    }

    /// Puts item `item_id` at the first place where it fits in inventory `inventory_id`
    /// (see `first_free_placement`) and, when it fits, registers it there.
    pub fn put_item_at_first_free_space(&mut self, item_id: u32, inventory_id: u32) -> (result:
        Result<u32, InventoryEntityResult>)
        requires
            old(self).wf(),
            old(self).items_view().contains_key(item_id),
            old(self).inventories_view().contains_key(inventory_id),
            ({
                let item = old(self).items_view()[item_id];
                let inventory = old(self).inventories_view()[inventory_id];
                &&& placeable(item) || item.inventory.is_none()
                &&& item.inventory.is_some() ==> first_free_ok(
                    inventory.grid_view().width as int,
                    inventory.grid_view().height as int,
                    item_rows(item),
                )
                &&& item.inventory.is_some() ==> (total_growth(item_rows(item)) > 0 || rect_width(
                    item_rows(item),
                ) == inventory.grid_view().width + 1)
            }),
        ensures
            final(self).wf(),
            final(self).item_counter() == old(self).item_counter(),
            first_free_put(
                old(self).inventories_view(),
                old(self).items_view(),
                old(self).events_view(),
                final(self).inventories_view(),
                final(self).items_view(),
                final(self).events_view(),
                item_id,
                inventory_id,
                result,
            ),
    {
        broadcast use vstd::std_specs::hash::group_hash_axioms;

        let mut item = self.items.remove(&item_id).unwrap();
        let mut inventory = self.inventories.remove(&inventory_id).unwrap();
        assert(old(self).inventories_view().dom().contains(inventory_id));
        let ghost old_item = item;
        let result = inventory.insert_at_first_free_space(&mut item);
        let ghost placed = item;
        self.inventories.insert(inventory_id, inventory);
        proof {
            assert(self.inventories@ =~= old(self).inventories@.insert(
                inventory_id,
                self.inventories@[inventory_id],
            ));
        }
        let ghost mid = *self;
        let r = self.update_item_and_return_result(result, item, inventory_id);
        proof {
            assert(mid.items_view() == old(self).items_view().remove(item_id));
            assert(placed.inventory is Some ==> item_home(placed) == item_home(old_item));
            assert(with_home_opt(self.items_view()[item_id], item_home(old_item)) == placed) by {
                if placed.inventory is Some {
                    assert(self.items_view()[item_id].inventory is Some);
                }
            }
            match r {
                Ok(_) => {
                    assert(self.inventories_view()[inventory_id] == mid.inventories_view()[inventory_id]);
                },
                Err(_) => {
                    assert(self.items_view() =~= old(self).items_view().insert(item_id, placed));
                    assert(self.inventories_view() =~= old(self).inventories_view());
                },
            }
        }
        r
    }
}

/// What putting item `item_id` at the first place where it fits in inventory
/// `inventory_id` did to the registry (inventories, items and reports before and
/// after), answering `result`: the inventory changed as `first_free_placement` says;
/// when it fit, the item is registered there (see `registered_at`); otherwise it
/// stays where it was, its shape now known.
pub open spec fn first_free_put(
    old_inventories: Map<u32, InventoryEntity>,
    old_items: Map<u32, Item>,
    old_events: Seq<InventoryEvent>,
    new_inventories: Map<u32, InventoryEntity>,
    new_items: Map<u32, Item>,
    new_events: Seq<InventoryEvent>,
    item_id: u32,
    inventory_id: u32,
    result: Result<u32, InventoryEntityResult>,
) -> bool {
    let old_item = old_items[item_id];
    let new_item = new_items[item_id];
    let placed = with_home_opt(new_item, item_home(old_item));
    let placed_into = new_inventories[inventory_id];
    &&& new_items.contains_key(item_id)
    &&& new_inventories.contains_key(inventory_id)
    &&& first_free_placement(old_inventories[inventory_id], placed_into, old_item, placed, result)
    &&& match result {
        Ok(_) => registered_at(
            old_inventories.insert(inventory_id, placed_into),
            new_inventories,
            old_items.remove(item_id),
            new_items,
            old_events,
            new_events,
            placed,
            inventory_id,
        ),
        Err(_) => {
            &&& new_items == old_items.insert(item_id, placed)
            &&& new_inventories == old_inventories
            &&& new_events == old_events
        },
    }
}

/// Item `item_id` can be moved to cell `position_idx` of `inventory`: the cell exists;
/// when another item holds it, both items have an inventory side (their stacks are
/// merged), and the moved one's inventory is known when its whole stack would move;
/// otherwise the item can be placed with its origin there.
pub open spec fn move_ok(
    items: Map<u32, Item>,
    inventories: Map<u32, InventoryEntity>,
    inventory: InventoryEntity,
    item_id: u32,
    position_idx: int,
) -> bool {
    let cell = inventory.grid_view().array@[position_idx];
    let item = items[item_id];
    &&& 0 <= position_idx < inventory.grid_view().array@.len()
    &&& if cell is Some && cell.unwrap() != item_id {
        &&& items.contains_key(cell.unwrap())
        &&& item.inventory is Some
        &&& items[cell.unwrap()].inventory is Some
        &&& ({
            let a = item.inventory.unwrap();
            let b = items[cell.unwrap()].inventory.unwrap();
            a.inventory_data.id == b.inventory_data.id && b.stack < a.inventory_data.max_stack
                && a.inventory_data.max_stack - b.stack >= a.stack
        }) ==> (item_home(item) is Some ==> inventories.contains_key(item_home(item).unwrap()))
    } else {
        &&& placeable(item) || item.inventory.is_none()
        &&& item.inventory.is_some() ==> (inventory.grid_view().width > 0 || item_rows(
            item,
        ).len() == 0)
        &&& item.inventory.is_some() ==> size_arith_ok(
            inventory.grid_view().width as int,
            inventory.grid_view().height as int,
            position_idx,
            item_rows(item),
        )
        &&& item.inventory.is_some() ==> (total_growth(item_rows(item)) > 0 || size_outside(
            inventory.grid_view().width as int,
            inventory.grid_view().height as int,
            position_idx,
            item_rows(item),
        ))
    }
}

impl InventoryManager {
    /// Moves item `item_id` so that its origin is at cell `position_idx` of inventory
    /// `inventory_id`. When another item holds that cell, the moved item's stack is
    /// merged onto it instead: different kinds give `SpaceTaken` with that cell; a
    /// full stack leaves both as they were; when the whole stack fits, the moved item
    /// is deleted (`ItemDepleted`); otherwise the other stack is filled. Else the
    /// item is placed there (see `move_placement`) and registered in that inventory.
    pub fn move_item(&mut self, item_id: u32, inventory_id: u32, position_idx: usize) -> (result:
        Result<u32, InventoryEntityResult>)
        requires
            old(self).wf(),
            old(self).items_view().contains_key(item_id),
            old(self).inventories_view().contains_key(inventory_id) ==> move_ok(
                old(self).items_view(),
                old(self).inventories_view(),
                old(self).inventories_view()[inventory_id],
                item_id,
                position_idx as int,
            ),
        ensures
            final(self).wf(),
            final(self).item_counter() == old(self).item_counter(),
            !old(self).inventories_view().contains_key(inventory_id) ==> {
                &&& result == Err::<u32, InventoryEntityResult>(
                    InventoryEntityResult::WrongItemType(item_id),
                )
                &&& final(self).items_view() == old(self).items_view()
                &&& final(self).inventories_view() == old(self).inventories_view()
                &&& final(self).events_view() == old(self).events_view()
            },
            old(self).inventories_view().contains_key(inventory_id) ==> ({
                let cell = old(self).inventories_view()[inventory_id].grid_view().array@[position_idx as int];
                let a = old(self).items_view()[item_id];
                if cell is Some && cell.unwrap() != item_id {
                    let other_id = cell.unwrap();
                    let b = old(self).items_view()[other_id];
                    let max_stack = a.inventory.unwrap().inventory_data.max_stack;
                    let sa = a.inventory.unwrap().stack;
                    let sb = b.inventory.unwrap().stack;
                    if a.inventory.unwrap().inventory_data.id != b.inventory.unwrap().inventory_data.id {
                        &&& result matches Err(InventoryEntityResult::SpaceTaken(t, it)) && it == item_id
                            && t@ == seq![(position_idx, other_id)]
                        &&& final(self).items_view() == old(self).items_view()
                        &&& final(self).inventories_view() == old(self).inventories_view()
                        &&& final(self).events_view() == old(self).events_view()
                    } else if sb >= max_stack {
                        &&& result == Ok::<u32, InventoryEntityResult>(item_id)
                        &&& final(self).items_view() == old(self).items_view()
                        &&& final(self).inventories_view() == old(self).inventories_view()
                        &&& final(self).events_view() == old(self).events_view()
                    } else if max_stack - sb >= sa {
                        &&& result == Err::<u32, InventoryEntityResult>(InventoryEntityResult::ItemDepleted)
                        &&& final(self).items_view() == old(self).items_view().remove(
                            item_id,
                        ).insert(other_id, restack(b, sb + sa))
                        &&& freed_from(
                            old(self).inventories_view(),
                            final(self).inventories_view(),
                            item_home(a),
                            item_id,
                        )
                        &&& final(self).events_view() == old(self).events_view().push(
                            InventoryEvent::ItemUpdated(other_id),
                        ).push(InventoryEvent::ItemDeleted(item_id))
                    } else {
                        &&& result == Ok::<u32, InventoryEntityResult>(item_id)
                        &&& final(self).items_view() == old(self).items_view().insert(
                            item_id,
                            restack(a, sa - (max_stack - sb)),
                        ).insert(other_id, restack(b, max_stack as int))
                        &&& final(self).inventories_view() == old(self).inventories_view()
                        &&& final(self).events_view() == old(self).events_view().push(
                            InventoryEvent::ItemUpdated(other_id),
                        )
                    }
                } else {
                    let new_item = final(self).items_view()[item_id];
                    let placed = with_home_opt(new_item, item_home(a));
                    let placed_into = final(self).inventories_view()[inventory_id];
                    &&& final(self).items_view().contains_key(item_id)
                    &&& final(self).inventories_view().contains_key(inventory_id)
                    &&& move_placement(
                        old(self).inventories_view()[inventory_id],
                        placed_into,
                        a,
                        placed,
                        position_idx as int,
                        result,
                    )
                    &&& match result {
                        Ok(_) => registered_at(
                            old(self).inventories_view().insert(inventory_id, placed_into),
                            final(self).inventories_view(),
                            old(self).items_view().remove(item_id),
                            final(self).items_view(),
                            old(self).events_view(),
                            final(self).events_view(),
                            placed,
                            inventory_id,
                        ),
                        Err(_) => {
                            &&& final(self).items_view() == old(self).items_view().insert(
                                item_id,
                                placed,
                            )
                            &&& final(self).inventories_view() == old(
                                self,
                            ).inventories_view().insert(inventory_id, placed_into)
                            &&& final(self).events_view() == old(self).events_view()
                        },
                    }
                }
            }),
    {
        broadcast use vstd::std_specs::hash::group_hash_axioms;

        if !self.inventories.contains_key(&inventory_id) {
            return Err(InventoryEntityResult::WrongItemType(item_id));
        }
        assert(old(self).inventories_view().dom().contains(inventory_id));
        let cell = self.inventories.get(&inventory_id).unwrap().get_item_id_at(position_idx);
        if let Some(other_id) = cell {
            if other_id != item_id {
                let ghost a = old(self).items@[item_id];
                let ghost b = old(self).items@[other_id];
                let mut item = self.items.remove(&item_id).unwrap();
                let mut other = self.items.remove(&other_id).unwrap();
                let mut inv = item.inventory.take().unwrap();
                let mut other_inv = other.inventory.take().unwrap();
                let result = inv.stack(&mut other_inv);
                item.inventory = Some(inv);
                other.inventory = Some(other_inv);
                self.items.insert(other_id, other);
                self.items.insert(item_id, item);
                return match result {
                    StackResult::WrongType => {
                        assert(self.items@ =~= old(self).items@);
                        Err(InventoryEntityResult::SpaceTaken(vec![(position_idx, other_id)], item_id))
                    },
                    StackResult::Updated => {
                        self.events.push(InventoryEvent::ItemUpdated(other_id));
                        Ok(item_id)
                    },
                    StackResult::NoChange => {
                        assert(self.items@ =~= old(self).items@);
                        Ok(item_id)
                    },
                    StackResult::Depleted => {
                        self.events.push(InventoryEvent::ItemUpdated(other_id));
                        assert(self.items@ =~= old(self).items@.insert(
                            other_id,
                            restack(b, b.inventory.unwrap().stack + a.inventory.unwrap().stack),
                        ));
                        self.remove_item(item_id);
                        assert(self.items@ =~= old(self).items@.remove(item_id).insert(
                            other_id,
                            restack(b, b.inventory.unwrap().stack + a.inventory.unwrap().stack),
                        ));
                        Err(InventoryEntityResult::ItemDepleted)
                    },
                };
            }
        }
        let mut item = self.items.remove(&item_id).unwrap();
        let mut inventory = self.inventories.remove(&inventory_id).unwrap();
        let ghost old_item = item;
        let result = inventory.try_insert_item_at(&mut item, position_idx);
        let ghost placed = item;
        self.inventories.insert(inventory_id, inventory);
        proof {
            assert(self.inventories@ =~= old(self).inventories@.insert(
                inventory_id,
                self.inventories@[inventory_id],
            ));
            lemma_inventories_wf_insert(old(self).inventories@, inventory_id, self.inventories@[inventory_id]);
        }
        let ghost mid = *self;
        let r = self.update_item_and_return_result(result, item, inventory_id);
        proof {
            assert(mid.items_view() == old(self).items_view().remove(item_id));
            assert(with_home_opt(self.items_view()[item_id], item_home(old_item)) == placed) by {
                if placed.inventory is Some {
                    assert(self.items_view()[item_id].inventory is Some);
                }
            }
            match r {
                Ok(_) => {
                    assert(self.inventories_view()[inventory_id] == mid.inventories_view()[inventory_id]);
                },
                Err(_) => {
                    assert(self.items_view() =~= old(self).items_view().insert(item_id, placed));
                },
            }
        }
        r
    }
}

/// The stacks that spawning `spawn` creates.
pub open spec fn spawn_stacks(spawn: ItemToSpawn) -> Seq<nat> {
    match spawn.inventory_data {
        Some(d) => stack_sizes(spawn.amount as nat, d.max_stack as nat),
        None => Seq::empty(),
    }
}

/// `it` is a freshly built item `id` of the kind of `spawn` holding `stack` items,
/// destined for inventory `inventory_id`.
pub open spec fn spawned_for(spawn: ItemToSpawn, inventory_id: u32, id: int, stack: nat, it: Item) -> bool {
    &&& it.id == id
    &&& it.inventory is Some
    &&& spawn.inventory_data is Some
    &&& same_data(it.inventory.unwrap().inventory_data, spawn.inventory_data.unwrap())
    &&& it.inventory.unwrap().stack == stack
    &&& it.inventory.unwrap().current_inventory_id == Some(inventory_id)
    &&& it.inventory.unwrap().location == (Coord { x: 0, y: 0 })
}

/// The cell where spawned items go when `spawn` names a position.
pub open spec fn spawn_index(spawn: ItemToSpawn, inventory: InventoryEntity) -> int {
    spawn.position.y * inventory.grid_view().width + spawn.position.x
}

/// Placing a spawned item: at the named position, or at the first free place.
pub open spec fn spawn_step(
    spawn: ItemToSpawn,
    before: InventoryEntity,
    after: InventoryEntity,
    old_item: Item,
    new_item: Item,
    result: Result<u32, InventoryEntityResult>,
) -> bool {
    if spawn.assign_position {
        move_placement(before, after, old_item, new_item, spawn_index(spawn, before), result)
    } else {
        first_free_placement(before, after, old_item, new_item, result)
    }
}

/// The items placed while spawning: `n` items were built (ids after `c0`), placed one
/// after the other through the grids `grids`, and the first `registered` succeeded.
pub open spec fn spawn_trace(
    spawn: ItemToSpawn,
    inventory_id: u32,
    c0: int,
    stacks: Seq<nat>,
    grids: Seq<InventoryEntity>,
    built: Seq<Item>,
    placed: Seq<Item>,
    outcomes: Seq<Result<u32, InventoryEntityResult>>,
    n: int,
    registered: int,
) -> bool {
    &&& grids.len() == n + 1
    &&& built.len() == n
    &&& placed.len() == n
    &&& outcomes.len() == n
    &&& forall|i: int|
        0 <= i < n ==> {
            &&& spawned_for(spawn, inventory_id, c0 + i + 1, stacks[i], #[trigger] built[i])
            &&& spawn_step(spawn, grids[i], grids[i + 1], built[i], placed[i], outcomes[i])
            &&& (outcomes[i] is Ok <==> i < registered)
        }
}

/// `m` with the items of `items` registered under their ids, in order.
pub open spec fn register_all(m: Map<u32, Item>, items: Seq<Item>) -> Map<u32, Item>
    decreases items.len(),
{
    if items.len() == 0 {
        m
    } else {
        register_all(m, items.drop_last()).insert(items.last().id, items.last())
    }
}

/// The reports of `n` items created in inventory `inventory_id`, ids from `first_id` on.
pub open spec fn created_events(inventory_id: u32, first_id: int, n: nat) -> Seq<InventoryEvent> {
    Seq::new(n, |i: int| InventoryEvent::NewItemCreated(inventory_id, (first_id + i) as u32))
}

/// Items of the kind of `spawn` can be placed into `inventory` as `spawn` asks.
pub open spec fn spawn_ok(spawn: ItemToSpawn, inventory: InventoryEntity) -> bool {
    let w = inventory.grid_view().width as int;
    let h = inventory.grid_view().height as int;
    match spawn.inventory_data {
        None => true,
        Some(d) => {
            let rows = data_rows(d);
            &&& d.max_stack > 0
            &&& data_has_size(d)
            &&& if spawn.assign_position {
                let at = spawn_index(spawn, inventory);
                &&& spawn.position.x >= 0
                &&& spawn.position.y >= 0
                &&& spawn.position.y * w <= usize::MAX
                &&& at <= usize::MAX
                &&& (w > 0 || rows.len() == 0)
                &&& size_arith_ok(w, h, at, rows)
                &&& (total_growth(rows) > 0 || size_outside(w, h, at, rows))
            } else {
                &&& first_free_ok(w, h, rows)
                &&& (total_growth(rows) > 0 || rect_width(rows) == w + 1)
            }
        },
    }
}

/// What spawning `spawn` into inventory `inventory_id` did (`before` and `after` are
/// the registry before and after; `created` is what it answered): `n` items were
/// built with the ids following the counter, placed one after the other (see
/// `spawn_trace`), and all but a failing last one were registered and reported.
pub open spec fn spawn_outcome(
    before: InventoryManager,
    after: InventoryManager,
    spawn: ItemToSpawn,
    inventory_id: u32,
    created: bool,
) -> bool {
    let stacks = spawn_stacks(spawn);
    let n = after.item_counter() - before.item_counter();
    let registered = if created {
        n
    } else {
        n - 1
    };
    &&& 0 <= n <= stacks.len()
    &&& created ==> n == stacks.len()
    &&& !created ==> n >= 1
    &&& exists|
        grids: Seq<InventoryEntity>,
        built: Seq<Item>,
        placed: Seq<Item>,
        outcomes: Seq<Result<u32, InventoryEntityResult>>,
    |
        #[trigger] spawn_witness(before, after, spawn, inventory_id, created, grids, built, placed, outcomes)
}

/// The grids, built items, placed items and outcomes of the placements show that
/// spawning went from `before` to `after` as `spawn_outcome` says.
pub open spec fn spawn_witness(
    before: InventoryManager,
    after: InventoryManager,
    spawn: ItemToSpawn,
    inventory_id: u32,
    created: bool,
    grids: Seq<InventoryEntity>,
    built: Seq<Item>,
    placed: Seq<Item>,
    outcomes: Seq<Result<u32, InventoryEntityResult>>,
) -> bool {
    let c0 = before.item_counter() as int;
    let n = after.item_counter() - c0;
    let registered = if created {
        n
    } else {
        n - 1
    };
    &&& spawn_trace(
        spawn,
        inventory_id,
        c0,
        spawn_stacks(spawn),
        grids,
        built,
        placed,
        outcomes,
        n,
        registered,
    )
    &&& grids[0] == before.inventories_view()[inventory_id]
    &&& after.inventories_view() == before.inventories_view().insert(inventory_id, grids[n])
    &&& after.items_view() == register_all(before.items_view(), placed.take(registered))
    &&& after.events_view() == before.events_view() + created_events(
        inventory_id,
        c0 + 1,
        registered as nat,
    )
}

impl InventoryManager {
    /// Creates the items of `item_to_spawn` in stacks of at most the kind's limit and
    /// places each into inventory `inventory_id` (at the named position, or at the
    /// first free place), registering each placed one. Stops with `false` at the first
    /// item that cannot be placed; that item is not registered.
    pub fn create_item_in_inventory(&mut self, item_to_spawn: &ItemToSpawn, inventory_id: u32) -> (created: bool)
        requires
            old(self).wf(),
            old(self).inventories_view().contains_key(inventory_id),
            spawn_ok(*item_to_spawn, old(self).inventories_view()[inventory_id]),
            old(self).item_counter() + spawn_stacks(*item_to_spawn).len() <= u32::MAX,
        ensures
            final(self).wf(),
            final(self).inventories_view().contains_key(inventory_id),
            spawn_outcome(*old(self), *final(self), *item_to_spawn, inventory_id, created),
            final(self).inventories_view() == old(self).inventories_view().insert(
                inventory_id,
                final(self).inventories_view()[inventory_id],
            ),
            final(self).inventories_view()[inventory_id].grid_view().width == old(
                self,
            ).inventories_view()[inventory_id].grid_view().width,
            final(self).inventories_view()[inventory_id].grid_view().height == old(
                self,
            ).inventories_view()[inventory_id].grid_view().height,
    {
        self.create_items_in_inventory(item_to_spawn, inventory_id)
    }

    #[verifier::rlimit(100)]
    #[verifier::spinoff_prover]
    fn create_items_in_inventory(&mut self, item_to_spawn: &ItemToSpawn, inventory_id: u32) -> (created: bool)
        requires
            old(self).wf(),
            old(self).inventories_view().contains_key(inventory_id),
            spawn_ok(*item_to_spawn, old(self).inventories_view()[inventory_id]),
            old(self).item_counter() + spawn_stacks(*item_to_spawn).len() <= u32::MAX,
        ensures
            final(self).wf(),
            final(self).inventories_view().contains_key(inventory_id),
            spawn_outcome(*old(self), *final(self), *item_to_spawn, inventory_id, created),
            final(self).inventories_view() == old(self).inventories_view().insert(
                inventory_id,
                final(self).inventories_view()[inventory_id],
            ),
            final(self).inventories_view()[inventory_id].grid_view().width == old(
                self,
            ).inventories_view()[inventory_id].grid_view().width,
            final(self).inventories_view()[inventory_id].grid_view().height == old(
                self,
            ).inventories_view()[inventory_id].grid_view().height,
    {
        broadcast use vstd::std_specs::hash::group_hash_axioms;

        let ghost spawn = *item_to_spawn;
        let ghost stacks = spawn_stacks(spawn);
        let ghost c0 = self.current_item_id as int;
        let ghost mut grids: Seq<InventoryEntity> = seq![old(self).inventories@[inventory_id]];
        let ghost mut built: Seq<Item> = Seq::empty();
        let ghost mut placed: Seq<Item> = Seq::empty();
        let ghost mut outcomes: Seq<Result<u32, InventoryEntityResult>> = Seq::empty();
        let mut builder = item_to_spawn.builder();
        assert(old(self).inventories_view().dom().contains(inventory_id));
        assert(self.inventories@ =~= old(self).inventories@.insert(inventory_id, grids[0]));
        assert(placed.take(0) =~= Seq::<Item>::empty());
        assert(created_events(inventory_id, c0 + 1, 0) =~= Seq::<InventoryEvent>::empty());
        assert(self.events@ =~= old(self).events@ + created_events(inventory_id, c0 + 1, 0));
        loop
            invariant
                self.wf(),
                inventories_wf(old(self).inventories@),
                spawn == *item_to_spawn,
                stacks == spawn_stacks(spawn),
                spawn_ok(spawn, old(self).inventories_view()[inventory_id]),
                c0 == old(self).item_counter(),
                c0 + stacks.len() <= u32::MAX,
                old(self).inventories_view().contains_key(inventory_id),
                built.len() <= stacks.len(),
                self.current_item_id == c0 + built.len(),
                builder.inventory is Some ==> spawn.inventory_data is Some,
                spawn.inventory_data is None ==> builder.inventory is None,
                spawn.inventory_data is Some ==> stack_sizes(
                    builder.amount as nat,
                    spawn.inventory_data.unwrap().max_stack as nat,
                ) == stacks.subrange(built.len() as int, stacks.len() as int),
                builder.amount > 0 && spawn.inventory_data is Some ==> builder.inventory is Some,
                builder.inventory is Some ==> {
                    let inv = builder.inventory.unwrap();
                    &&& same_data(inv.inventory_data, spawn.inventory_data.unwrap())
                    &&& inv.current_inventory_id is None
                    &&& inv.location == (Coord { x: 0, y: 0 })
                },
                spawn_trace(
                    spawn,
                    inventory_id,
                    c0,
                    stacks,
                    grids,
                    built,
                    placed,
                    outcomes,
                    built.len() as int,
                    built.len() as int,
                ),
                grids[0] == old(self).inventories_view()[inventory_id],
                grids[built.len() as int].grid_view().width == grids[0].grid_view().width,
                grids[built.len() as int].grid_view().height == grids[0].grid_view().height,
                self.inventories@ == old(self).inventories@.insert(inventory_id, grids[built.len() as int]),
                self.items@ == register_all(old(self).items@, placed),
                self.events@ == old(self).events@ + created_events(inventory_id, c0 + 1, built.len()),
            ensures
                self.wf(),
                built.len() <= stacks.len(),
                self.current_item_id == c0 + built.len(),
                built.len() == stacks.len(),
            decreases builder.amount,
        {
            let ghost amount_before = builder.amount as nat;
            let ghost k: int = built.len() as int;
            let ghost items_before = self.items@;
            let ghost events_before = self.events@;
            let ghost placed_before = placed;
            let next = builder.next(&mut self.current_item_id);
            let mut item = match next {
                Some(item) => item,
                None => {
                    proof {
                        if spawn.inventory_data is Some {
                            assert(stack_sizes(builder.amount as nat, spawn.inventory_data.unwrap().max_stack as nat) =~= Seq::<nat>::empty());
                            assert(stacks.subrange(k as int, stacks.len() as int).len() == 0);
                        } else {
                            assert(stacks =~= Seq::<nat>::empty());
                        }
                    }
                    break;
                },
            };
            let ghost max_stack = spawn.inventory_data.unwrap().max_stack as nat;
            proof {
                let rest = stacks.subrange(k as int, stacks.len() as int);
                assert(rest == stack_sizes(amount_before, max_stack));
                assert(amount_before > 0);
                assert(rest.len() > 0);
                assert(k < stacks.len());
                if amount_before <= max_stack {
                    assert(rest =~= seq![amount_before]);
                    assert(stack_sizes(builder.amount as nat, max_stack) =~= Seq::<nat>::empty());
                    assert(stacks.subrange(k + 1, stacks.len() as int) =~= Seq::<nat>::empty());
                } else {
                    assert(rest =~= seq![max_stack] + stack_sizes((amount_before - max_stack) as nat, max_stack));
                    assert(stacks.subrange(k + 1, stacks.len() as int) =~= rest.subrange(1, rest.len() as int));
                    assert(rest.subrange(1, rest.len() as int) =~= stack_sizes((amount_before - max_stack) as nat, max_stack));
                }
                assert(rest[0] == stacks[k as int]);
            }
            let mut inv = item.inventory.take().unwrap();
            inv.current_inventory_id = Some(inventory_id);
            item.inventory = Some(inv);
            let id = item.id;
            let mut inventory = self.inventories.remove(&inventory_id).unwrap();
            let ghost before = inventory;
            let ghost fresh = item;
            proof {
                assert(before == grids[k as int]);
                lemma_same_data_same_rows(fresh.inventory.unwrap().inventory_data, spawn.inventory_data.unwrap());
                assert(spawned_for(spawn, inventory_id, c0 + k + 1, stacks[k as int], fresh));
            }
            let result = if item_to_spawn.assign_position {
                let (w, _h) = inventory.get_size();
                let at_index = (item_to_spawn.position.y as usize) * w + (item_to_spawn.position.x as usize);
                assert(at_index as int == spawn_index(spawn, before));
                inventory.try_insert_item_at(&mut item, at_index)
            } else {
                inventory.insert_at_first_free_space(&mut item)
            };
            self.inventories.insert(inventory_id, inventory);
            proof {
                grids = grids.push(inventory);
                built = built.push(fresh);
                placed = placed.push(item);
                outcomes = outcomes.push(result);
                assert(spawn_step(spawn, grids[k as int], grids[k + 1], built[k as int], placed[k as int], outcomes[k as int]));
                assert(self.inventories@ =~= old(self).inventories@.insert(inventory_id, grids[k + 1]));
                lemma_inventories_wf_insert(old(self).inventories@, inventory_id, grids[k + 1]);
                assert(grids[0] == old(self).inventories_view()[inventory_id]);
            }
            if result.is_err() {
                proof {
                    assert(placed.take(k as int) =~= placed_before);
                    let n = self.item_counter() - c0;
                    assert(n == k + 1);
                    assert(spawn_trace(spawn, inventory_id, c0, stacks, grids, built, placed, outcomes, n, n - 1));
                    assert(self.inventories_view() == old(self).inventories_view().insert(inventory_id, grids[n]));
                    assert(self.items_view() == register_all(old(self).items_view(), placed.take(n - 1)));
                    assert(self.events_view() == old(self).events_view() + created_events(inventory_id, c0 + 1, (n - 1) as nat));
                    assert(spawn_witness(*old(self), *self, spawn, inventory_id, false, grids, built, placed, outcomes));
                    assert(0 <= n <= stacks.len());
                    assert(spawn_outcome(*old(self), *self, spawn, inventory_id, false));
                }
                return false;
            }
            self.events.push(InventoryEvent::NewItemCreated(inventory_id, id));
            self.items.insert(id, item);
            proof {
                assert(placed.drop_last() =~= placed_before);
                assert(self.items@ == register_all(old(self).items@, placed));
                lemma_items_keyed_insert(items_before, item);
                assert(created_events(inventory_id, c0 + 1, (k + 1) as nat) =~= created_events(inventory_id, c0 + 1, k as nat).push(InventoryEvent::NewItemCreated(inventory_id, id)));
                assert(self.events@ =~= old(self).events@ + created_events(inventory_id, c0 + 1, (k + 1) as nat));
            }
        }
        proof {
            assert(placed.take(built.len() as int) =~= placed);
            let n = self.item_counter() - c0;
            assert(n == built.len());
            assert(spawn_trace(spawn, inventory_id, c0, stacks, grids, built, placed, outcomes, n, n));
            assert(self.inventories_view() == old(self).inventories_view().insert(inventory_id, grids[n]));
            assert(self.items_view() == register_all(old(self).items_view(), placed.take(n)));
            assert(self.events_view() == old(self).events_view() + created_events(inventory_id, c0 + 1, n as nat));
            assert(spawn_witness(*old(self), *self, spawn, inventory_id, true, grids, built, placed, outcomes));
            assert(spawn_outcome(*old(self), *self, spawn, inventory_id, true));
        }
        true
    }
}

/// Merging stacks in the registry never creates or destroys items: when part of a
/// stack moves, the two items together hold what they held before; when the whole
/// stack moves, the receiving item gains exactly what the other held and the other
/// is gone; otherwise nothing changes. No item but the two is touched, and a
/// receiving stack within the kind's limit stays within it.
pub proof fn lemma_stack_step_conserves_items(
    items: Map<u32, Item>,
    events: Seq<InventoryEvent>,
    id: u32,
    other: u32,
)
    requires
        items.contains_key(id),
        items.contains_key(other),
    ensures
        ({
            let (after, _, r) = stack_step(items, events, id, other);
            let total = items[id].inventory.unwrap().stack + items[other].inventory.unwrap().stack;
            &&& r is Updated ==> after[id].inventory.unwrap().stack
                + after[other].inventory.unwrap().stack == total
            &&& r is Depleted ==> !after.contains_key(id) && after[other].inventory.unwrap().stack
                == total
            &&& (r is WrongType || r is NoChange) ==> after == items
            &&& forall|k: u32| k != id && k != other ==> after.contains_key(k) == items.contains_key(k)
                && (items.contains_key(k) ==> #[trigger] after[k] == items[k])
            &&& (r is Updated || r is Depleted) && items[other].inventory.unwrap().stack
                <= items[id].inventory.unwrap().inventory_data.max_stack
                ==> after[other].inventory.unwrap().stack
                <= items[id].inventory.unwrap().inventory_data.max_stack
        }),
{
}

/// An item that registering `items` into `m` added was registered from `items`.
proof fn lemma_register_all_holds(m: Map<u32, Item>, items: Seq<Item>, id: u32)
    requires
        !m.contains_key(id),
        register_all(m, items).contains_key(id),
    ensures
        exists|k: int|
            0 <= k < items.len() && #[trigger] items[k].id == id && register_all(m, items)[id]
                == items[k],
    decreases items.len(),
{
    if items.len() > 0 {
        let prefix = items.drop_last();
        let k = items.len() - 1;
        if items.last().id == id {
            assert(items[k].id == id);
        } else {
            lemma_register_all_holds(m, prefix, id);
            let j = choose|j: int|
                0 <= j < prefix.len() && #[trigger] prefix[j].id == id && register_all(m, prefix)[id]
                    == prefix[j];
            assert(items[j] == prefix[j]);
        }
    }
}

/// The grids a spawn went through all have the width of the first.
proof fn lemma_spawn_keeps_width(
    spawn: ItemToSpawn,
    inventory_id: u32,
    c0: int,
    stacks: Seq<nat>,
    grids: Seq<InventoryEntity>,
    built: Seq<Item>,
    placed: Seq<Item>,
    outcomes: Seq<Result<u32, InventoryEntityResult>>,
    n: int,
    registered: int,
    i: int,
)
    requires
        spawn_trace(spawn, inventory_id, c0, stacks, grids, built, placed, outcomes, n, registered),
        0 <= i <= n,
    ensures
        grids[i].grid_view().width == grids[0].grid_view().width,
    decreases i,
{
    if i > 0 {
        lemma_spawn_keeps_width(spawn, inventory_id, c0, stacks, grids, built, placed, outcomes, n, registered, i - 1);
        assert(spawned_for(spawn, inventory_id, c0 + (i - 1) + 1, stacks[i - 1], built[i - 1]));
    }
}

/// A spawn that names a position puts its items with their origin at column
/// `position.x` and row `position.y` of the inventory: every item that it registers
/// sits in that inventory and is recorded at that position (for a shape whose first
/// run starts at its origin, and a column inside the grid).
pub proof fn lemma_spawn_at_named_position(
    before: InventoryManager,
    after: InventoryManager,
    spawn: ItemToSpawn,
    inventory_id: u32,
    created: bool,
    id: u32,
)
    requires
        spawn_outcome(before, after, spawn, inventory_id, created),
        spawn_ok(spawn, before.inventories_view()[inventory_id]),
        spawn.assign_position,
        spawn.inventory_data is Some,
        data_rows(spawn.inventory_data.unwrap()).len() > 0,
        data_rows(spawn.inventory_data.unwrap())[0].row_offset == 0,
        data_rows(spawn.inventory_data.unwrap())[0].col_offset == 0,
        data_rows(spawn.inventory_data.unwrap())[0].growth > 0,
        0 <= spawn.position.x < before.inventories_view()[inventory_id].grid_view().width,
        0 <= spawn.position.y,
        !before.items_view().contains_key(id),
        after.items_view().contains_key(id),
    ensures
        after.items_view()[id].inventory is Some,
        after.items_view()[id].inventory.unwrap().location == spawn.position,
        item_home(after.items_view()[id]) == Some(inventory_id),
{
    let (grids, built, placed, outcomes) = choose|
        grids: Seq<InventoryEntity>,
        built: Seq<Item>,
        placed: Seq<Item>,
        outcomes: Seq<Result<u32, InventoryEntityResult>>,
    | #[trigger] spawn_witness(before, after, spawn, inventory_id, created, grids, built, placed, outcomes);
    let c0 = before.item_counter() as int;
    let n = after.item_counter() - c0;
    let registered = if created { n } else { n - 1 };
    let regs = placed.take(registered);
    lemma_register_all_holds(before.items_view(), regs, id);
    let k = choose|k: int|
        0 <= k < regs.len() && #[trigger] regs[k].id == id && register_all(before.items_view(), regs)[id]
            == regs[k];
    assert(regs[k] == placed[k]);
    assert(spawned_for(spawn, inventory_id, c0 + k + 1, spawn_stacks(spawn)[k], built[k]));
    lemma_spawn_keeps_width(spawn, inventory_id, c0, spawn_stacks(spawn), grids, built, placed, outcomes, n, registered, k);
    let data = spawn.inventory_data.unwrap();
    lemma_same_data_same_rows(built[k].inventory.unwrap().inventory_data, data);
    let w = grids[k].grid_view().width as int;
    let x = spawn.position.x as int;
    let y = spawn.position.y as int;
    let at = spawn_index(spawn, grids[k]);
    assert(at == y * w + x);
    vstd::arithmetic::div_mod::lemma_fundamental_div_mod_converse(at, w, y, x);
    let rows = item_rows(built[k]);
    lemma_size_cells_first(w, at, rows);
    assert(outcomes[k] is Ok);
    let cells = crate::grid::size_cells(w, at, rows);
    assert(crate::grid::row_first_cell(w, at, rows[0]) == at);
    assert(at == spawn_index(spawn, before.inventories_view()[inventory_id]));
    assert(at <= usize::MAX);
    assert(cells[0] as int == at);
    assert(coord_of(w, at) == spawn.position);
}

/// Replacing one inventory by a well-formed one keeps the inventories well formed.
proof fn lemma_inventories_wf_insert(before: Map<u32, InventoryEntity>, k: u32, e: InventoryEntity)
    requires
        inventories_wf(before),
        e.wf(),
    ensures
        inventories_wf(before.insert(k, e)),
{
    let after = before.insert(k, e);
    assert forall|j: u32| #[trigger] after.dom().contains(j) implies after[j].wf() by {
        if j != k {
            assert(before.dom().contains(j));
        }
    }
}

/// Registering an item under its own id keeps every item under its own id.
proof fn lemma_items_keyed_insert(before: Map<u32, Item>, item: Item)
    requires
        items_keyed(before),
    ensures
        items_keyed(before.insert(item.id, item)),
{
    let after = before.insert(item.id, item);
    assert forall|j: u32| #[trigger] after.dom().contains(j) implies after[j].id == j by {
        if j != item.id {
            assert(before.dom().contains(j));
        }
    }
}

} // verus!
