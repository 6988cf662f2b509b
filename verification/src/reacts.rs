//! Reactions that work on inventories: picking an item up, and combining two items
//! into a new one.
use vstd::prelude::*;

use crate::grid::{first_free_ok, fits_nowhere, rect_width, total_growth};
use crate::inventory_entity::{item_rows, placeable, InventoryEntity, InventoryEntityResult};
use crate::inventory_item::{Item, StackResult};
use crate::inventory_manager::{
    first_free_put, freed_from, item_home, spawn_ok, spawn_outcome, spawn_stacks, stack_reduced,
    stack_step, InventoryEvent, InventoryManager,
};
use crate::item_builder::ItemToSpawn;

verus! {

/// What a reaction asks of the object that ran it.
#[derive(Debug, Clone, Copy, PartialEq, Eq, Structural)]
pub enum EffectResult {
    /// The reaction is done and can be dropped.
    Free,
    /// The reaction could not run.
    Failed,
}

/// The cells of the inventories `ids`, one inventory after the other, each with the
/// inventory it belongs to.
pub open spec fn listed_cells(inventories: Map<u32, InventoryEntity>, ids: Seq<u32>) -> Seq<
    (u32, Option<u32>),
>
    decreases ids.len(),
{
    if ids.len() == 0 {
        Seq::empty()
    } else {
        tagged_cells(ids[0], inventories[ids[0]].grid_view().array@) + listed_cells(
            inventories,
            ids.drop_first(),
        )
    }
}

/// The cells `array` of inventory `inventory_id`, each with that inventory.
pub open spec fn tagged_cells(inventory_id: u32, array: Seq<Option<u32>>) -> Seq<(u32, Option<u32>)> {
    array.map_values(|cell: Option<u32>| (inventory_id, cell))
}

/// Merging the stack of item `id` onto the items held in `cells`, one cell after the
/// other (see `stack_step`), until it is used up: the registry and reports after it,
/// and whether it was used up. Each stack that took items is also reported as updated
/// in its inventory.
pub open spec fn stack_onto_cells(
    items: Map<u32, Item>,
    events: Seq<InventoryEvent>,
    id: u32,
    cells: Seq<(u32, Option<u32>)>,
) -> (Map<u32, Item>, Seq<InventoryEvent>, bool)
    decreases cells.len(),
{
    if cells.len() == 0 {
        (items, events, false)
    } else {
        let (inventory_id, cell) = cells[0];
        match cell {
            Some(other) => {
                let (next_items, next_events, r) = stack_step(items, events, id, other);
                if r is Depleted {
                    (
                        next_items,
                        next_events.push(InventoryEvent::StackUpdated(inventory_id, other)),
                        true,
                    )
                } else if r is Updated {
                    stack_onto_cells(
                        next_items,
                        next_events.push(InventoryEvent::StackUpdated(inventory_id, other)),
                        id,
                        cells.drop_first(),
                    )
                } else {
                    stack_onto_cells(next_items, next_events, id, cells.drop_first())
                }
            },
            None => stack_onto_cells(items, events, id, cells.drop_first()),
        }
    }
}

/// The inventories `ids` exist, and every item in their cells is registered and has
/// an inventory side.
pub open spec fn cells_registered(
    inventories: Map<u32, InventoryEntity>,
    items: Map<u32, Item>,
    ids: Seq<u32>,
) -> bool {
    forall|j: int|
        0 <= j < ids.len() ==> {
            &&& #[trigger] inventories.contains_key(ids[j])
            &&& forall|k: int|
                0 <= k < inventories[ids[j]].grid_view().array@.len()
                    && #[trigger] inventories[ids[j]].grid_view().array@[k] is Some ==> {
                    let o = inventories[ids[j]].grid_view().array@[k].unwrap();
                    items.contains_key(o) && items[o].inventory is Some
                }
        }
}

/// `inventory` has a place where `item` fits.
pub open spec fn has_room(inventory: InventoryEntity, item: Item) -> bool {
    !fits_nowhere(
        inventory.grid_view().array@,
        inventory.grid_view().width as int,
        inventory.grid_view().height as int,
        item_rows(item),
    )
}

/// `after` is `before`, or `before` with its shape now known.
pub open spec fn resized(before: Item, after: Item) -> bool {
    after == before || {
        &&& before.inventory is Some
        &&& crate::inventory_entity::same_item_sized(before, after)
        &&& after.inventory.unwrap().location == before.inventory.unwrap().location
    }
}

/// An item can be put into each of the inventories `ids`: they exist, and the search
/// for a first fit of the item can run in each.
pub open spec fn placeable_into(
    inventories: Map<u32, InventoryEntity>,
    item: Item,
    ids: Seq<u32>,
) -> bool {
    &&& placeable(item) || item.inventory.is_none()
    &&& forall|j: int|
        #![trigger ids[j]]
        0 <= j < ids.len() ==> {
            let inventory = inventories[ids[j]];
            &&& inventories.contains_key(ids[j])
            &&& item.inventory.is_some() ==> first_free_ok(
                inventory.grid_view().width as int,
                inventory.grid_view().height as int,
                item_rows(item),
            )
            &&& item.inventory.is_some() ==> (total_growth(item_rows(item)) > 0 || rect_width(
                item_rows(item),
            ) == inventory.grid_view().width + 1)
        }
}

/// What merging the stack of item `item` onto the items of its kind in the
/// inventories `ids` did to the registry (inventories, items and reports before and
/// after), answering `result`: an item without an inventory side is done at once
/// (`Ok(Free)`); one whose kind does not stack is handed back (`Err`); otherwise the
/// stacks change as `stack_onto_cells` says, over the cells of `ids` in order, and
/// the item is done when it was used up (then also emptied from its inventory), else
/// handed back.
pub open spec fn pickup_stacked(
    old_inventories: Map<u32, InventoryEntity>,
    old_items: Map<u32, Item>,
    old_events: Seq<InventoryEvent>,
    new_inventories: Map<u32, InventoryEntity>,
    new_items: Map<u32, Item>,
    new_events: Seq<InventoryEvent>,
    item: u32,
    ids: Seq<u32>,
    result: Result<EffectResult, u32>,
) -> bool {
    let it = old_items[item];
    if it.inventory is None || it.inventory.unwrap().inventory_data.max_stack <= 1 {
        &&& result == if it.inventory is None {
            Ok::<EffectResult, u32>(EffectResult::Free)
        } else {
            Err::<EffectResult, u32>(item)
        }
        &&& new_items == old_items
        &&& new_inventories == old_inventories
        &&& new_events == old_events
    } else {
        let (items, events, used_up) = stack_onto_cells(
            old_items,
            old_events,
            item,
            listed_cells(old_inventories, ids),
        );
        &&& new_items == items
        &&& new_events == events
        &&& result == if used_up {
            Ok::<EffectResult, u32>(EffectResult::Free)
        } else {
            Err::<EffectResult, u32>(item)
        }
        &&& if used_up {
            freed_from(old_inventories, new_inventories, item_home(it), item)
        } else {
            new_inventories == old_inventories
        }
    }
}

/// Item `o` is another item of the kind of item `id` whose stack still has room.
pub open spec fn mergeable(items: Map<u32, Item>, id: u32, o: u32) -> bool {
    &&& o != id
    &&& items.contains_key(o)
    &&& items[o].inventory is Some
    &&& items[id].inventory is Some
    &&& items[o].inventory.unwrap().inventory_data.id == items[id].inventory.unwrap().inventory_data.id
    &&& items[o].inventory.unwrap().stack < items[id].inventory.unwrap().inventory_data.max_stack
}

/// Merging onto the items of some cells never grows the merged stack: unless it is
/// used up, the item is still there, of its kind, with at most as many as before.
proof fn lemma_stacking_never_grows(
    items: Map<u32, Item>,
    events: Seq<InventoryEvent>,
    id: u32,
    cells: Seq<(u32, Option<u32>)>,
)
    requires
        items.contains_key(id),
        items[id].inventory is Some,
    ensures
        ({
            let (after, _, used_up) = stack_onto_cells(items, events, id, cells);
            !used_up ==> {
                &&& after.contains_key(id)
                &&& after[id].inventory is Some
                &&& after[id].inventory.unwrap().inventory_data == items[id].inventory.unwrap().inventory_data
                &&& after[id].inventory.unwrap().stack <= items[id].inventory.unwrap().stack
            }
        }),
    decreases cells.len(),
{
    if cells.len() > 0 {
        let (inventory_id, cell) = cells[0];
        match cell {
            Some(other) => {
                let (next_items, next_events, r) = stack_step(items, events, id, other);
                if !(r is Depleted) {
                    let ev = if r is Updated {
                        next_events.push(InventoryEvent::StackUpdated(inventory_id, other))
                    } else {
                        next_events
                    };
                    lemma_stacking_never_grows(next_items, ev, id, cells.drop_first());
                }
            },
            None => {
                lemma_stacking_never_grows(items, events, id, cells.drop_first());
            },
        }
    }
}

/// When some cell holds another item of the kind with room left, merging onto the
/// cells uses the item up or leaves it with fewer than before.
proof fn lemma_stacking_merges(
    items: Map<u32, Item>,
    events: Seq<InventoryEvent>,
    id: u32,
    cells: Seq<(u32, Option<u32>)>,
    k: int,
    o: u32,
)
    requires
        items.contains_key(id),
        0 <= k < cells.len(),
        cells[k].1 == Some(o),
        mergeable(items, id, o),
    ensures
        ({
            let (after, _, used_up) = stack_onto_cells(items, events, id, cells);
            used_up || (after.contains_key(id) && after[id].inventory.unwrap().stack
                < items[id].inventory.unwrap().stack)
        }),
    decreases cells.len(),
{
    let (inventory_id, cell) = cells[0];
    match cell {
        Some(other) => {
            let (next_items, next_events, r) = stack_step(items, events, id, other);
            if r is Updated {
                let ev = next_events.push(InventoryEvent::StackUpdated(inventory_id, other));
                lemma_stacking_never_grows(next_items, ev, id, cells.drop_first());
            } else if !(r is Depleted) {
                assert(next_items == items);
                assert(k > 0);
                assert(cells.drop_first()[k - 1] == cells[k]);
                lemma_stacking_merges(items, next_events, id, cells.drop_first(), k - 1, o);
            }
        },
        None => {
            assert(k > 0);
            assert(cells.drop_first()[k - 1] == cells[k]);
            lemma_stacking_merges(items, events, id, cells.drop_first(), k - 1, o);
        },
    }
}

/// Cell `k` of the `j`-th listed inventory is among the listed cells, tagged with it.
proof fn lemma_listed_cells_hold(inventories: Map<u32, InventoryEntity>, ids: Seq<u32>, j: int, k: int)
    requires
        0 <= j < ids.len(),
        0 <= k < inventories[ids[j]].grid_view().array@.len(),
    ensures
        exists|m: int|
            0 <= m < listed_cells(inventories, ids).len() && #[trigger] listed_cells(inventories, ids)[m]
                == (ids[j], inventories[ids[j]].grid_view().array@[k]),
    decreases ids.len(),
{
    let first = tagged_cells(ids[0], inventories[ids[0]].grid_view().array@);
    let rest = listed_cells(inventories, ids.drop_first());
    assert(listed_cells(inventories, ids) == first + rest);
    if j == 0 {
        assert((first + rest)[k] == first[k]);
    } else {
        assert(ids.drop_first()[j - 1] == ids[j]);
        lemma_listed_cells_hold(inventories, ids.drop_first(), j - 1, k);
        let m = choose|m: int|
            0 <= m < rest.len() && #[trigger] rest[m] == (ids[j], inventories[ids[j]].grid_view().array@[k]);
        assert((first + rest)[first.len() + m] == rest[m]);
    }
}

/// Picking up an item whose kind stacks merges it before any placement: when a cell of
/// one of the picker's inventories holds another item of its kind with room left, the
/// stacking phase uses the item up (`Ok`) or leaves it with fewer than before.
pub proof fn lemma_pickup_merges_when_possible(
    old_inventories: Map<u32, InventoryEntity>,
    old_items: Map<u32, Item>,
    old_events: Seq<InventoryEvent>,
    new_inventories: Map<u32, InventoryEntity>,
    new_items: Map<u32, Item>,
    new_events: Seq<InventoryEvent>,
    item: u32,
    ids: Seq<u32>,
    result: Result<EffectResult, u32>,
    j: int,
    k: int,
    o: u32,
)
    requires
        pickup_stacked(
            old_inventories,
            old_items,
            old_events,
            new_inventories,
            new_items,
            new_events,
            item,
            ids,
            result,
        ),
        old_items.contains_key(item),
        old_items[item].inventory is Some,
        old_items[item].inventory.unwrap().inventory_data.max_stack > 1,
        0 <= j < ids.len(),
        0 <= k < old_inventories[ids[j]].grid_view().array@.len(),
        old_inventories[ids[j]].grid_view().array@[k] == Some(o),
        mergeable(old_items, item, o),
    ensures
        result is Ok || (new_items.contains_key(item) && new_items[item].inventory.unwrap().stack
            < old_items[item].inventory.unwrap().stack),
{
    let cells = listed_cells(old_inventories, ids);
    lemma_listed_cells_hold(old_inventories, ids, j, k);
    let m = choose|m: int|
        0 <= m < cells.len() && #[trigger] cells[m] == (ids[j], old_inventories[ids[j]].grid_view().array@[k]);
    lemma_stacking_merges(old_items, old_events, item, cells, m, o);
}

/// Picking an item up into one of the inventories of the picker.
#[derive(Debug)]
pub struct PickupItem {
    /// The item to pick up.
    pub item: Option<u32>,
    /// The inventories of the picker, in the order they are tried.
    pub inventories_ids: Vec<u32>,
}

impl PickupItem {
    /// Merges the stack of item `item` onto the items of its kind in the inventories
    /// of the picker, trying them in order and each inventory's items in the order of
    /// their cells, until it is used up (see `stack_onto_cells`). An item without an
    /// inventory side is done at once (`Ok(Free)`); one whose kind does not stack, or
    /// that is not used up, is handed back (`Err`).
    pub fn try_stack_item(&self, manager: &mut InventoryManager, item: u32) -> (result: Result<
        EffectResult,
        u32,
    >)
        requires
            old(manager).wf(),
            old(manager).items_view().contains_key(item),
            old(manager).home_known(old(manager).items_view()[item]),
            ({
                let it = old(manager).items_view()[item];
                it.inventory is Some && it.inventory.unwrap().inventory_data.max_stack > 1
                    ==> cells_registered(
                    old(manager).inventories_view(),
                    old(manager).items_view(),
                    self.inventories_ids@,
                )
            }),
        ensures
            final(manager).wf(),
            final(manager).item_counter() == old(manager).item_counter(),
            pickup_stacked(
                old(manager).inventories_view(),
                old(manager).items_view(),
                old(manager).events_view(),
                final(manager).inventories_view(),
                final(manager).items_view(),
                final(manager).events_view(),
                item,
                self.inventories_ids@,
                result,
            ),
            result is Err ==> {
                let it = old(manager).items_view()[item];
                let now = final(manager).items_view()[item];
                &&& final(manager).items_view().contains_key(item)
                &&& now.inventory is Some
                &&& now.inventory.unwrap().inventory_data == it.inventory.unwrap().inventory_data
                &&& item_home(now) == item_home(it)
            },
    {
        let max_stack = match manager.get_item(item) {
            Some(it) => match &it.inventory {
                Some(inv) => inv.inventory_data.max_stack,
                None => {
                    return Ok(EffectResult::Free);
                },
            },
            None => vstd::pervasive::unreached(),
        };
        if max_stack <= 1 {
            return Err(item);
        }
        let ghost ids = self.inventories_ids@;
        let ghost inventories = old(manager).inventories_view();
        let ghost it = old(manager).items_view()[item];
        let ghost goal = stack_onto_cells(
            old(manager).items_view(),
            old(manager).events_view(),
            item,
            listed_cells(inventories, ids),
        );
        assert(ids.skip(0) =~= ids);
        let mut j: usize = 0;
        while j < self.inventories_ids.len()
            invariant
                ids == self.inventories_ids@,
                0 <= j <= ids.len(),
                manager.wf(),
                manager.item_counter() == old(manager).item_counter(),
                manager.inventories_view() == inventories,
                manager.items_view().dom() == old(manager).items_view().dom(),
                manager.items_view().contains_key(item),
                it == old(manager).items_view()[item],
                it.inventory is Some,
                it.inventory.unwrap().inventory_data.max_stack > 1,
                manager.items_view()[item].inventory is Some,
                manager.items_view()[item].inventory.unwrap().inventory_data == it.inventory.unwrap().inventory_data,
                item_home(manager.items_view()[item]) == item_home(it),
                manager.home_known(manager.items_view()[item]),
                cells_registered(inventories, old(manager).items_view(), ids),
                inventories == old(manager).inventories_view(),
                goal == stack_onto_cells(
                    old(manager).items_view(),
                    old(manager).events_view(),
                    item,
                    listed_cells(inventories, ids),
                ),
                forall|o: u32|
                    #[trigger] manager.items_view().contains_key(o) && old(
                        manager,
                    ).items_view()[o].inventory is Some ==> manager.items_view()[o].inventory is Some,
                stack_onto_cells(
                    manager.items_view(),
                    manager.events_view(),
                    item,
                    listed_cells(inventories, ids.skip(j as int)),
                ) == goal,
            decreases ids.len() - j,
        {
            let inventory_id = self.inventories_ids[j];
            assert(inventories.contains_key(ids[j as int]));
            let n = manager.get_inventory(inventory_id).unwrap().cell_count();
            let ghost array = inventories[inventory_id].grid_view().array@;
            let ghost rest = listed_cells(inventories, ids.skip(j + 1));
            proof {
                assert(ids.skip(j as int).drop_first() =~= ids.skip(j + 1));
                assert(ids.skip(j as int)[0] == inventory_id);
                assert(listed_cells(inventories, ids.skip(j as int)) == tagged_cells(inventory_id, array) + rest);
                assert(tagged_cells(inventory_id, array).skip(0) =~= tagged_cells(inventory_id, array));
            }
            let mut i: usize = 0;
            while i < n
                invariant
                    ids == self.inventories_ids@,
                    0 <= j < ids.len(),
                    inventory_id == ids[j as int],
                    inventories.contains_key(inventory_id),
                    array == inventories[inventory_id].grid_view().array@,
                    n == array.len(),
                    0 <= i <= n,
                    rest == listed_cells(inventories, ids.skip(j + 1)),
                    manager.wf(),
                    manager.item_counter() == old(manager).item_counter(),
                    manager.inventories_view() == inventories,
                    manager.items_view().dom() == old(manager).items_view().dom(),
                    manager.items_view().contains_key(item),
                    it == old(manager).items_view()[item],
                    it.inventory is Some,
                    it.inventory.unwrap().inventory_data.max_stack > 1,
                    manager.items_view()[item].inventory is Some,
                    manager.items_view()[item].inventory.unwrap().inventory_data == it.inventory.unwrap().inventory_data,
                    item_home(manager.items_view()[item]) == item_home(it),
                    manager.home_known(manager.items_view()[item]),
                    cells_registered(inventories, old(manager).items_view(), ids),
                    inventories == old(manager).inventories_view(),
                    goal == stack_onto_cells(
                        old(manager).items_view(),
                        old(manager).events_view(),
                        item,
                        listed_cells(inventories, ids),
                    ),
                    forall|o: u32|
                        #[trigger] manager.items_view().contains_key(o) && old(
                            manager,
                        ).items_view()[o].inventory is Some ==> manager.items_view()[o].inventory is Some,
                    stack_onto_cells(
                        manager.items_view(),
                        manager.events_view(),
                        item,
                        tagged_cells(inventory_id, array).skip(i as int) + rest,
                    ) == goal,
                decreases n - i,
            {
                let cell = manager.get_inventory(inventory_id).unwrap().get_item_id_at(i);
                let ghost before = *manager;
                proof {
                    let tagged = tagged_cells(inventory_id, array);
                    assert((tagged.skip(i as int) + rest)[0] == (inventory_id, array[i as int]));
                    assert((tagged.skip(i as int) + rest).drop_first() =~= tagged.skip(i + 1) + rest);
                }
                if let Some(other) = cell {
                    proof {
                        assert(inventories[ids[j as int]].grid_view().array@[i as int] is Some);
                        assert(old(manager).items_view().contains_key(other));
                    }
                    let r = manager.try_stack_item(item, other);
                    if r == StackResult::Depleted || r == StackResult::Updated {
                        manager.notify(InventoryEvent::StackUpdated(inventory_id, other));
                    }
                    if r == StackResult::Depleted {
                        proof {
                            let cells = tagged_cells(inventory_id, array).skip(i as int) + rest;
                            let step = stack_step(before.items_view(), before.events_view(), item, other);
                            assert(cells[0] == (inventory_id, Some(other)));
                            assert(step.2 is Depleted);
                            assert(stack_onto_cells(before.items_view(), before.events_view(), item, cells)
                                == (
                                step.0,
                                step.1.push(InventoryEvent::StackUpdated(inventory_id, other)),
                                true,
                            ));
                        }
                        return Ok(EffectResult::Free);
                    }
                    proof {
                        assert forall|o: u32|
                            #[trigger] manager.items_view().contains_key(o) && old(
                                manager,
                            ).items_view()[o].inventory is Some implies manager.items_view()[o].inventory is Some by {
                            assert(before.items_view().contains_key(o));
                        }
                        assert(manager.items_view().dom() =~= old(manager).items_view().dom());
                    }
                }
                i = i + 1;
            }
            proof {
                assert(tagged_cells(inventory_id, array).skip(n as int) + rest =~= rest);
            }
            j = j + 1;
        }
        proof {
            assert(ids.skip(j as int) =~= Seq::<u32>::empty());
        }
        Err(item)
    }
}

/// The item `item` (before: `it`) went to inventory `ids[k]`, the first of `ids` with
/// room for it, after the failed attempts before it had made its shape known
/// (giving `mid`); the registry changed from `before` to `after` as
/// `first_free_put` says.
pub open spec fn placed_at(
    old_inventories: Map<u32, InventoryEntity>,
    old_items: Map<u32, Item>,
    old_events: Seq<InventoryEvent>,
    new_inventories: Map<u32, InventoryEntity>,
    new_items: Map<u32, Item>,
    new_events: Seq<InventoryEvent>,
    item: u32,
    ids: Seq<u32>,
    k: int,
    mid: Item,
) -> bool {
    let it = old_items[item];
    &&& 0 <= k < ids.len()
    &&& forall|j: int| 0 <= j < k ==> !#[trigger] has_room(old_inventories[ids[j]], it)
    &&& has_room(old_inventories[ids[k]], it)
    &&& resized(it, mid)
    &&& first_free_put(
        old_inventories,
        old_items.insert(item, mid),
        old_events,
        new_inventories,
        new_items,
        new_events,
        item,
        ids[k],
        Ok(item),
    )
}

/// What putting item `item` into the first of the inventories `ids` with room for it
/// did to the registry (inventories, items and reports before and after), answering
/// `result`: `Ok(Free)` when some inventory had room (see `placed_at`); otherwise the
/// item is handed back (`Err`), and nothing changed but that its shape may now be known.
pub open spec fn pickup_placed(
    old_inventories: Map<u32, InventoryEntity>,
    old_items: Map<u32, Item>,
    old_events: Seq<InventoryEvent>,
    new_inventories: Map<u32, InventoryEntity>,
    new_items: Map<u32, Item>,
    new_events: Seq<InventoryEvent>,
    item: u32,
    ids: Seq<u32>,
    result: Result<EffectResult, u32>,
) -> bool {
    let it = old_items[item];
    match result {
        Ok(r) => {
            &&& r == EffectResult::Free
            &&& it.inventory is Some
            &&& exists|k: int, mid: Item|
                #[trigger] placed_at(
                    old_inventories,
                    old_items,
                    old_events,
                    new_inventories,
                    new_items,
                    new_events,
                    item,
                    ids,
                    k,
                    mid,
                )
        },
        Err(e) => {
            &&& e == item
            &&& it.inventory is Some ==> forall|j: int|
                0 <= j < ids.len() ==> !#[trigger] has_room(old_inventories[ids[j]], it)
            &&& new_inventories == old_inventories
            &&& new_events == old_events
            &&& new_items.contains_key(item)
            &&& new_items == old_items.insert(item, new_items[item])
            &&& resized(it, new_items[item])
        },
    }
}

/// An item that was resized keeps its shape and the rest of its inventory side.
proof fn lemma_resized_rows(it: Item, mid: Item)
    requires
        resized(it, mid),
        placeable(it),
    ensures
        mid.inventory is Some,
        item_rows(mid) == item_rows(it),
        mid.id == it.id,
        item_home(mid) == item_home(it),
        placeable(mid),
{
}

impl PickupItem {
    /// Puts item `item` at the first free place of the first inventory of the picker
    /// that has room for it (see `pickup_placed`).
    pub fn try_place_item(&self, manager: &mut InventoryManager, item: u32) -> (result: Result<
        EffectResult,
        u32,
    >)
        requires
            old(manager).wf(),
            old(manager).items_view().contains_key(item),
            placeable_into(
                old(manager).inventories_view(),
                old(manager).items_view()[item],
                self.inventories_ids@,
            ),
        ensures
            final(manager).wf(),
            final(manager).item_counter() == old(manager).item_counter(),
            pickup_placed(
                old(manager).inventories_view(),
                old(manager).items_view(),
                old(manager).events_view(),
                final(manager).inventories_view(),
                final(manager).items_view(),
                final(manager).events_view(),
                item,
                self.inventories_ids@,
                result,
            ),
    {
        let ghost ids = self.inventories_ids@;
        let ghost it = old(manager).items_view()[item];
        let ghost inventories = old(manager).inventories_view();
        let ghost items = old(manager).items_view();
        let ghost events = old(manager).events_view();
        assert(items.insert(item, it) =~= items);
        let mut j: usize = 0;
        while j < self.inventories_ids.len()
            invariant
                ids == self.inventories_ids@,
                0 <= j <= ids.len(),
                it == old(manager).items_view()[item],
                inventories == old(manager).inventories_view(),
                items == old(manager).items_view(),
                events == old(manager).events_view(),
                items.contains_key(item),
                placeable_into(inventories, it, ids),
                manager.wf(),
                manager.item_counter() == old(manager).item_counter(),
                manager.inventories_view() == inventories,
                manager.events_view() == events,
                manager.items_view().contains_key(item),
                manager.items_view() == items.insert(item, manager.items_view()[item]),
                resized(it, manager.items_view()[item]),
                it.inventory is Some ==> forall|i: int|
                    0 <= i < j ==> !#[trigger] has_room(inventories[ids[i]], it),
            decreases ids.len() - j,
        {
            let inventory_id = self.inventories_ids[j];
            let ghost cur = manager.items_view()[item];
            let ghost before = *manager;
            proof {
                assert(ids[j as int] == inventory_id);
                assert(inventories.contains_key(ids[j as int]));
                if it.inventory is Some {
                    lemma_resized_rows(it, cur);
                }
            }
            let result = manager.put_item_at_first_free_space(item, inventory_id);
            match result {
                Ok(placed_id) => {
                    proof {
                        assert(placed_id == item);
                        assert(result == Ok::<u32, InventoryEntityResult>(item));
                        let array = inventories[inventory_id].grid_view().array@;
                        let w = inventories[inventory_id].grid_view().width as int;
                        let h = inventories[inventory_id].grid_view().height as int;
                        let rows = item_rows(it);
                        let cells = choose|cells: Seq<usize>|
                            crate::grid::first_free_cells(array, w, h, rows, cells);
                        assert(crate::grid::first_free_cells(array, w, h, rows, cells));
                        let (row, col) = choose|row: int, col: int|
                            0 <= row <= h - crate::grid::rect_height(rows) && 0 <= col <= w
                                - rect_width(rows) && #[trigger] crate::grid::first_fit(
                                array,
                                w,
                                h,
                                rows,
                                row,
                                col,
                            ) && cells == crate::grid::size_cells(w, row * w + col, rows);
                        assert(crate::grid::fits_at_position(array, w, h, rows, row, col));
                        assert(has_room(inventories[ids[j as int]], it));
                        assert(before.items_view() == items.insert(item, cur));
                        assert(items.insert(item, cur) == items.insert(item, cur).insert(item, cur));
                        assert(placed_at(
                            inventories,
                            items,
                            events,
                            manager.inventories_view(),
                            manager.items_view(),
                            manager.events_view(),
                            item,
                            ids,
                            j as int,
                            cur,
                        ));
                    }
                    return Ok(EffectResult::Free);
                },
                Err(e) => {
                    proof {
                        let placed = manager.items_view()[item];
                        if it.inventory is Some {
                            assert(has_room(inventories[ids[j as int]], it) == false);
                        }
                        assert(manager.items_view() =~= items.insert(item, placed));
                    }
                    let back = e.item();
                    assert(back == item);
                },
            }
            j = j + 1;
        }
        Err(item)
    }
}

/// What picking item `item` up into the inventories `ids` did to the registry
/// (inventories, items and reports before and after): first its stack is merged onto
/// the items of its kind (see `pickup_stacked`); when it is not done by that, it is put
/// into the first inventory with room for it (see `pickup_placed`).
pub open spec fn pickup_done(
    old_inventories: Map<u32, InventoryEntity>,
    old_items: Map<u32, Item>,
    old_events: Seq<InventoryEvent>,
    new_inventories: Map<u32, InventoryEntity>,
    new_items: Map<u32, Item>,
    new_events: Seq<InventoryEvent>,
    item: u32,
    ids: Seq<u32>,
) -> bool {
    exists|
        mid_inventories: Map<u32, InventoryEntity>,
        mid_items: Map<u32, Item>,
        mid_events: Seq<InventoryEvent>,
        stacked: Result<EffectResult, u32>,
    |
        #[trigger] pickup_stacked(
            old_inventories,
            old_items,
            old_events,
            mid_inventories,
            mid_items,
            mid_events,
            item,
            ids,
            stacked,
        ) && match stacked {
            Ok(_) => {
                &&& new_inventories == mid_inventories
                &&& new_items == mid_items
                &&& new_events == mid_events
            },
            Err(_) => exists|placed: Result<EffectResult, u32>|
                #[trigger] pickup_placed(
                    mid_inventories,
                    mid_items,
                    mid_events,
                    new_inventories,
                    new_items,
                    new_events,
                    item,
                    ids,
                    placed,
                ),
        }
}

impl PickupItem {
    /// Picks the item up (see `pickup_done`). The reaction is done afterwards either
    /// way.
    pub fn execute(&mut self, manager: &mut InventoryManager) -> (result: EffectResult)
        requires
            old(self).item is Some,
            old(manager).wf(),
            old(manager).items_view().contains_key(old(self).item.unwrap()),
            old(manager).home_known(old(manager).items_view()[old(self).item.unwrap()]),
            ({
                let it = old(manager).items_view()[old(self).item.unwrap()];
                &&& it.inventory is Some && it.inventory.unwrap().inventory_data.max_stack > 1
                    ==> cells_registered(
                    old(manager).inventories_view(),
                    old(manager).items_view(),
                    old(self).inventories_ids@,
                )
                &&& it.inventory is Some ==> placeable_into(
                    old(manager).inventories_view(),
                    it,
                    old(self).inventories_ids@,
                )
            }),
        ensures
            result == EffectResult::Free,
            final(self).item is None,
            final(self).inventories_ids@ == old(self).inventories_ids@,
            final(manager).wf(),
            final(manager).item_counter() == old(manager).item_counter(),
            pickup_done(
                old(manager).inventories_view(),
                old(manager).items_view(),
                old(manager).events_view(),
                final(manager).inventories_view(),
                final(manager).items_view(),
                final(manager).events_view(),
                old(self).item.unwrap(),
                old(self).inventories_ids@,
            ),
    {
        let item = self.item.take().unwrap();
        let ghost it = old(manager).items_view()[item];
        let stacked = self.try_stack_item(manager, item);
        let ghost mid = *manager;
        match stacked {
            Ok(r) => {
                assert(pickup_stacked(
                    old(manager).inventories_view(),
                    old(manager).items_view(),
                    old(manager).events_view(),
                    mid.inventories_view(),
                    mid.items_view(),
                    mid.events_view(),
                    item,
                    self.inventories_ids@,
                    stacked,
                ));
                r
            },
            Err(back) => {
                proof {
                    let now = mid.items_view()[item];
                    assert(item_rows(now) == item_rows(it));
                    assert(placeable_into(mid.inventories_view(), now, self.inventories_ids@));
                }
                let placed = self.try_place_item(manager, back);
                proof {
                    assert(pickup_placed(
                        mid.inventories_view(),
                        mid.items_view(),
                        mid.events_view(),
                        manager.inventories_view(),
                        manager.items_view(),
                        manager.events_view(),
                        item,
                        self.inventories_ids@,
                        placed,
                    ));
                    assert(pickup_stacked(
                        old(manager).inventories_view(),
                        old(manager).items_view(),
                        old(manager).events_view(),
                        mid.inventories_view(),
                        mid.items_view(),
                        mid.events_view(),
                        item,
                        self.inventories_ids@,
                        stacked,
                    ));
                }
                match placed {
                    Ok(r) => r,
                    Err(_) => EffectResult::Free,
                }
            },
        }
    }
}

/// Creating the items of `spawn` was tried in the inventories `ids`, one after the
/// other, through the registries `states` (see `spawn_outcome`), until one creation
/// succeeded (`created`) or every inventory was tried.
pub open spec fn creation_tried(
    states: Seq<InventoryManager>,
    spawn: ItemToSpawn,
    ids: Seq<u32>,
    created: bool,
) -> bool {
    let m = states.len() - 1;
    &&& 0 <= m <= ids.len()
    &&& created ==> m >= 1
    &&& !created ==> m == ids.len()
    &&& forall|i: int|
        #![trigger states[i]]
        0 <= i < m ==> spawn_outcome(
            states[i],
            states[i + 1],
            spawn,
            ids[i],
            created && i == m - 1,
        )
}

/// Combining went from registry `before` to `after` through `states`: the stack of
/// the actor was reduced by one when `reduce_actor` (else nothing changed), then the
/// stack of the reactor, then the outcome was created (see `creation_tried`).
pub open spec fn combine_trace(
    before: InventoryManager,
    after: InventoryManager,
    reduce_actor: bool,
    actor: u32,
    reactor: u32,
    spawn: ItemToSpawn,
    ids: Seq<u32>,
    states: Seq<InventoryManager>,
    created: bool,
) -> bool {
    &&& states.len() >= 3
    &&& states[0] == before
    &&& states.last() == after
    &&& if reduce_actor {
        stack_reduced(states[0], states[1], actor, 1)
    } else {
        states[1] == states[0]
    }
    &&& stack_reduced(states[1], states[2], reactor, 1)
    &&& creation_tried(states.skip(2), spawn, ids, created)
}

/// Combining an item (the actor) with another (the reactor) into a new one.
#[derive(Debug)]
pub struct CombineItemsInInventory {
    /// The item used on the other.
    pub actor: Option<u32>,
    /// The item the actor is used on.
    pub reactor: Option<u32>,
    /// Whether the actor is used up too.
    pub reduce_stack: bool,
    /// The inventories where the outcome may go, in the order they are tried.
    pub inventories_ids: Vec<u32>,
    /// What the combination creates.
    pub outcome: Option<ItemToSpawn>,
}

impl CombineItemsInInventory {
    /// Takes one item from the stack of the actor (when asked) and of the reactor,
    /// then creates the outcome in the first inventory where that succeeds (see
    /// `combine_trace`). The reaction is done afterwards either way.
    pub fn execute(&mut self, manager: &mut InventoryManager) -> (result: EffectResult)
        requires
            old(self).reactor is Some,
            old(self).reduce_stack ==> old(self).actor is Some,
            old(self).outcome is Some,
            old(manager).wf(),
            old(manager).items_view().contains_key(old(self).reactor.unwrap()),
            old(manager).home_known(old(manager).items_view()[old(self).reactor.unwrap()]),
            old(self).reduce_stack ==> {
                let actor = old(self).actor.unwrap();
                let it = old(manager).items_view()[actor];
                &&& old(manager).items_view().contains_key(actor)
                &&& old(manager).home_known(it)
                &&& actor == old(self).reactor.unwrap() ==> (it.inventory is None
                    || it.inventory.unwrap().stack > 1)
            },
            forall|j: int|
                0 <= j < old(self).inventories_ids@.len() ==> {
                    let id = #[trigger] old(self).inventories_ids@[j];
                    &&& old(manager).inventories_view().contains_key(id)
                    &&& spawn_ok(old(self).outcome.unwrap(), old(manager).inventories_view()[id])
                },
            old(manager).item_counter() + old(self).inventories_ids@.len() * spawn_stacks(
                old(self).outcome.unwrap(),
            ).len() <= u32::MAX,
        ensures
            result == EffectResult::Free,
            final(self).reactor is None,
            final(self).actor == if old(self).reduce_stack {
                None
            } else {
                old(self).actor
            },
            final(self).reduce_stack == old(self).reduce_stack,
            final(self).inventories_ids@ == old(self).inventories_ids@,
            final(self).outcome == old(self).outcome,
            final(manager).wf(),
            exists|states: Seq<InventoryManager>, created: bool|
                #[trigger] combine_trace(
                    *old(manager),
                    *final(manager),
                    old(self).reduce_stack,
                    old(self).actor.unwrap(),
                    old(self).reactor.unwrap(),
                    old(self).outcome.unwrap(),
                    old(self).inventories_ids@,
                    states,
                    created,
                ),
    {
        let ghost s0 = *manager;
        let ghost actor_id = old(self).actor.unwrap();
        let ghost reactor_id = old(self).reactor.unwrap();
        if self.reduce_stack {
            let actor = self.actor.take().unwrap();
            manager.reduce_stack(actor, 1);
        }
        let ghost s1 = *manager;
        proof {
            assert(s1.items_view().contains_key(reactor_id));
            assert(s1.items_view()[reactor_id].inventory is Some ==> item_home(s1.items_view()[reactor_id]) == item_home(s0.items_view()[reactor_id]));
        }
        let reactor = self.reactor.take().unwrap();
        manager.reduce_stack(reactor, 1);
        let ghost s2 = *manager;
        let ghost ids = self.inventories_ids@;
        let ghost spawn = self.outcome.unwrap();
        let ghost stacks = spawn_stacks(spawn);
        let ghost mut states: Seq<InventoryManager> = seq![s2];
        let mut j: usize = 0;
        let mut created = false;
        while j < self.inventories_ids.len()
            invariant_except_break
                !created,
            invariant
                ids == self.inventories_ids@,
                spawn == self.outcome.unwrap(),
                self.outcome is Some,
                stacks == spawn_stacks(spawn),
                0 <= j <= ids.len(),
                manager.wf(),
                states.len() == j + 1,
                states[0] == s2,
                states.last() == *manager,
                created ==> j >= 1,
                forall|i: int|
                    #![trigger states[i]]
                    0 <= i < j ==> spawn_outcome(
                        states[i],
                        states[i + 1],
                        spawn,
                        ids[i],
                        created && i == j - 1,
                    ),
                manager.item_counter() <= s0.item_counter() + j * stacks.len(),
                s0.item_counter() + ids.len() * stacks.len() <= u32::MAX,
                forall|k: int|
                    0 <= k < ids.len() ==> {
                        let id = #[trigger] ids[k];
                        &&& manager.inventories_view().contains_key(id)
                        &&& manager.inventories_view()[id].grid_view().width
                            == s0.inventories_view()[id].grid_view().width
                        &&& manager.inventories_view()[id].grid_view().height
                            == s0.inventories_view()[id].grid_view().height
                        &&& spawn_ok(spawn, s0.inventories_view()[id])
                    },
            ensures
                0 <= j <= ids.len(),
                states.len() == j + 1,
                states[0] == s2,
                states.last() == *manager,
                manager.wf(),
                created ==> j >= 1,
                !created ==> j == ids.len(),
                forall|i: int|
                    #![trigger states[i]]
                    0 <= i < j ==> spawn_outcome(
                        states[i],
                        states[i + 1],
                        spawn,
                        ids[i],
                        created && i == j - 1,
                    ),
            decreases ids.len() - j,
        {
            let inventory_id = self.inventories_ids[j];
            proof {
                assert(ids[j as int] == inventory_id);
                assert(spawn_ok(spawn, manager.inventories_view()[inventory_id]));
                assert(manager.item_counter() + stacks.len() <= s0.item_counter() + (j + 1) * stacks.len()) by (nonlinear_arith)
                    requires
                        manager.item_counter() <= s0.item_counter() + j * stacks.len(),
                ;
                assert(s0.item_counter() + (j + 1) * stacks.len() <= s0.item_counter() + ids.len() * stacks.len()) by (nonlinear_arith)
                    requires
                        j + 1 <= ids.len(),
                ;
            }
            let ghost before = *manager;
            let done = manager.create_item_in_inventory(self.outcome.as_ref().unwrap(), inventory_id);
            proof {
                states = states.push(*manager);
                assert(spawn_outcome(states[j as int], states[j + 1], spawn, ids[j as int], done));
                assert forall|k: int|
                    0 <= k < ids.len() implies {
                        let id = #[trigger] ids[k];
                        &&& manager.inventories_view().contains_key(id)
                        &&& manager.inventories_view()[id].grid_view().width
                            == s0.inventories_view()[id].grid_view().width
                        &&& manager.inventories_view()[id].grid_view().height
                            == s0.inventories_view()[id].grid_view().height
                        &&& spawn_ok(spawn, s0.inventories_view()[id])
                    } by {
                    let id = ids[k];
                    assert(before.inventories_view().contains_key(id));
                }
            }
            if done {
                created = true;
                j = j + 1;
                break;
            }
            j = j + 1;
        }
        proof {
            let all = seq![s0, s1] + states;
            assert(all.skip(2) =~= states);
            assert(combine_trace(
                s0,
                *manager,
                self.reduce_stack,
                actor_id,
                reactor_id,
                spawn,
                ids,
                all,
                created,
            ));
        }
        EffectResult::Free
    }
}

} // verus!
