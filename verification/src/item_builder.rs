//! Creating items: one item, or a number of items split into full stacks.
use vstd::prelude::*;

use crate::inventory_item::{
    same_data, same_inventory_item, Coord, InventoryItem, InventoryItemData, Item,
};

verus! {

/// Builds items of one kind, taking their ids from a counter that the caller owns.
#[derive(Debug)]
pub struct ItemBuilder {
    /// The inventory side the items get, if they can be kept in an inventory.
    pub inventory: Option<InventoryItem>,
    /// How many items are still to be built.
    pub amount: u32,
}

/// `item` is `inv` with its stack set to `stack`.
pub open spec fn with_stack(item: InventoryItem, inv: InventoryItem, stack: u32) -> bool {
    &&& item.stack == stack
    &&& same_inventory_item(item, InventoryItem { stack, ..inv })
}

/// What one call of `next` did (builder and counter before and after, the item it
/// gave): with nothing left or no inventory side it gives `None` and changes nothing;
/// otherwise it takes the next id and gives a full stack while more than a stack's
/// worth is left, else the rest, after which nothing is left.
pub open spec fn next_step(
    before: ItemBuilder,
    counter: u32,
    after: ItemBuilder,
    next_counter: u32,
    item: Option<Item>,
) -> bool {
    if before.amount == 0 || before.inventory is None {
        &&& item is None
        &&& next_counter == counter
        &&& after.amount == before.amount
        &&& after.inventory == before.inventory
    } else {
        let inv = before.inventory.unwrap();
        let max_stack = inv.inventory_data.max_stack;
        &&& next_counter == counter + 1
        &&& item is Some
        &&& item.unwrap().id == next_counter
        &&& item.unwrap().inventory is Some
        &&& if before.amount <= max_stack {
            &&& item.unwrap().inventory.unwrap() == (InventoryItem { stack: before.amount, ..inv })
            &&& after.amount == 0
            &&& after.inventory is None
        } else {
            &&& with_stack(item.unwrap().inventory.unwrap(), inv, max_stack)
            &&& after.amount == before.amount - max_stack
            &&& after.inventory == Some(InventoryItem { stack: max_stack, ..inv })
        }
    }
}

impl ItemBuilder {
    /// A builder of one item with no inventory side.
    pub fn new() -> (builder: Self)
        ensures
            builder.amount == 1,
            builder.inventory is None,
    {
        ItemBuilder { inventory: None, amount: 1 }
    }

    /// A builder of one item of the given kind, or of an item with no inventory side.
    pub fn from_resource(inventory_data: Option<InventoryItemData>) -> (builder: Self)
        ensures
            builder.amount == 1,
            match inventory_data {
                Some(data) => builder.inventory is Some && builder.inventory.unwrap().inventory_data
                    == data && builder.inventory.unwrap().stack == 1
                    && builder.inventory.unwrap().current_inventory_id is None
                    && builder.inventory.unwrap().location == (Coord { x: 0, y: 0 }),
                None => builder.inventory is None,
            },
    {
        let mut builder = ItemBuilder::new();
        if let Some(data) = inventory_data {
            builder.inventory = Some(InventoryItem::from_data(data));
        }
        builder
    }

    /// Sets how many items to build.
    pub fn amount(self, amount: u32) -> (builder: Self)
        ensures
            builder.amount == amount,
            builder.inventory == self.inventory,
    {
        let mut builder = self;
        builder.amount = amount;
        builder
    }

    /// Builds a single item holding the whole amount in one stack, with the next id
    /// from `current_item_id`.
    pub fn build(self, current_item_id: &mut u32) -> (item: Item)
        requires
            *old(current_item_id) < u32::MAX,
        ensures
            *final(current_item_id) == *old(current_item_id) + 1,
            item.id == *final(current_item_id),
            match self.inventory {
                Some(inv) => item.inventory is Some && item.inventory.unwrap() == (InventoryItem {
                    stack: self.amount,
                    ..inv
                }),
                None => item.inventory is None,
            },
    {
        let mut inventory = self.inventory;
        if let Some(mut inv) = inventory {
            inv.stack = self.amount;
            inventory = Some(inv);
        }
        *current_item_id = *current_item_id + 1;
        Item { id: *current_item_id, inventory }
    }

    /// Builds the next stack: a full stack while more than a stack's worth is left,
    /// then the rest. Returns `None` when nothing is left or the items have no
    /// inventory side; each stack gets the next id from `current_item_id`.
    pub fn next(&mut self, current_item_id: &mut u32) -> (item: Option<Item>)
        requires
            old(self).amount > 0 && old(self).inventory is Some ==> *old(current_item_id)
                < u32::MAX,
        ensures
            next_step(*old(self), *old(current_item_id), *final(self), *final(current_item_id), item),
    {
        if self.amount == 0 {
            return None;
        }
        let mut inv = match self.inventory.take() {
            Some(inv) => inv,
            None => {
                return None;
            },
        };
        let max_stack = inv.inventory_data.max_stack;
        *current_item_id = *current_item_id + 1;
        if self.amount <= max_stack {
            inv.stack = self.amount;
            self.amount = 0;
            Some(Item { id: *current_item_id, inventory: Some(inv) })
        } else {
            inv.stack = max_stack;
            self.amount = self.amount - max_stack;
            let copy = inv.duplicate();
            self.inventory = Some(inv);
            Some(Item { id: *current_item_id, inventory: Some(copy) })
        }
    }
}

/// The stacks that building `amount` items of a kind holding `max_stack` per stack
/// gives: full stacks first, then the rest.
pub open spec fn stack_sizes(amount: nat, max_stack: nat) -> Seq<nat>
    decreases amount,
{
    if amount == 0 || max_stack == 0 {
        Seq::empty()
    } else if amount <= max_stack {
        seq![amount]
    } else {
        seq![max_stack] + stack_sizes((amount - max_stack) as nat, max_stack)
    }
}

/// Splitting into stacks neither loses nor invents items: the stacks add up to the amount.
pub proof fn lemma_stacks_add_up(amount: nat, max_stack: nat)
    requires
        max_stack > 0,
    ensures
        stack_sum(stack_sizes(amount, max_stack)) == amount,
        forall|i: int|
            0 <= i < stack_sizes(amount, max_stack).len() ==> 0 < #[trigger] stack_sizes(
                amount,
                max_stack,
            )[i] <= max_stack,
    decreases amount,
{
    if amount > max_stack {
        let rest = stack_sizes((amount - max_stack) as nat, max_stack);
        lemma_stacks_add_up((amount - max_stack) as nat, max_stack);
        lemma_stack_sum_prepend(max_stack, rest);
        assert forall|i: int| 0 <= i < stack_sizes(amount, max_stack).len() implies 0
            < #[trigger] stack_sizes(amount, max_stack)[i] <= max_stack by {
            if i > 0 {
                assert(stack_sizes(amount, max_stack)[i] == rest[i - 1]);
            }
        }
    } else if amount > 0 {
        assert(stack_sum(seq![amount]) == amount) by {
            reveal_with_fuel(stack_sum, 2);
            assert(seq![amount].drop_last() =~= Seq::<nat>::empty());
        }
    }
}

/// The total of a sequence of stack sizes.
pub open spec fn stack_sum(s: Seq<nat>) -> nat
    decreases s.len(),
{
    if s.len() == 0 {
        0
    } else {
        stack_sum(s.drop_last()) + s.last()
    }
}

proof fn lemma_stack_sum_prepend(x: nat, s: Seq<nat>)
    ensures
        stack_sum(seq![x] + s) == x + stack_sum(s),
    decreases s.len(),
{
    reveal_with_fuel(stack_sum, 2);
    if s.len() > 0 {
        lemma_stack_sum_prepend(x, s.drop_last());
        assert((seq![x] + s).drop_last() =~= seq![x] + s.drop_last());
        assert((seq![x] + s).last() == s.last());
    } else {
        assert(seq![x] + s =~= seq![x]);
        assert(seq![x].drop_last() =~= Seq::<nat>::empty());
    }
}

/// Calling `next` until it gives `None` (`builders`, `counters` and `items` trace the
/// calls): the items come in the stacks of `stack_sizes`, in order, with the ids that
/// follow the counter one by one, and the counter ends advanced by their number; with
/// no inventory side or nothing to build the first call already gives `None`.
pub proof fn lemma_next_runs_through_stacks(
    builders: Seq<ItemBuilder>,
    counters: Seq<u32>,
    items: Seq<Option<Item>>,
)
    requires
        items.len() > 0,
        builders.len() == items.len() + 1,
        counters.len() == items.len() + 1,
        forall|i: int|
            #![trigger items[i]]
            0 <= i < items.len() ==> next_step(
                builders[i],
                counters[i],
                builders[i + 1],
                counters[i + 1],
                items[i],
            ),
        forall|i: int| #![trigger items[i]] 0 <= i < items.len() - 1 ==> items[i] is Some,
        items.last() is None,
        builders[0].inventory is Some ==> builders[0].inventory.unwrap().inventory_data.max_stack
            > 0,
    ensures
        ({
            let n = items.len() - 1;
            let b = builders[0];
            &&& counters[n] == counters[0] + n
            &&& forall|i: int|
                #![trigger items[i]]
                0 <= i < n ==> items[i].unwrap().id == counters[0] + i + 1
                    && items[i].unwrap().inventory is Some
            &&& (b.inventory is None || b.amount == 0) ==> n == 0
            &&& b.inventory is Some ==> {
                let stacks = stack_sizes(
                    b.amount as nat,
                    b.inventory.unwrap().inventory_data.max_stack as nat,
                );
                &&& n == stacks.len()
                &&& forall|i: int|
                    #![trigger items[i]]
                    0 <= i < n ==> items[i].unwrap().inventory.unwrap().stack == stacks[i]
            }
        }),
    decreases items.len(),
{
    assert(next_step(builders[0], counters[0], builders[1], counters[1], items[0]));
    if items.len() > 1 {
        let bs = builders.drop_first();
        let cs = counters.drop_first();
        let its = items.drop_first();
        assert(items[0] is Some);
        assert forall|i: int| #![trigger its[i]] 0 <= i < its.len() implies next_step(
            bs[i],
            cs[i],
            bs[i + 1],
            cs[i + 1],
            its[i],
        ) by {
            assert(its[i] == items[i + 1]);
            assert(bs[i + 1] == builders[i + 2]);
            assert(cs[i + 1] == counters[i + 2]);
        }
        assert forall|i: int| #![trigger its[i]] 0 <= i < its.len() - 1 implies its[i] is Some by {
            assert(items[i + 1] is Some);
        }
        assert(its.last() == items.last());
        lemma_next_runs_through_stacks(bs, cs, its);
        let b = builders[0];
        let inv = b.inventory.unwrap();
        let m = inv.inventory_data.max_stack as nat;
        let n = items.len() - 1;
        if b.amount as nat <= m {
            assert(bs[0].inventory is None);
            assert(stack_sizes(b.amount as nat, m) =~= seq![b.amount as nat]);
        } else {
            assert(stack_sizes(b.amount as nat, m) =~= seq![m] + stack_sizes(
                (b.amount - m) as nat,
                m,
            ));
        }
        assert forall|i: int| #![trigger items[i]] 0 <= i < n implies items[i].unwrap().id
            == counters[0] + i + 1 && items[i].unwrap().inventory is Some by {
            if i > 0 {
                assert(items[i] == its[i - 1]);
            }
        }
        assert forall|i: int| #![trigger items[i]] 0 <= i < n implies items[i].unwrap().inventory.unwrap().stack
            == stack_sizes(b.amount as nat, m)[i] by {
            if i > 0 {
                assert(items[i] == its[i - 1]);
            }
        }
    }
}

impl ItemBuilder {
    /// Builds all the stacks, in order, taking consecutive ids from `current_item_id`.
    pub fn build_all(&mut self, current_item_id: &mut u32) -> (items: Vec<Item>)
        requires
            old(self).inventory is Some ==> old(self).inventory.unwrap().inventory_data.max_stack
                > 0,
            old(self).inventory is Some ==> *old(current_item_id) + stack_sizes(
                old(self).amount as nat,
                old(self).inventory.unwrap().inventory_data.max_stack as nat,
            ).len() <= u32::MAX,
        ensures
            old(self).inventory is None ==> items@.len() == 0 && *final(current_item_id) == *old(
                current_item_id,
            ),
            old(self).inventory is Some ==> ({
                let stacks = stack_sizes(
                    old(self).amount as nat,
                    old(self).inventory.unwrap().inventory_data.max_stack as nat,
                );
                &&& items@.len() == stacks.len()
                &&& *final(current_item_id) == *old(current_item_id) + stacks.len()
                &&& forall|i: int|
                    0 <= i < items@.len() ==> #[trigger] items@[i].id == *old(current_item_id) + i
                        + 1 && items@[i].inventory is Some && items@[i].inventory.unwrap().stack
                        == stacks[i] && items@[i].inventory.unwrap().inventory_data.id == old(
                        self,
                    ).inventory.unwrap().inventory_data.id
            }),
    {
        let mut items: Vec<Item> = Vec::new();
        let ghost start = *current_item_id;
        let ghost has_inv = self.inventory is Some;
        let ghost kind = if has_inv { self.inventory.unwrap().inventory_data.id } else { 0 };
        let ghost max_stack: nat = if has_inv {
            self.inventory.unwrap().inventory_data.max_stack as nat
        } else {
            0
        };
        let ghost stacks = if has_inv { stack_sizes(self.amount as nat, max_stack) } else { Seq::empty() };
        loop
            invariant
                has_inv ==> max_stack > 0,
                has_inv ==> start + stacks.len() <= u32::MAX,
                !has_inv ==> items@.len() == 0 && *current_item_id == start && self.inventory is None,
                has_inv ==> {
                    &&& items@.len() <= stacks.len()
                    &&& *current_item_id == start + items@.len()
                    &&& stack_sizes(self.amount as nat, max_stack) == stacks.subrange(
                        items@.len() as int,
                        stacks.len() as int,
                    )
                    &&& (self.amount > 0 ==> self.inventory is Some)
                    &&& (self.inventory is Some ==> self.inventory.unwrap().inventory_data.id == kind
                        && self.inventory.unwrap().inventory_data.max_stack == max_stack)
                    &&& forall|i: int|
                        0 <= i < items@.len() ==> #[trigger] items@[i].id == start + i + 1
                            && items@[i].inventory is Some && items@[i].inventory.unwrap().stack
                            == stacks[i] && items@[i].inventory.unwrap().inventory_data.id == kind
                },
            ensures
                has_inv ==> items@.len() == stacks.len(),
            decreases self.amount,
        {
            let ghost before = items@;
            let ghost amount_before = self.amount as nat;
            let ghost builder_before = *self;
            let ghost counter_before = *current_item_id;
            let next = self.next(current_item_id);
            proof {
                assert(next_step(builder_before, counter_before, *self, *current_item_id, next));
                if has_inv && builder_before.amount > 0 {
                    assert(builder_before.inventory is Some);
                    let inv = builder_before.inventory.unwrap();
                    if builder_before.amount > inv.inventory_data.max_stack {
                        assert(self.inventory == Some(InventoryItem { stack: inv.inventory_data.max_stack, ..inv }));
                    }
                }
            }
            match next {
                Some(item) => {
                    proof {
                        let rest = stacks.subrange(before.len() as int, stacks.len() as int);
                        assert(rest == stack_sizes(amount_before, max_stack));
                        assert(amount_before > 0);
                        assert(rest.len() > 0);
                        assert(before.len() < stacks.len());
                        if amount_before <= max_stack {
                            assert(rest =~= seq![amount_before]);
                        } else {
                            assert(rest =~= seq![max_stack] + stack_sizes(
                                (amount_before - max_stack) as nat,
                                max_stack,
                            ));
                        }
                        assert(rest[0] == stacks[before.len() as int]);
                        assert(stacks.subrange(before.len() as int + 1, stacks.len() as int) =~= rest.subrange(
                            1,
                            rest.len() as int,
                        ));
                        if amount_before > max_stack {
                            assert(rest.subrange(1, rest.len() as int) =~= stack_sizes(
                                (amount_before - max_stack) as nat,
                                max_stack,
                            ));
                        } else {
                            assert(rest.subrange(1, rest.len() as int) =~= Seq::<nat>::empty());
                        }
                    }
                    items.push(item);
                },
                None => {
                    proof {
                        if has_inv {
                            assert(stack_sizes(self.amount as nat, max_stack) =~= Seq::<nat>::empty());
                            assert(stacks.subrange(items@.len() as int, stacks.len() as int).len()
                                == 0);
                            assert(items@.len() == stacks.len());
                        }
                    }
                    break;
                },
            }
        }
        items
    }
}


/// What to create: how many items of which kind, and optionally where.
#[derive(Debug)]
pub struct ItemToSpawn {
    pub amount: u32,
    /// Put the items at `position` instead of the first free place.
    pub assign_position: bool,
    /// Column (`x`) and row (`y`) for the items when `assign_position` is set.
    pub position: Coord,
    /// The inventory side of the items' kind, if they can be kept in an inventory.
    pub inventory_data: Option<InventoryItemData>,
}

impl ItemToSpawn {
    /// A builder for `amount` items of this kind.
    pub fn builder(&self) -> (builder: ItemBuilder)
        ensures
            builder.amount == self.amount,
            match self.inventory_data {
                Some(data) => builder.inventory is Some && same_data(
                    builder.inventory.unwrap().inventory_data,
                    data,
                ) && builder.inventory.unwrap().stack == 1
                    && builder.inventory.unwrap().current_inventory_id is None
                    && builder.inventory.unwrap().location == (Coord { x: 0, y: 0 }),
                None => builder.inventory is None,
            },
    {
        let data = match &self.inventory_data {
            Some(d) => Some(d.duplicate()),
            None => None,
        };
        ItemBuilder::from_resource(data).amount(self.amount)
    }
}
} // verus!
