# godot_goap_rust

The game logic of a first-person immersive sim built on Godot, as a verified library.

- `src/grid.rs` – the cell grid of an inventory and item shapes (runs of cells).
- `src/inventory_item.rs`, `src/item_builder.rs` – item kinds, stacks, and building items.
- `src/inventory_entity.rs` – one inventory: placing, moving and checking items.
- `src/inventory_manager.rs` – the registry of all inventories and items.
- `src/reacts.rs` – picking an item up, combining two items.
- `src/player.rs`, `src/inventory_ui.rs` – the player's and the inventory screen's state machines.
- `src/targeting.rs`, `src/sensors.rs`, `src/hud.rs`, `src/display.rs` – target masks, sensors,
  the HUD display choice, and the text shown for items and grids.
- `app/lib.rs` – screen-space, clock and random-number helpers that stay outside the proofs.

Every function in `src/` carries a contract; the public `lemma_*` proof functions state the
laws that hold across calls.
