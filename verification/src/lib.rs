//! The game logic of a first-person immersive sim: grid inventories and the registry
//! that moves, stacks, creates and deletes their items; the reactions that pick items
//! up and combine them; the state machines of the player and of the inventory screen;
//! and the target selection of the AI.
use vstd::prelude::*;

pub mod grid;
pub mod inventory_item;
pub mod inventory_entity;
pub mod targeting;
pub mod player;
pub mod inventory_ui;
pub mod item_builder;
pub mod inventory_manager;
pub mod reacts;
pub mod sensors;
pub mod hud;
pub mod display;
