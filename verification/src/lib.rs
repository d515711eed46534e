//! Crafting and inventory core for a sandbox game.
//!
//! The library models items, item stacks, inventories of entity-backed
//! slots, recipe tables and the craft algorithm, together with the
//! add/remove item mutation protocol that a replication layer delivers.
//! The surrounding game engine (rendering, physics, networking transport)
//! is treated as an external collaborator: it owns the entity store that
//! the core reads and mutates through plain values.

pub mod chest;
pub mod craft;
pub mod enchant;
pub mod enemy;
pub mod inventory;
pub mod item;
pub mod laws;
pub mod layout;
pub mod lazy_eq;
pub mod protocol;
pub mod store;
pub mod ui;
pub mod workbench;
