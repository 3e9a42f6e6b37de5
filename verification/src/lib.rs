//! Core logic of a small 2D item-placement game.
//!
//! A player clicks to place the front item of an inventory into the world.
//! Each tick runs a fixed pipeline: a build request is spawned at the click
//! position, validated against a rectangular placement zone, resolved on
//! success (the item leaves the inventory, is placed in the world, and a
//! freshly drawn random item is appended), and finally every request is
//! cleared so that none survives the tick.
//!
//! Everything the engine supplies (rendering, input picking, cameras) stays
//! outside; the pipeline here works on plain values.

pub mod interaction;
pub mod inventory;
pub mod items;
pub mod mouse;
pub mod rng;
pub mod share;
pub mod zone;
