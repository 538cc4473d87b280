//! Dungeon generation, movement and visibility bookkeeping for a small
//! roguelike: rooms carved into a wall-filled grid and joined by L-shaped
//! tunnels, actors that step between open cells, and the explored-cell latch
//! that a field-of-view pass feeds.

use vstd::prelude::*;

pub mod dungeon;
pub mod input;
pub mod laws;
pub mod object;
pub mod rect;
pub mod tile;
pub mod view;
pub mod walk;

verus! {

} // verus!
