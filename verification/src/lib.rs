use vstd::prelude::*;

pub mod rng;
pub mod room_array;
pub mod room_map;
pub mod room_manager;
pub mod enemies;
pub mod room_gen;

verus! {

/// Side length of one floor tile, in pixels.
pub const TILE_SIZE: u32 = 32;

} // verus!
