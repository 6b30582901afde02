# cuscuta

Room generation and enemy data for a top-down dungeon game, verified with Verus.

- `src/room_map.rs` — the room map as a grid of z indices: filling a room's
  rectangle, and finding the bounding box of the cells of a z index.
- `src/room_manager.rs` — `RoomManager`: the map, one collision grid per room,
  room sizes, z indices, and placement of new rooms next to the top or bottom
  door of the current room.
- `src/room_array.rs` — `RoomArray`: room dimensions stored by absolute z index.
- `src/room_gen.rs` — start room, wall/floor tile and door layout with their
  collision cells, generated rooms and walking through a door. Wall cells are
  marked with 1 and door cells with 2 on the current room's collision grid;
  a cell outside the grid is left alone.
- `src/enemies.rs` — enemy kinds with their stats, and the enemy id counter.
- `src/rng.rs` — the one call into `rand`.
- `app/` — serde forms of the enemy data, float conversions and console output.

Z indices and pixel sizes are whole numbers in the library (z indices of rooms
are even and negative; room sizes are multiples of the 32-pixel tile); the
rendering side turns them into floats. Half room sizes kept per room are
counted in half pixels, so that odd pixel sizes halve exactly.
