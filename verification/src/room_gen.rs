use vstd::prelude::*;

use crate::rng::random_in_range;
use crate::room_array::{slot_of, slot_store, RoomDimensions};
use crate::room_manager::{
    MAP_SIZE, bottom_door_fits, bottom_door_origin, top_door_origin, lemma_top_door_room_adjacent, lemma_bottom_door_room_adjacent, bottom_door_map, room_added, room_added_with_grid, current_grid_became, current_grid_view, set_cell, set_collide, lemma_current_grid_chain, lemma_added_then_marked, lemma_placed_grid_kept, uniform_grid, top_door_fits, top_door_map, RoomManager,
};
use crate::room_map::{fill_rect, grid_fits_usize, lemma_bounds_of_placed_room, rect_fits, room_bounds, room_present};
use crate::TILE_SIZE;

verus! {

/// The four doors of a room.
#[derive(Debug, Clone, Copy, PartialEq, Eq, Structural)]
pub enum DoorType {
    Right,
    Left,
    Top,
    Bottom,
}

/// A door: the z index of the room it leads to, and which door it is.
#[derive(Debug, Clone, Copy, PartialEq, Eq, Structural)]
pub struct Door {
    pub next: Option<i32>,
    pub door_type: DoorType,
}

/// Where a door goes: the door, the centre of its sprite in pixels relative to
/// the room's centre, and its collision cell (marked with the value 2 when the
/// door is laid out).
#[derive(Debug, Clone, Copy, PartialEq, Eq, Structural)]
pub struct DoorSpawn {
    pub door: Door,
    pub x: i64,
    pub y: i64,
    pub collide_x: usize,
    pub collide_y: usize,
}

/// The size of a freshly generated room: width and height in pixels, half of
/// each, and its z index.
#[derive(Debug, Clone, Copy, PartialEq, Eq, Structural)]
pub struct RoomBoundaries {
    pub room_width: u32,
    pub room_height: u32,
    pub max_x: u32,
    pub max_y: u32,
    pub z_index: i32,
}

/// What the rendering of a room generated through a top or bottom door needs:
/// its size in pixels and half of it, its z index, its wall and floor tiles,
/// its doors, and the
/// bounding box found on the map for the last generated z index.
#[derive(Debug, Clone, PartialEq, Eq)]
pub struct RoomPlan {
    pub room_width: u32,
    pub room_height: u32,
    pub max_x: u32,
    pub max_y: u32,
    pub z_index: i32,
    pub tiles: Vec<Vec<TileSpawn>>,
    pub doors: Vec<DoorSpawn>,
    pub bounds: Option<(usize, usize, usize, usize)>,
}

/// What the rendering of the start room needs: its size in tiles, in pixels
/// and half of it, its z index, its bounding box on the map, its wall and floor
/// tiles, and its doors.
#[derive(Debug, Clone, PartialEq, Eq)]
pub struct StartRoom {
    pub width: usize,
    pub height: usize,
    pub room_width: u32,
    pub room_height: u32,
    pub max_x: u32,
    pub max_y: u32,
    pub z_index: i32,
    pub bounds: Option<(usize, usize, usize, usize)>,
    pub tiles: Vec<Vec<TileSpawn>>,
    pub doors: Vec<DoorSpawn>,
}

/// The outcome of walking through a door: where the player is put (pixels,
/// relative to the new room's centre, and z index), whether the new room was
/// placed on the map (top and bottom doors only), and the generated room to
/// render (top and bottom doors only).
#[derive(Debug, Clone, PartialEq, Eq)]
pub struct Transition {
    pub spawn_x: i64,
    pub spawn_y: i64,
    pub spawn_z: i32,
    pub placed: Option<bool>,
    pub new_room: Option<RoomPlan>,
}

/// A pixel coordinate turned into a cell index the way a float-to-`usize`
/// cast does it: negative values become 0, too large ones `usize::MAX`.
pub open spec fn to_cell(v: int) -> int {
    if v < 0 {
        0
    } else if v > usize::MAX {
        usize::MAX as int
    } else {
        v
    }
}

/// `d` is the door of type `dt` of a room whose half width and half height in
/// pixels are `max_x` and `max_y`, leading to the room with z index `next`.
pub open spec fn is_door_spawn(d: DoorSpawn, dt: DoorType, max_x: int, max_y: int, next: i32) -> bool {
    let t = TILE_SIZE as int;
    &&& d.door == Door { next: Some(next), door_type: dt }
    &&& match dt {
        DoorType::Right => {
            &&& d.x == max_x - 3 * t / 2 + t
            &&& d.y == t / 2
            &&& d.collide_x == to_cell(2 * max_x - 3 * t / 2 + t)
            &&& d.collide_y == to_cell(t / 2 + max_y)
        },
        DoorType::Left => {
            &&& d.x == -max_x + 3 * t / 2 - t
            &&& d.y == t / 2
            &&& d.collide_x == to_cell(-2 * max_x + 3 * t / 2 - t)
            &&& d.collide_y == to_cell(t / 2 + max_y)
        },
        DoorType::Top => {
            &&& d.x == t / 2
            &&& d.y == max_y - 3 * t / 2 + t
            &&& d.collide_x == to_cell(t / 2 + max_x)
            &&& d.collide_y == to_cell(2 * max_y - 3 * t / 2 + t)
        },
        DoorType::Bottom => {
            &&& d.x == t / 2
            &&& d.y == -max_y + 3 * t / 2 - t
            &&& d.collide_x == to_cell(t / 2 + max_x)
            &&& d.collide_y == to_cell(-2 * max_y - 3 * t / 2 - t)
        },
    }
}

/// `doors` are the right, left, top and bottom doors, in that order, of a room
/// whose half size in pixels is `max_x` x `max_y`, all leading to `next`.
pub open spec fn doors_laid_out(doors: Seq<DoorSpawn>, max_x: int, max_y: int, next: i32) -> bool {
    &&& doors.len() == 4
    &&& is_door_spawn(doors[0], DoorType::Right, max_x, max_y, next)
    &&& is_door_spawn(doors[1], DoorType::Left, max_x, max_y, next)
    &&& is_door_spawn(doors[2], DoorType::Top, max_x, max_y, next)
    &&& is_door_spawn(doors[3], DoorType::Bottom, max_x, max_y, next)
}

/// `b` is `a` after the boundaries `r` of a room of `w` x `h` tiles were
/// generated: the room was added, and its size stored under the z index below
/// the last generated one; the z indices themselves are unchanged.
pub open spec fn boundaries_made(a: RoomManager, b: RoomManager, w: usize, h: usize, r: RoomBoundaries) -> bool {
    let t = TILE_SIZE as int;
    &&& r.room_width == w * t
    &&& r.room_height == h * t
    &&& r.max_x == r.room_width / 2
    &&& r.max_y == r.room_height / 2
    &&& r.z_index == a.global_z_index - 2
    &&& room_added(a, b, w, h, r.room_width, r.room_height)
    &&& b.room_map@ == a.room_map@
    &&& b.room_array.rooms@ == slot_store(
        a.room_array.rooms@,
        slot_of(r.z_index as int) as nat,
        RoomDimensions { width: w, height: h },
    )
    &&& b.current_z_index == a.current_z_index
    &&& b.global_z_index == a.global_z_index
}

/// `b` is `a` after a room of `width` x `height` tiles was generated as the
/// next room (its map aside): the z indices both move 2 down, the room is
/// added with its door cells marked on its collision grid, and `plan` holds
/// its size, z index, tiles, doors and the bounding box found for that z index
/// on `b`'s map.
pub open spec fn room_generated(a: RoomManager, b: RoomManager, width: usize, height: usize, plan: RoomPlan) -> bool {
    let t = TILE_SIZE as int;
    let z = a.global_z_index - 2;
    &&& plan.room_width == width * t
    &&& plan.room_height == height * t
    &&& plan.max_x == plan.room_width / 2
    &&& plan.max_y == plan.room_height / 2
    &&& plan.z_index == z
    &&& b.global_z_index == z
    &&& b.current_z_index == z
    &&& room_added_with_grid(
        a,
        b,
        plan.room_width,
        plan.room_height,
        doors_marked(uniform_grid(width as nat, height as nat, 0u32), plan.doors@),
    )
    &&& b.room_array.rooms@ == a.room_array.rooms@
    &&& tiles_laid_out(plan.tiles@, plan.max_x as int, plan.max_y as int)
    &&& doors_laid_out(plan.doors@, plan.max_x as int, plan.max_y as int, z as i32)
    &&& plan.bounds == room_bounds(b.map(), z as i32)
}

/// `b` and `r` are what walking through door `door` does to `a`, once the new
/// room's boundaries `bnd` are known.
pub open spec fn transition_done(a: RoomManager, b: RoomManager, door: DoorType, bnd: RoomBoundaries, r: Transition) -> bool {
    let t = TILE_SIZE as int;
    let w = (bnd.room_width / TILE_SIZE) as usize;
    let h = (bnd.room_height / TILE_SIZE) as usize;
    let nz = (a.global_z_index - 2) as i32;
    match door {
        DoorType::Right => {
            &&& b == a
            &&& r == Transition {
                spawn_x: (-bnd.max_x + 2 * t) as i64,
                spawn_y: (t / 2) as i64,
                spawn_z: a.current_z_index,
                placed: None,
                new_room: None,
            }
        },
        DoorType::Left => {
            &&& b == a
            &&& r == Transition {
                spawn_x: (bnd.max_x - 2 * t) as i64,
                spawn_y: (t / 2) as i64,
                spawn_z: a.current_z_index,
                placed: None,
                new_room: None,
            }
        },
        DoorType::Top => {
            &&& b.map() == top_door_map(a.map(), a.current_z_index, nz, w, h)
            &&& r.placed == Some(room_bounds(a.map(), a.current_z_index) is Some)
            &&& r.new_room matches Some(plan) && room_generated(a, b, w, h, plan)
            &&& r.spawn_x == t / 2
            &&& r.spawn_y == -bnd.max_y + 2 * t
            &&& r.spawn_z == b.current_z_index
        },
        DoorType::Bottom => {
            &&& b.map() == bottom_door_map(a.map(), a.current_z_index, nz, w, h)
            &&& r.placed == Some(room_bounds(a.map(), a.current_z_index) is Some)
            &&& r.new_room matches Some(plan) && room_generated(a, b, w, h, plan)
            &&& r.spawn_x == t / 2
            &&& r.spawn_y == bnd.max_y - 2 * t
            &&& r.spawn_z == b.current_z_index
        },
    }
}

/// The kinds of tile that make up a room.
#[derive(Debug, Clone, Copy, PartialEq, Eq, Structural)]
pub enum TileKind {
    NorthWall,
    SouthWall,
    EastWall,
    WestWall,
    Floor,
}

/// A tile to spawn: its kind and the centre of its sprite in pixels relative
/// to the room's centre.
#[derive(Debug, Clone, Copy, PartialEq, Eq, Structural)]
pub struct TileSpawn {
    pub kind: TileKind,
    pub x: i64,
    pub y: i64,
}

/// How far below its room's z index a tile is drawn, in tenths of a z unit.
pub open spec fn tile_layer_tenths(kind: TileKind) -> int {
    match kind {
        TileKind::NorthWall | TileKind::SouthWall => 0,
        TileKind::EastWall => -1,
        TileKind::WestWall => -2,
        TileKind::Floor => -3,
    }
}

/// The render layer of a tile relative to its room's z index, in tenths of a
/// z unit: walls on the room's z index (north and south) or just below it (east,
/// then west), the floor below them.
pub fn tile_layer_offset(kind: TileKind) -> (r: i32)
    ensures
        r == tile_layer_tenths(kind),
{
    match kind {
        TileKind::NorthWall | TileKind::SouthWall => 0,
        TileKind::EastWall => -1,
        TileKind::WestWall => -2,
        TileKind::Floor => -3,
    }
}

/// The render layer of a door relative to its room's z index, in tenths of a
/// z unit: just above the room.
pub const DOOR_LAYER_TENTHS: i32 = 1;

/// How many tile centres `T / 2, T / 2 + T, ...` (measured from one edge) lie
/// strictly below `span`, with `T` the tile size.
pub open spec fn tile_steps(span: int) -> int {
    let t = TILE_SIZE as int;
    if span <= t / 2 {
        0
    } else {
        (span - t / 2 + t - 1) / t
    }
}

/// `t` is a tile of kind `k` centred at `(x, y)`.
pub open spec fn is_tile(t: TileSpawn, k: TileKind, x: int, y: int) -> bool {
    t.kind == k && t.x == x && t.y == y
}

/// `col` is column `i` of the tiles of a room whose half size in pixels is
/// `max_x` x `max_y`, with `rows` rows: its north and south wall tiles, then
/// for each row, bottom to top, the east wall, west wall and floor tiles.
pub open spec fn column_tiles(col: Seq<TileSpawn>, i: int, max_x: int, max_y: int, rows: int) -> bool {
    let t = TILE_SIZE as int;
    let x = -max_x + t / 2 + t * i;
    &&& col.len() == 2 + 3 * rows
    &&& is_tile(col[0], TileKind::NorthWall, x, max_y - t / 2)
    &&& is_tile(col[1], TileKind::SouthWall, x, -max_y + t / 2)
    &&& forall|j: int| 0 <= j < rows ==> {
        let y = -max_y + t / 2 + t * j;
        &&& is_tile(#[trigger] col[2 + 3 * j], TileKind::EastWall, max_x - t / 2, y)
        &&& is_tile(col[3 + 3 * j], TileKind::WestWall, -max_x + t / 2, y)
        &&& is_tile(col[4 + 3 * j], TileKind::Floor, x, y)
    }
}

/// `cols` are the tiles of a room whose half size in pixels is `max_x` x
/// `max_y`, column by column from the west: one column per tile centre left of
/// `max_x`, one row per tile centre below `max_y` plus one tile.
pub open spec fn tiles_laid_out(cols: Seq<Vec<TileSpawn>>, max_x: int, max_y: int) -> bool {
    let t = TILE_SIZE as int;
    &&& cols.len() == tile_steps(2 * max_x)
    &&& forall|i: int| 0 <= i < cols.len() ==> column_tiles(#[trigger] cols[i]@, i, max_x, max_y, tile_steps(2 * max_y + t))
}

/// The grid after the wall collision cells of a room were marked with `v`:
/// the cells `(x, n)` (north wall) and `(x, 0)` (south wall) of the first
/// `cols` columns, and the cells `(e, y)` (east wall) and `(0, y)` (west wall)
/// of the first `rows` rows; cells outside the grid are left alone.
pub open spec fn wall_marked(g: Seq<Seq<u32>>, cols: int, rows: int, n: int, e: int, v: u32) -> Seq<Seq<u32>> {
    Seq::new(
        g.len(),
        |x: int|
            Seq::new(
                g[x].len(),
                |y: int|
                    if (0 <= x < cols && (y == n || y == 0)) || ((x == e || x == 0) && 0 <= y < rows) {
                        v
                    } else {
                        g[x][y]
                    },
            ),
    )
}

/// The collision grid `g` of a room whose half size in pixels is `max_x` x
/// `max_y` after its wall cells were marked with 1: one north and one south
/// cell per wall column (the row of `max_y / T`, and row 0), one east and one
/// west cell per wall row (the column of `max_x / T`, and column 0).
pub open spec fn walls_marked(g: Seq<Seq<u32>>, max_x: int, max_y: int) -> Seq<Seq<u32>> {
    let t = TILE_SIZE as int;
    let cols = tile_steps(2 * max_x);
    let rows = if cols > 0 { tile_steps(2 * max_y + t) } else { 0 };
    wall_marked(g, cols, rows, max_y / t, max_x / t, 1)
}

/// The collision grid `g` after the collision cells of `doors` were marked
/// with 2, in order.
pub open spec fn doors_marked(g: Seq<Seq<u32>>, doors: Seq<DoorSpawn>) -> Seq<Seq<u32>> {
    let g1 = set_cell(g, doors[0].collide_x as int, doors[0].collide_y as int, 2);
    let g2 = set_cell(g1, doors[1].collide_x as int, doors[1].collide_y as int, 2);
    let g3 = set_cell(g2, doors[2].collide_x as int, doors[2].collide_y as int, 2);
    set_cell(g3, doors[3].collide_x as int, doors[3].collide_y as int, 2)
}

/// A tile centre strictly below `span` counts among `tile_steps(span)`.
proof fn lemma_below_tile_steps(j: int, span: int)
    requires
        j >= 0,
        (TILE_SIZE as int) * j + (TILE_SIZE as int) / 2 < span,
    ensures
        j < tile_steps(span),
{
}

/// A run of `n` tile centres from `T / 2` in steps of `T` stays below `span`
/// and the next one does not: then there are `tile_steps(span)` of them.
proof fn lemma_tile_steps(n: int, span: int)
    requires
        n >= 0,
        n == 0 || (TILE_SIZE as int) * (n - 1) + (TILE_SIZE as int) / 2 < span,
        (TILE_SIZE as int) * n + (TILE_SIZE as int) / 2 >= span,
    ensures
        n == tile_steps(span),
{
}

/// Turns a pixel coordinate into a cell index, saturating like a
/// float-to-`usize` cast.
fn cell_of(v: i64) -> (r: usize)
    ensures
        r == to_cell(v as int),
{
    if v < 0 {
        0
    } else if v as u64 > usize::MAX as u64 {
        usize::MAX
    } else {
        v as usize
    }
}

/// The right, left, top and bottom doors of the current room, a room whose
/// half size in pixels is `max_x` x `max_y`; each leads to the last generated
/// room. Their collision cells are marked with 2 on the current room's grid.
pub fn generate_doors(room_manager: &mut RoomManager, max_x: u32, max_y: u32) -> (r: Vec<DoorSpawn>)
    requires
        old(room_manager).current_room < old(room_manager).grids@.len(),
    ensures
        doors_laid_out(r@, max_x as int, max_y as int, old(room_manager).global_z_index),
        current_grid_became(*old(room_manager), *final(room_manager), doors_marked(current_grid_view(*old(room_manager)), r@)),
{
    let t: i64 = TILE_SIZE as i64;
    let mx: i64 = max_x as i64;
    let my: i64 = max_y as i64;
    let next = room_manager.global_z_index;
    let mut doors: Vec<DoorSpawn> = Vec::new();

    // Right door
    doors.push(DoorSpawn {
        door: Door { next: Some(next), door_type: DoorType::Right },
        x: mx - 3 * t / 2 + t,
        y: t / 2,
        collide_x: cell_of(mx * 2 - 3 * t / 2 + t),
        collide_y: cell_of(t / 2 + my),
    });
    // Left door
    doors.push(DoorSpawn {
        door: Door { next: Some(next), door_type: DoorType::Left },
        x: -mx + 3 * t / 2 - t,
        y: t / 2,
        collide_x: cell_of(-mx * 2 + 3 * t / 2 - t),
        collide_y: cell_of(t / 2 + my),
    });
    // Top door
    doors.push(DoorSpawn {
        door: Door { next: Some(next), door_type: DoorType::Top },
        x: t / 2,
        y: my - 3 * t / 2 + t,
        collide_x: cell_of(t / 2 + mx),
        collide_y: cell_of(my * 2 - 3 * t / 2 + t),
    });
    // Bottom door
    doors.push(DoorSpawn {
        door: Door { next: Some(next), door_type: DoorType::Bottom },
        x: t / 2,
        y: -my + 3 * t / 2 - t,
        collide_x: cell_of(t / 2 + mx),
        collide_y: cell_of(-my * 2 - 3 * t / 2 - t),
    });

    let ghost start = *room_manager;
    let ghost g0 = current_grid_view(start);
    let mut k: usize = 0;
    while k < 4
        invariant
            doors@.len() == 4,
            0 <= k <= 4,
            start.current_room < start.grids@.len(),
            g0 == current_grid_view(start),
            current_grid_became(start, *room_manager, if k == 0 {
                g0
            } else if k == 1 {
                set_cell(g0, doors@[0].collide_x as int, doors@[0].collide_y as int, 2)
            } else if k == 2 {
                set_cell(set_cell(g0, doors@[0].collide_x as int, doors@[0].collide_y as int, 2), doors@[1].collide_x as int, doors@[1].collide_y as int, 2)
            } else if k == 3 {
                set_cell(set_cell(set_cell(g0, doors@[0].collide_x as int, doors@[0].collide_y as int, 2), doors@[1].collide_x as int, doors@[1].collide_y as int, 2), doors@[2].collide_x as int, doors@[2].collide_y as int, 2)
            } else {
                doors_marked(g0, doors@)
            }),
        decreases 4 - k,
    {
        let ghost before = *room_manager;
        set_collide(room_manager, doors[k].collide_x, doors[k].collide_y, 2);
        proof {
            lemma_current_grid_chain(start, before, *room_manager, current_grid_view(before), current_grid_view(*room_manager));
        }
        k = k + 1;
    }
    doors
}

/// The wall and floor tiles of a room whose half size in pixels is `max_x` x
/// `max_y`, column by column.
pub fn generate_walls_and_floors(max_x: u32, max_y: u32) -> (r: Vec<Vec<TileSpawn>>)
    ensures
        tiles_laid_out(r@, max_x as int, max_y as int),
{
    let t: i64 = TILE_SIZE as i64;
    let mx: i64 = max_x as i64;
    let my: i64 = max_y as i64;
    let ghost rows = tile_steps(2 * max_y + TILE_SIZE as int);
    let mut columns: Vec<Vec<TileSpawn>> = Vec::new();
    let mut x_offset: i64 = -mx + t / 2;
    let mut i: usize = 0;
    while x_offset < mx
        invariant
            t == TILE_SIZE,
            mx == max_x,
            my == max_y,
            rows == tile_steps(2 * max_y + TILE_SIZE as int),
            columns@.len() == i,
            x_offset == -mx + t / 2 + t * i,
            i == 0 || t * (i - 1) + t / 2 < 2 * mx,
            forall|c: int| 0 <= c < i ==> column_tiles(#[trigger] columns@[c]@, c, max_x as int, max_y as int, rows),
        decreases mx + t - x_offset,
    {
        let mut col: Vec<TileSpawn> = Vec::new();
        col.push(TileSpawn { kind: TileKind::NorthWall, x: x_offset, y: my - t / 2 });
        col.push(TileSpawn { kind: TileKind::SouthWall, x: x_offset, y: -my + t / 2 });
        let mut y_offset: i64 = -my + t / 2;
        let mut j: usize = 0;
        while y_offset < my + t
            invariant
                t == TILE_SIZE,
                mx == max_x,
                my == max_y,
                x_offset == -mx + t / 2 + t * i,
                x_offset < mx,
                y_offset == -my + t / 2 + t * j,
                j == 0 || t * (j - 1) + t / 2 < 2 * my + t,
                col@.len() == 2 + 3 * j,
                is_tile(col@[0], TileKind::NorthWall, x_offset as int, my - t / 2),
                is_tile(col@[1], TileKind::SouthWall, x_offset as int, -my + t / 2),
                forall|k: int| 0 <= k < j ==> {
                    let y = -my + t / 2 + t * k;
                    &&& is_tile(#[trigger] col@[2 + 3 * k], TileKind::EastWall, mx - t / 2, y)
                    &&& is_tile(col@[3 + 3 * k], TileKind::WestWall, -mx + t / 2, y)
                    &&& is_tile(col@[4 + 3 * k], TileKind::Floor, x_offset as int, y)
                },
            decreases my + t + t - y_offset,
        {
            col.push(TileSpawn { kind: TileKind::EastWall, x: mx - t / 2, y: y_offset });
            col.push(TileSpawn { kind: TileKind::WestWall, x: -mx + t / 2, y: y_offset });
            col.push(TileSpawn { kind: TileKind::Floor, x: x_offset, y: y_offset });
            y_offset = y_offset + t;
            j = j + 1;
        }
        proof {
            lemma_tile_steps(j as int, 2 * my + t);
            assert forall|k: int| 0 <= k < rows implies {
                let y = -max_y + TILE_SIZE as int / 2 + TILE_SIZE as int * k;
                &&& is_tile(#[trigger] col@[2 + 3 * k], TileKind::EastWall, max_x - TILE_SIZE as int / 2, y)
                &&& is_tile(col@[3 + 3 * k], TileKind::WestWall, -max_x + TILE_SIZE as int / 2, y)
                &&& is_tile(col@[4 + 3 * k], TileKind::Floor, -max_x + TILE_SIZE as int / 2 + TILE_SIZE as int * i, y)
            } by {
                assert(is_tile(col@[2 + 3 * k], TileKind::EastWall, mx - t / 2, -my + t / 2 + t * k));
            }
            assert(column_tiles(col@, i as int, max_x as int, max_y as int, rows));
        }
        let ghost before = columns@;
        columns.push(col);
        proof {
            assert forall|c: int| 0 <= c <= i implies column_tiles(#[trigger] columns@[c]@, c, max_x as int, max_y as int, rows) by {
                if c < i {
                    assert(columns@[c] == before[c]);
                }
            }
        }
        x_offset = x_offset + t;
        i = i + 1;
    }
    proof {
        lemma_tile_steps(i as int, 2 * mx);
    }
    columns
}

/// Marks the wall collision cells of the current room, a room whose half size
/// in pixels is `max_x` x `max_y`, with 1, column by column in the order its
/// wall tiles are laid.
pub fn mark_wall_cells(room_manager: &mut RoomManager, max_x: u32, max_y: u32)
    requires
        old(room_manager).current_room < old(room_manager).grids@.len(),
    ensures
        current_grid_became(
            *old(room_manager),
            *final(room_manager),
            walls_marked(current_grid_view(*old(room_manager)), max_x as int, max_y as int),
        ),
{
    let ghost start = *room_manager;
    let ghost g0 = current_grid_view(start);
    let t: i64 = TILE_SIZE as i64;
    let mx: i64 = max_x as i64;
    let my: i64 = max_y as i64;
    let north_row: usize = (max_y / TILE_SIZE) as usize;
    let east_column: usize = (max_x / TILE_SIZE) as usize;
    let ghost rows = tile_steps(2 * max_y + TILE_SIZE as int);
    let mut x_offset: i64 = -mx + t / 2;
    let mut i: usize = 0;
    assert(current_grid_view(*room_manager) =~~= wall_marked(g0, 0, 0, north_row as int, east_column as int, 1));
    while x_offset < mx
        invariant
            t == TILE_SIZE,
            mx == max_x,
            my == max_y,
            north_row == max_y / TILE_SIZE,
            east_column == max_x / TILE_SIZE,
            rows == tile_steps(2 * max_y + TILE_SIZE as int),
            g0 == current_grid_view(start),
            start.current_room < start.grids@.len(),
            x_offset == -mx + t / 2 + t * i,
            i == 0 || t * (i - 1) + t / 2 < 2 * mx,
            current_grid_became(
                start,
                *room_manager,
                wall_marked(g0, i as int, if i > 0 { rows } else { 0 }, north_row as int, east_column as int, 1),
            ),
        decreases mx + t - x_offset,
    {
        let ghost s0 = *room_manager;
        set_collide(room_manager, i, north_row, 1);
        let ghost s1 = *room_manager;
        set_collide(room_manager, i, 0, 1);
        proof {
            lemma_current_grid_chain(start, s0, s1, wall_marked(g0, i as int, if i > 0 { rows } else { 0 }, north_row as int, east_column as int, 1),
                set_cell(wall_marked(g0, i as int, if i > 0 { rows } else { 0 }, north_row as int, east_column as int, 1), i as int, north_row as int, 1));
            lemma_current_grid_chain(start, s1, *room_manager, current_grid_view(s1), current_grid_view(*room_manager));
            assert(current_grid_view(*room_manager) =~~= wall_marked(g0, i + 1, if i > 0 { rows } else { 0 }, north_row as int, east_column as int, 1));
        }
        let mut y_offset: i64 = -my + t / 2;
        let mut j: usize = 0;
        while y_offset < my + t
            invariant
                t == TILE_SIZE,
                mx == max_x,
                my == max_y,
                north_row == max_y / TILE_SIZE,
                east_column == max_x / TILE_SIZE,
                rows == tile_steps(2 * max_y + TILE_SIZE as int),
                g0 == current_grid_view(start),
                start.current_room < start.grids@.len(),
                y_offset == -my + t / 2 + t * j,
                j == 0 || t * (j - 1) + t / 2 < 2 * my + t,
                current_grid_became(
                    start,
                    *room_manager,
                    wall_marked(g0, i + 1, if i > 0 { rows } else { j as int }, north_row as int, east_column as int, 1),
                ),
            decreases my + t + t - y_offset,
        {
            proof {
                lemma_below_tile_steps(j as int, 2 * my + t);
            }
            let ghost s2 = *room_manager;
            set_collide(room_manager, east_column, j, 1);
            let ghost s3 = *room_manager;
            set_collide(room_manager, 0, j, 1);
            proof {
                lemma_current_grid_chain(start, s2, s3, current_grid_view(s2), current_grid_view(s3));
                lemma_current_grid_chain(start, s3, *room_manager, current_grid_view(s3), current_grid_view(*room_manager));
                assert(current_grid_view(*room_manager) =~~= wall_marked(g0, i + 1, if i > 0 { rows } else { j + 1 }, north_row as int, east_column as int, 1));
            }
            y_offset = y_offset + t;
            j = j + 1;
        }
        proof {
            lemma_tile_steps(j as int, 2 * my + t);
        }
        x_offset = x_offset + t;
        i = i + 1;
    }
    proof {
        lemma_tile_steps(i as int, 2 * mx);
        assert(wall_marked(g0, i as int, if i > 0 { rows } else { 0 }, north_row as int, east_column as int, 1)
            == walls_marked(g0, max_x as int, max_y as int));
    }
}

/// Generates the boundaries of a room of `width` x `height` tiles: adds the
/// room, stores its size under the z index below the last generated one, and
/// returns its size in pixels, half of it, and that z index.
pub fn generate_room_boundaries_sized(room_manager: &mut RoomManager, width: usize, height: usize) -> (r: RoomBoundaries)
    requires
        width * TILE_SIZE <= u32::MAX,
        height * TILE_SIZE <= u32::MAX,
        old(room_manager).global_z_index >= i32::MIN + 2,
    ensures
        boundaries_made(*old(room_manager), *final(room_manager), width, height, r),
{
    let room_width: u32 = width as u32 * TILE_SIZE;
    let room_height: u32 = height as u32 * TILE_SIZE;

    room_manager.add_room(width, height, room_width, room_height);

    let z_index = room_manager.get_global_z_index() - 2;

    room_manager.room_array.add_room_to_storage(z_index, width, height);

    let max_x = room_width / 2;
    let max_y = room_height / 2;

    RoomBoundaries { room_width, room_height, max_x, max_y, z_index }
}

/// Generates the boundaries of a room of random size, between 40 and 80 tiles
/// each way.
fn generate_room_boundaries(room_manager: &mut RoomManager) -> (r: RoomBoundaries)
    requires
        old(room_manager).global_z_index >= i32::MIN + 2,
    ensures
        exists|w: usize, h: usize|
            40 <= w <= 80 && 40 <= h <= 80 && boundaries_made(*old(room_manager), *final(room_manager), w, h, r),
{
    let random_width = random_in_range(40, 80);
    let random_height = random_in_range(40, 80);
    generate_room_boundaries_sized(room_manager, random_width, random_height)
}

/// Generates the next room, of `width` x `height` tiles: moves both z indices
/// 2 down, adds the room, and returns what its rendering needs.
pub fn generate_random_room_with_bounds(room_manager: &mut RoomManager, width: usize, height: usize) -> (plan: RoomPlan)
    requires
        width * TILE_SIZE <= u32::MAX,
        height * TILE_SIZE <= u32::MAX,
        old(room_manager).global_z_index >= i32::MIN + 2,
    ensures
        room_generated(*old(room_manager), *final(room_manager), width, height, plan),
        final(room_manager).room_map@ == old(room_manager).room_map@,
{
    let room_width: u32 = width as u32 * TILE_SIZE;
    let room_height: u32 = height as u32 * TILE_SIZE;
    let max_x = room_width / 2;
    let max_y = room_height / 2;

    let next_z_index = room_manager.next_room_z_index();
    let global_z_index = room_manager.get_global_z_index();

    let ghost before_add = *room_manager;
    room_manager.add_room(width, height, room_width, room_height);
    let ghost added = *room_manager;

    let tiles = generate_walls_and_floors(max_x, max_y);
    let doors = generate_doors(room_manager, max_x, max_y);
    proof {
        lemma_added_then_marked(before_add, added, *room_manager, room_width, room_height,
            uniform_grid(width as nat, height as nat, 0u32), current_grid_view(*room_manager));
    }
    let bounds = room_manager.find_room_bounds(global_z_index);

    RoomPlan { room_width, room_height, max_x, max_y, z_index: next_z_index, tiles, doors, bounds }
}

/// Finishes walking through door `door_type` once the new room's boundaries
/// `bounds` are known: through the top or bottom door, the new room is placed
/// on the map next to the current room and generated; the player is put just
/// inside the door opposite to the one taken.
pub fn complete_transition(room_manager: &mut RoomManager, door_type: DoorType, bounds: RoomBoundaries) -> (r: Transition)
    requires
        old(room_manager).global_z_index >= i32::MIN + 2,
        door_type == DoorType::Top ==> top_door_fits(
            old(room_manager).map(),
            old(room_manager).current_z_index,
            (bounds.room_width / TILE_SIZE) as usize,
            (bounds.room_height / TILE_SIZE) as usize,
        ),
        door_type == DoorType::Bottom ==> bottom_door_fits(
            old(room_manager).map(),
            old(room_manager).current_z_index,
            (bounds.room_width / TILE_SIZE) as usize,
            (bounds.room_height / TILE_SIZE) as usize,
        ),
    ensures
        transition_done(*old(room_manager), *final(room_manager), door_type, bounds, r),
{
    let t: i64 = TILE_SIZE as i64;
    let max_x: i64 = bounds.max_x as i64;
    let max_y: i64 = bounds.max_y as i64;
    let width: usize = (bounds.room_width / TILE_SIZE) as usize;
    let height: usize = (bounds.room_height / TILE_SIZE) as usize;
    match door_type {
        DoorType::Right => {
            Transition {
                spawn_x: -max_x + t * 2,
                spawn_y: t / 2,
                spawn_z: room_manager.current_z_index,
                placed: None,
                new_room: None,
            }
        },
        DoorType::Left => {
            Transition {
                spawn_x: max_x - t * 2,
                spawn_y: t / 2,
                spawn_z: room_manager.current_z_index,
                placed: None,
                new_room: None,
            }
        },
        DoorType::Top => {
            let new_z_index = room_manager.get_global_z_index() - 2;
            let current_z = room_manager.get_current_z_index();
            let ghost before = *room_manager;
            let placed = room_manager.add_room_to_map_from_top_door(current_z, new_z_index, width, height);
            let ghost placed_state = *room_manager;
            let plan = generate_random_room_with_bounds(room_manager, width, height);
            proof {
                assert(placed_state.same_but_map(&before));
                assert(room_generated(before, *room_manager, width, height, plan));
            }
            Transition {
                spawn_x: t / 2,
                spawn_y: -max_y + t * 2,
                spawn_z: room_manager.current_z_index,
                placed: Some(placed),
                new_room: Some(plan),
            }
        },
        DoorType::Bottom => {
            let new_z_index = room_manager.get_global_z_index() - 2;
            let current_z = room_manager.get_current_z_index();
            let ghost before = *room_manager;
            let placed = room_manager.add_room_to_map_from_bottom_door(current_z, new_z_index, width, height);
            let ghost placed_state = *room_manager;
            let plan = generate_random_room_with_bounds(room_manager, width, height);
            proof {
                assert(placed_state.same_but_map(&before));
                assert(room_generated(before, *room_manager, width, height, plan));
            }
            Transition {
                spawn_x: t / 2,
                spawn_y: max_y - t * 2,
                spawn_z: room_manager.current_z_index,
                placed: Some(placed),
                new_room: Some(plan),
            }
        },
    }
}

/// Walks through door `door_type`: generates the boundaries of a new room of
/// random size (40 to 80 tiles each way), then finishes the transition as
/// `complete_transition` does.
pub fn transition_map(room_manager: &mut RoomManager, door_type: DoorType) -> (r: Transition)
    requires
        old(room_manager).current_room < old(room_manager).max_sizes@.len(),
        old(room_manager).global_z_index >= i32::MIN + 2,
        door_type == DoorType::Top ==> forall|w: usize, h: usize|
            40 <= w <= 80 && 40 <= h <= 80 ==> #[trigger] top_door_fits(
                old(room_manager).map(),
                old(room_manager).current_z_index,
                w,
                h,
            ),
        door_type == DoorType::Bottom ==> forall|w: usize, h: usize|
            40 <= w <= 80 && 40 <= h <= 80 ==> #[trigger] bottom_door_fits(
                old(room_manager).map(),
                old(room_manager).current_z_index,
                w,
                h,
            ),
    ensures
        exists|w: usize, h: usize, mid: RoomManager, bnd: RoomBoundaries|
            40 <= w <= 80 && 40 <= h <= 80 && #[trigger] boundaries_made(*old(room_manager), mid, w, h, bnd)
                && transition_done(mid, *final(room_manager), door_type, bnd, r),
{
    // the size of the room being left is read, as the room it was stored for must exist
    let (_old_max_x, _old_max_y) = room_manager.current_room_max();

    let ghost before = *room_manager;
    let bounds = generate_room_boundaries(room_manager);
    let ghost mid = *room_manager;
    let ghost (w, h) = choose|w: usize, h: usize|
        40 <= w <= 80 && 40 <= h <= 80 && boundaries_made(before, mid, w, h, bounds);
    assert((bounds.room_width / TILE_SIZE) as usize == w);
    assert((bounds.room_height / TILE_SIZE) as usize == h);
    assert(mid.map() == before.map());
    let r = complete_transition(room_manager, door_type, bounds);
    assert(boundaries_made(before, mid, w, h, bounds) && transition_done(mid, *room_manager, door_type, bounds, r));
    r
}

/// Lays out the start room: a room of 40 x 40 tiles is added and placed at a
/// random position of the map under the current z index; returns what its
/// rendering needs.
pub fn spawn_start_room(room_manager: &mut RoomManager) -> (r: StartRoom)
    requires
        rect_fits(old(room_manager).map(), 0, 0, MAP_SIZE - 1, MAP_SIZE - 1),
    ensures
        r.width == 40,
        r.height == 40,
        r.room_width == 40 * TILE_SIZE,
        r.room_height == 40 * TILE_SIZE,
        r.max_x == r.room_width / 2,
        r.max_y == r.room_height / 2,
        r.z_index == old(room_manager).current_z_index,
        room_added_with_grid(
            *old(room_manager),
            *final(room_manager),
            r.room_width,
            r.room_height,
            doors_marked(walls_marked(uniform_grid(40, 40, 0u32), r.max_x as int, r.max_y as int), r.doors@),
        ),
        final(room_manager).room_array.rooms@ == old(room_manager).room_array.rooms@,
        final(room_manager).current_z_index == old(room_manager).current_z_index,
        final(room_manager).global_z_index == old(room_manager).global_z_index,
        exists|sx: usize, sy: usize|
            sx < MAP_SIZE - 40 && sy < MAP_SIZE - 40 && final(room_manager).map() == fill_rect(
                old(room_manager).map(),
                sx as int,
                sy as int,
                40,
                40,
                r.z_index,
            ) && (!room_present(old(room_manager).map(), r.z_index) ==> r.bounds == Some(
                (sx, (sx + 39) as usize, sy, (sy + 39) as usize),
            )),
        r.bounds == room_bounds(final(room_manager).map(), r.z_index),
        tiles_laid_out(r.tiles@, r.max_x as int, r.max_y as int),
        doors_laid_out(r.doors@, r.max_x as int, r.max_y as int, old(room_manager).global_z_index),
{
    let random_width = random_in_range(40, 40);
    let random_height = random_in_range(40, 40);

    let room_width: u32 = random_width as u32 * TILE_SIZE;
    let room_height: u32 = random_height as u32 * TILE_SIZE;

    let ghost before_add = *room_manager;
    room_manager.add_room(random_width, random_height, room_width, room_height);
    let ghost added = *room_manager;

    let max_x = room_width / 2;
    let max_y = room_height / 2;

    let z_index = room_manager.current_room_z_index();

    let ghost before_place = room_manager.map();
    room_manager.add_start_room_to_map(z_index, random_width, random_height);

    let bounds = room_manager.find_room_bounds(z_index);
    proof {
        let (sx, sy) = choose|sx: int, sy: int|
            0 <= sx < MAP_SIZE - 40 && 0 <= sy < MAP_SIZE - 40
                && room_manager.map() == fill_rect(before_place, sx, sy, 40, 40, z_index);
        if !room_present(before_place, z_index) {
            lemma_bounds_of_placed_room(before_place, z_index, sx as usize, sy as usize, 40, 40);
        }
        assert(sx as usize as int == sx && sy as usize as int == sy);
        assert(room_manager.map() == fill_rect(before_place, (sx as usize) as int, (sy as usize) as int, 40, 40, z_index));
    }

    let tiles = generate_walls_and_floors(max_x, max_y);
    let ghost placed = *room_manager;
    mark_wall_cells(room_manager, max_x, max_y);
    let ghost walled = *room_manager;
    let doors = generate_doors(room_manager, max_x, max_y);
    proof {
        lemma_placed_grid_kept(added, placed);
        lemma_added_then_marked(before_add, placed, walled, room_width, room_height,
            uniform_grid(40, 40, 0u32), current_grid_view(walled));
        lemma_added_then_marked(before_add, walled, *room_manager, room_width, room_height,
            current_grid_view(walled), current_grid_view(*room_manager));
    }

    StartRoom {
        width: random_width,
        height: random_height,
        room_width,
        room_height,
        max_x,
        max_y,
        z_index,
        bounds,
        tiles,
        doors,
    }
}

/// Clamps a cell index into `0 .. n - 1`.
pub open spec fn clamp_cell(v: int, n: int) -> int {
    if v < 0 {
        0
    } else if v > n - 1 {
        n - 1
    } else {
        v
    }
}

/// A clamped cell index lies in `0 .. n - 1`; an index already there is kept,
/// a negative one becomes 0 and one past the end becomes `n - 1`.
pub proof fn lemma_clamp_cell(v: int, n: int)
    requires
        n > 0,
    ensures
        0 <= clamp_cell(v, n) < n,
        0 <= v < n ==> clamp_cell(v, n) == v,
        v < 0 ==> clamp_cell(v, n) == 0,
        v >= n ==> clamp_cell(v, n) == n - 1,
{
}

/// Clamps a cell index into `0 .. n - 1`.
fn clamp_index(v: i64, n: usize) -> (r: usize)
    requires
        n > 0,
    ensures
        r == clamp_cell(v as int, n as int),
{
    if v < 0 {
        0
    } else if v as u64 >= n as u64 {
        n - 1
    } else {
        v as usize
    }
}

/// Reads the collision cells of the current room at the four corners of a box:
/// `min_x_cell` .. `max_x_cell` are the box's columns and `min_y_cell` ..
/// `max_y_cell` its rows, each clamped to the grid (column count and row count
/// of the grid's first column). Returns the cells at the top-left, top-right,
/// bottom-left and bottom-right corners, where "top" is the greatest row.
pub fn translate_coords_to_grid(
    room_manager: &mut RoomManager,
    min_x_cell: i64,
    max_x_cell: i64,
    min_y_cell: i64,
    max_y_cell: i64,
) -> (r: (u32, u32, u32, u32))
    requires
        ({
            let g = old(room_manager).grids@[old(room_manager).current_room as int]@;
            &&& old(room_manager).current_room < old(room_manager).grids@.len()
            &&& g.len() > 0
            &&& g[0]@.len() > 0
            &&& clamp_cell(max_y_cell as int, g[0]@.len() as int) < g[clamp_cell(min_x_cell as int, g.len() as int)]@.len()
            &&& clamp_cell(max_y_cell as int, g[0]@.len() as int) < g[clamp_cell(max_x_cell as int, g.len() as int)]@.len()
            &&& clamp_cell(min_y_cell as int, g[0]@.len() as int) < g[clamp_cell(min_x_cell as int, g.len() as int)]@.len()
            &&& clamp_cell(min_y_cell as int, g[0]@.len() as int) < g[clamp_cell(max_x_cell as int, g.len() as int)]@.len()
        }),
    ensures
        *final(room_manager) == *old(room_manager),
        ({
            let g = old(room_manager).grids@[old(room_manager).current_room as int]@;
            let xl = clamp_cell(min_x_cell as int, g.len() as int);
            let xh = clamp_cell(max_x_cell as int, g.len() as int);
            let yl = clamp_cell(min_y_cell as int, g[0]@.len() as int);
            let yh = clamp_cell(max_y_cell as int, g[0]@.len() as int);
            r == (g[xl]@[yh], g[xh]@[yh], g[xl]@[yl], g[xh]@[yl])
        }),
{
    let current_grid = &room_manager.grids[room_manager.current_room];
    let width = current_grid.len();
    let height = current_grid[0].len();

    let arr_x_max = clamp_index(max_x_cell, width);
    let arr_x_min = clamp_index(min_x_cell, width);
    let arr_y_max = clamp_index(max_y_cell, height);
    let arr_y_min = clamp_index(min_y_cell, height);

    let topleft = current_grid[arr_x_min][arr_y_max];
    let topright = current_grid[arr_x_max][arr_y_max];
    let bottomleft = current_grid[arr_x_min][arr_y_min];
    let bottomright = current_grid[arr_x_max][arr_y_min];

    (topleft, topright, bottomleft, bottomright)
}

/// Walking through the top door of a room that is on the map places the new
/// room right above it, and the generated room reports exactly those bounds:
/// centred on the old room's middle column, its last row just above the old
/// room's first row.
pub proof fn lemma_top_transition_adjacent(a: RoomManager, b: RoomManager, bnd: RoomBoundaries, r: Transition)
    requires
        transition_done(a, b, DoorType::Top, bnd, r),
        grid_fits_usize(a.map()),
        room_bounds(a.map(), a.current_z_index) is Some,
        !room_present(a.map(), (a.global_z_index - 2) as i32),
        a.global_z_index >= i32::MIN + 2,
        bnd.room_width / TILE_SIZE >= 1,
        bnd.room_height / TILE_SIZE >= 1,
        top_door_fits(a.map(), a.current_z_index, (bnd.room_width / TILE_SIZE) as usize, (bnd.room_height / TILE_SIZE) as usize),
        top_door_origin(room_bounds(a.map(), a.current_z_index)->0, (bnd.room_width / TILE_SIZE) as usize, (bnd.room_height / TILE_SIZE) as usize).0
            + bnd.room_width / TILE_SIZE - 1 > 0,
        top_door_origin(room_bounds(a.map(), a.current_z_index)->0, (bnd.room_width / TILE_SIZE) as usize, (bnd.room_height / TILE_SIZE) as usize).1
            + bnd.room_height / TILE_SIZE - 1 > 0,
    ensures
        ({
            let w = (bnd.room_width / TILE_SIZE) as usize;
            let h = (bnd.room_height / TILE_SIZE) as usize;
            let old_box = room_bounds(a.map(), a.current_z_index)->0;
            let o = top_door_origin(old_box, w, h);
            &&& r.new_room->0.bounds == Some((o.0 as usize, (o.0 + w - 1) as usize, o.1 as usize, (old_box.2 - 1) as usize))
            &&& room_bounds(b.map(), a.current_z_index) == room_bounds(a.map(), a.current_z_index)
        }),
{
    let w = (bnd.room_width / TILE_SIZE) as usize;
    let h = (bnd.room_height / TILE_SIZE) as usize;
    lemma_top_door_room_adjacent(a.map(), a.current_z_index, (a.global_z_index - 2) as i32, w, h);
}

/// Walking through the bottom door of a room that is on the map places the
/// new room right below it, and the generated room reports exactly those
/// bounds: centred on the old room's middle column, its first row just below
/// the old room's last row.
pub proof fn lemma_bottom_transition_adjacent(a: RoomManager, b: RoomManager, bnd: RoomBoundaries, r: Transition)
    requires
        transition_done(a, b, DoorType::Bottom, bnd, r),
        grid_fits_usize(a.map()),
        room_bounds(a.map(), a.current_z_index) is Some,
        !room_present(a.map(), (a.global_z_index - 2) as i32),
        a.global_z_index >= i32::MIN + 2,
        bnd.room_width / TILE_SIZE >= 1,
        bnd.room_height / TILE_SIZE >= 1,
        bottom_door_fits(a.map(), a.current_z_index, (bnd.room_width / TILE_SIZE) as usize, (bnd.room_height / TILE_SIZE) as usize),
        bottom_door_origin(room_bounds(a.map(), a.current_z_index)->0, (bnd.room_width / TILE_SIZE) as usize, (bnd.room_height / TILE_SIZE) as usize).0
            + bnd.room_width / TILE_SIZE - 1 > 0,
    ensures
        ({
            let w = (bnd.room_width / TILE_SIZE) as usize;
            let h = (bnd.room_height / TILE_SIZE) as usize;
            let old_box = room_bounds(a.map(), a.current_z_index)->0;
            let o = bottom_door_origin(old_box, w, h);
            &&& r.new_room->0.bounds == Some((o.0 as usize, (o.0 + w - 1) as usize, (old_box.3 + 1) as usize, (old_box.3 + h) as usize))
            &&& room_bounds(b.map(), a.current_z_index) == room_bounds(a.map(), a.current_z_index)
        }),
{
    let w = (bnd.room_width / TILE_SIZE) as usize;
    let h = (bnd.room_height / TILE_SIZE) as usize;
    lemma_bottom_door_room_adjacent(a.map(), a.current_z_index, (a.global_z_index - 2) as i32, w, h);
}

/// Where the tiles of a room whose half size in pixels is `max_x` x `max_y`
/// lie: the east wall tiles on the column `max_x - T / 2` just inside the east
/// edge, the west wall tiles on `-max_x + T / 2`, the north wall tiles on the
/// row `max_y - T / 2`, the south wall tiles on `-max_y + T / 2`; every tile's
/// centre lies strictly between `-max_x` and `max_x`, and the north, south
/// and floor tiles of column `i` on the column `-max_x + T / 2 + T * i`.
pub proof fn lemma_tile_positions(cols: Seq<Vec<TileSpawn>>, max_x: int, max_y: int)
    requires
        tiles_laid_out(cols, max_x, max_y),
    ensures
        forall|i: int, k: int| 0 <= i < cols.len() && 0 <= k < cols[i]@.len() ==> {
            let tile = #[trigger] cols[i]@[k];
            let t = TILE_SIZE as int;
            &&& -max_x < tile.x < max_x
            &&& tile.kind == TileKind::EastWall ==> tile.x == max_x - t / 2
            &&& tile.kind == TileKind::WestWall ==> tile.x == -max_x + t / 2
            &&& tile.kind == TileKind::NorthWall ==> tile.y == max_y - t / 2 && tile.x == -max_x + t / 2 + t * i
            &&& tile.kind == TileKind::SouthWall ==> tile.y == -max_y + t / 2 && tile.x == -max_x + t / 2 + t * i
            &&& tile.kind == TileKind::Floor ==> tile.x == -max_x + t / 2 + t * i
        },
{
    let t = TILE_SIZE as int;
    let rows = tile_steps(2 * max_y + t);
    assert forall|i: int, k: int| 0 <= i < cols.len() && 0 <= k < cols[i]@.len() implies {
        let tile = #[trigger] cols[i]@[k];
        &&& -max_x < tile.x < max_x
        &&& tile.kind == TileKind::EastWall ==> tile.x == max_x - t / 2
        &&& tile.kind == TileKind::WestWall ==> tile.x == -max_x + t / 2
        &&& tile.kind == TileKind::NorthWall ==> tile.y == max_y - t / 2 && tile.x == -max_x + t / 2 + t * i
        &&& tile.kind == TileKind::SouthWall ==> tile.y == -max_y + t / 2 && tile.x == -max_x + t / 2 + t * i
        &&& tile.kind == TileKind::Floor ==> tile.x == -max_x + t / 2 + t * i
    } by {
        let col = cols[i]@;
        assert(column_tiles(col, i, max_x, max_y, rows));
        // the columns run while their centre is left of max_x
        assert(t * i + t / 2 < 2 * max_x) by {
            assert(i < tile_steps(2 * max_x));
        }
        if k >= 2 {
            let j = (k - 2) / 3;
            let m = (k - 2) % 3;
            assert(k == 2 + 3 * j + m && 0 <= m < 3);
            assert(0 <= j < rows);
            let y = -max_y + t / 2 + t * j;
            assert(is_tile(col[2 + 3 * j], TileKind::EastWall, max_x - t / 2, y));
            assert(is_tile(col[3 + 3 * j], TileKind::WestWall, -max_x + t / 2, y));
            assert(is_tile(col[4 + 3 * j], TileKind::Floor, -max_x + t / 2 + t * i, y));
        }
    }
}

/// How many tiles a room whose half size in pixels is `max_x` x `max_y` has:
/// its columns' centres `-max_x + T / 2 + T * i` are all left of `max_x` and
/// the next one would not be; its rows' centres `-max_y + T / 2 + T * j` are
/// all below `max_y + T` and the next one would not be; each column holds a
/// north and a south wall tile and an east wall, a west wall and a floor tile
/// per row.
pub proof fn lemma_tile_counts(cols: Seq<Vec<TileSpawn>>, max_x: int, max_y: int)
    requires
        tiles_laid_out(cols, max_x, max_y),
    ensures
        ({
            let t = TILE_SIZE as int;
            let c = cols.len() as int;
            &&& c > 0 ==> -max_x + t / 2 + t * (c - 1) < max_x
            &&& -max_x + t / 2 + t * c >= max_x
            &&& forall|i: int| 0 <= i < c ==> {
                let rows = ((#[trigger] cols[i]@).len() - 2) / 3;
                &&& cols[i]@.len() == 2 + 3 * rows
                &&& rows > 0 ==> -max_y + t / 2 + t * (rows - 1) < max_y + t
                &&& -max_y + t / 2 + t * rows >= max_y + t
            }
        }),
{
}

/// Where the doors of a room whose half size in pixels is `max_x` x `max_y`
/// lie: the right door on the column `max_x - T / 2` and the left door on
/// `-max_x + T / 2`, both on the row `T / 2`; the top door on the row
/// `max_y - T / 2` and the bottom door on `-max_y + T / 2`, both on the column
/// `T / 2`.
pub proof fn lemma_door_positions(doors: Seq<DoorSpawn>, max_x: int, max_y: int, next: i32)
    requires
        doors_laid_out(doors, max_x, max_y, next),
    ensures
        ({
            let t = TILE_SIZE as int;
            &&& doors[0].door.door_type == DoorType::Right && doors[0].x == max_x - t / 2 && doors[0].y == t / 2
            &&& doors[1].door.door_type == DoorType::Left && doors[1].x == -max_x + t / 2 && doors[1].y == t / 2
            &&& doors[2].door.door_type == DoorType::Top && doors[2].x == t / 2 && doors[2].y == max_y - t / 2
            &&& doors[3].door.door_type == DoorType::Bottom && doors[3].x == t / 2 && doors[3].y == -max_y + t / 2
        }),
{
}

/// The right door of a room sits on its east wall and the left door on its
/// west wall: their columns are those of the room's east and west wall tiles.
pub proof fn lemma_side_doors_on_walls(cols: Seq<Vec<TileSpawn>>, doors: Seq<DoorSpawn>, max_x: int, max_y: int, next: i32)
    requires
        tiles_laid_out(cols, max_x, max_y),
        doors_laid_out(doors, max_x, max_y, next),
    ensures
        forall|i: int, k: int| 0 <= i < cols.len() && 0 <= k < cols[i]@.len() ==> {
            let tile = #[trigger] cols[i]@[k];
            &&& tile.kind == TileKind::EastWall ==> tile.x == doors[0].x
            &&& tile.kind == TileKind::WestWall ==> tile.x == doors[1].x
        },
{
    lemma_tile_positions(cols, max_x, max_y);
    lemma_door_positions(doors, max_x, max_y, next);
}

/// Walking through a door puts the player inside the new room, on the side
/// opposite to the door taken: with `(mx, my)` the current room's half size in
/// half pixels afterwards, `|2 x| < mx` and `|2 y| < my`; through the right
/// door the player lands left of the centre, through the left door right of
/// it, through the top door below it and through the bottom door above it; and
/// the player's z is the current z index afterwards.
pub proof fn lemma_player_lands_inside(
    a: RoomManager,
    mid: RoomManager,
    b: RoomManager,
    door: DoorType,
    w: usize,
    h: usize,
    bnd: RoomBoundaries,
    r: Transition,
)
    requires
        a.grids@.len() == a.max_sizes@.len(),
        40 <= w <= 80,
        40 <= h <= 80,
        boundaries_made(a, mid, w, h, bnd),
        transition_done(mid, b, door, bnd, r),
    ensures
        b.current_room < b.max_sizes@.len(),
        ({
            let (mx, my) = b.max_sizes@[b.current_room as int];
            &&& -mx < 2 * r.spawn_x < mx
            &&& -my < 2 * r.spawn_y < my
            &&& door == DoorType::Right ==> r.spawn_x < 0
            &&& door == DoorType::Left ==> r.spawn_x > 0
            &&& door == DoorType::Top ==> r.spawn_y < 0
            &&& door == DoorType::Bottom ==> r.spawn_y > 0
            &&& r.spawn_z == b.current_z_index
        }),
{
    assert((bnd.room_width / TILE_SIZE) as usize == w);
    assert((bnd.room_height / TILE_SIZE) as usize == h);
}

} // verus!
