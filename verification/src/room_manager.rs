use vstd::prelude::*;

use crate::rng::random_in_range;
use crate::room_array::RoomArray;
use crate::room_map::{cell_is, lemma_fill_rect_cells, lemma_room_box_unique, fill_rect, is_room_box, grid_fits_usize, room_present, lemma_bounds_of_placed_room, lemma_room_box_exists, lemma_room_bounds_same_cells, fill_rect_in, find_bounds_in, map_view, rect_fits, room_bounds};

verus! {

/// Number of columns and of rows of the room map.
pub const MAP_SIZE: usize = 400;

/// A collision grid as nested sequences: `grid_view(g)[x][y]`.
pub open spec fn grid_view(g: Seq<Vec<u32>>) -> Seq<Seq<u32>> {
    Seq::new(g.len(), |x: int| g[x]@)
}

/// A grid of `width` columns of `height` cells, all `v`.
pub open spec fn uniform_grid<T>(width: nat, height: nat, v: T) -> Seq<Seq<T>> {
    Seq::new(width, |x: int| Seq::new(height, |y: int| v))
}

/// The column in the middle of the columns `l` and `r`, rounded down.
pub open spec fn mid(l: int, r: int) -> int {
    (l + r) / 2
}

/// Where a room of `w` x `h` tiles is placed when it is entered through the top
/// door of a room whose bounding box is `b`: centred on the old room's middle
/// column, with its last row right above the old room's first row.
pub open spec fn top_door_origin(b: (usize, usize, usize, usize), w: usize, h: usize) -> (int, int) {
    (mid(b.0 as int, b.1 as int) - w / 2, b.2 - h)
}

/// Where a room of `w` x `h` tiles is placed when it is entered through the
/// bottom door of a room whose bounding box is `b`: centred on the old room's
/// middle column, with its first row right below the old room's last row.
pub open spec fn bottom_door_origin(b: (usize, usize, usize, usize), w: usize, h: usize) -> (int, int) {
    (mid(b.0 as int, b.1 as int) - w / 2, b.3 + 1)
}

/// A room can be placed with its top-left cell at `o`: no coordinate is
/// negative and every cell of the room exists in the map.
pub open spec fn placement_fits(g: Seq<Seq<i32>>, o: (int, int), w: usize, h: usize) -> bool {
    0 <= o.0 && 0 <= o.1 && rect_fits(g, o.0, o.1, w as int, h as int)
}

/// `b` is `a` after a room of `room_width` x `room_height` pixels with
/// collision grid `grid` was added: the grid is appended and becomes the
/// current room, and its size and half its size (in half pixels, so the same
/// numbers as its size in pixels) are recorded. (The map, the room storage and
/// the z indices are not covered.)
pub open spec fn room_added_with_grid(a: RoomManager, b: RoomManager, room_width: u32, room_height: u32, grid: Seq<Seq<u32>>) -> bool {
    &&& b.grids@.len() == a.grids@.len() + 1
    &&& b.grids@.subrange(0, a.grids@.len() as int) == a.grids@
    &&& grid_view(b.grids@.last()@) == grid
    &&& b.room_sizes@ == a.room_sizes@.push((room_width, room_height))
    &&& b.max_sizes@ == a.max_sizes@.push((room_width, room_height))
    &&& b.current_room == a.grids@.len()
}

/// `b` is `a` after a room of `width` x `height` tiles and `room_width` x
/// `room_height` pixels was added with an all-zero collision grid.
pub open spec fn room_added(a: RoomManager, b: RoomManager, width: usize, height: usize, room_width: u32, room_height: u32) -> bool {
    room_added_with_grid(a, b, room_width, room_height, uniform_grid(width as nat, height as nat, 0u32))
}

/// The collision grid of the current room.
pub open spec fn current_grid_view(rm: RoomManager) -> Seq<Seq<u32>> {
    grid_view(rm.grids@[rm.current_room as int]@)
}

/// The grid with cell `(x, y)` set to `v` when that cell exists; unchanged
/// otherwise.
pub open spec fn set_cell(g: Seq<Seq<u32>>, x: int, y: int, v: u32) -> Seq<Seq<u32>> {
    if 0 <= x < g.len() && 0 <= y < g[x].len() {
        g.update(x, g[x].update(y, v))
    } else {
        g
    }
}

/// Setting a cell changes that cell, when it exists, to `v`, and nothing else:
/// the grid keeps its shape and every other cell its value.
pub proof fn lemma_set_cell_cells(g: Seq<Seq<u32>>, x: int, y: int, v: u32)
    ensures
        set_cell(g, x, y, v).len() == g.len(),
        forall|i: int| 0 <= i < g.len() ==> (#[trigger] set_cell(g, x, y, v)[i]).len() == g[i].len(),
        forall|i: int, j: int| 0 <= i < g.len() && 0 <= j < g[i].len() ==>
            #[trigger] set_cell(g, x, y, v)[i][j] == if i == x && j == y { v } else { g[i][j] },
{
}

/// `b` is `a` with the current room's collision grid replaced by `g`, and
/// nothing else changed.
pub open spec fn current_grid_became(a: RoomManager, b: RoomManager, g: Seq<Seq<u32>>) -> bool {
    &&& a.current_room < a.grids@.len()
    &&& b.grids@.len() == a.grids@.len()
    &&& forall|k: int| 0 <= k < a.grids@.len() && k != a.current_room ==> #[trigger] b.grids@[k] == a.grids@[k]
    &&& grid_view(b.grids@[a.current_room as int]@) == g
    &&& b.room_map@ == a.room_map@
    &&& b.current_room == a.current_room
    &&& b.room_sizes@ == a.room_sizes@
    &&& b.room_array.rooms@ == a.room_array.rooms@
    &&& b.max_sizes@ == a.max_sizes@
    &&& b.current_z_index == a.current_z_index
    &&& b.global_z_index == a.global_z_index
}

/// Two changes of the current room's grid in a row are one change.
pub proof fn lemma_current_grid_chain(a: RoomManager, b: RoomManager, c: RoomManager, g1: Seq<Seq<u32>>, g2: Seq<Seq<u32>>)
    requires
        current_grid_became(a, b, g1),
        current_grid_became(b, c, g2),
    ensures
        current_grid_became(a, c, g2),
{
    assert forall|k: int| 0 <= k < a.grids@.len() && k != a.current_room implies #[trigger] c.grids@[k] == a.grids@[k] by {
        assert(c.grids@[k] == b.grids@[k]);
    }
}

/// The map after a room of `w` x `h` tiles with z index `nz` is placed above
/// the top door of the room with z index `z`; unchanged when that room is not
/// on the map.
pub open spec fn top_door_map(g: Seq<Seq<i32>>, z: i32, nz: i32, w: usize, h: usize) -> Seq<Seq<i32>> {
    match room_bounds(g, z) {
        Some(b) => {
            let o = top_door_origin(b, w, h);
            fill_rect(g, o.0, o.1, w as int, h as int, nz)
        },
        None => g,
    }
}

/// The map after a room of `w` x `h` tiles with z index `nz` is placed below
/// the bottom door of the room with z index `z`; unchanged when that room is
/// not on the map.
pub open spec fn bottom_door_map(g: Seq<Seq<i32>>, z: i32, nz: i32, w: usize, h: usize) -> Seq<Seq<i32>> {
    match room_bounds(g, z) {
        Some(b) => {
            let o = bottom_door_origin(b, w, h);
            fill_rect(g, o.0, o.1, w as int, h as int, nz)
        },
        None => g,
    }
}

/// The room above the top door of the room with z index `z` fits on the map.
pub open spec fn top_door_fits(g: Seq<Seq<i32>>, z: i32, w: usize, h: usize) -> bool {
    room_bounds(g, z) matches Some(b) ==> placement_fits(g, top_door_origin(b, w, h), w, h)
}

/// The room below the bottom door of the room with z index `z` fits on the map.
pub open spec fn bottom_door_fits(g: Seq<Seq<i32>>, z: i32, w: usize, h: usize) -> bool {
    room_bounds(g, z) matches Some(b) ==> placement_fits(g, bottom_door_origin(b, w, h), w, h)
}

/// One move to the next room: the global z index drops by 2 and the current
/// z index follows it.
pub open spec fn z_advanced(a: RoomManager, b: RoomManager) -> bool {
    &&& b.global_z_index == a.global_z_index - 2
    &&& b.current_z_index == b.global_z_index
}

/// Places the rooms of the level on a map, keeps a collision grid per
/// generated room, and tracks the z indices of the rooms.
///
/// Z indices are whole numbers (the start room has -2, each later room 2 less
/// than the one before); pixel sizes are whole numbers of pixels.
pub struct RoomManager {
    /// `room_map[x][y]` holds the z index of the room covering that cell.
    pub room_map: Vec<Vec<i32>>,
    /// One collision grid per generated room.
    pub grids: Vec<Vec<Vec<u32>>>,
    pub current_room: usize,
    /// Width and height in pixels of each generated room.
    pub room_sizes: Vec<(u32, u32)>,
    pub room_array: RoomArray,
    /// Half the width and half the height of each generated room, counted in
    /// half pixels so that odd pixel sizes halve exactly.
    pub max_sizes: Vec<(u32, u32)>,
    /// z index of the room that the player is in.
    pub current_z_index: i32,
    /// z index of the room that was generated last.
    pub global_z_index: i32,
}

impl RoomManager {
    /// The room map as a grid of z indices.
    pub open spec fn map(&self) -> Seq<Seq<i32>> {
        map_view(self.room_map@)
    }

    /// Every room has a grid, a size and a half size, and the current room is
    /// one of them (when there is any).
    pub open spec fn wf(&self) -> bool {
        &&& self.grids@.len() == self.room_sizes@.len()
        &&& self.grids@.len() == self.max_sizes@.len()
        &&& self.grids@.len() > 0 ==> self.current_room < self.grids@.len()
    }

    /// Everything but the room map is the same in `self` and `other`.
    pub open spec fn same_but_map(&self, other: &Self) -> bool {
        &&& self.grids@ == other.grids@
        &&& self.current_room == other.current_room
        &&& self.room_sizes@ == other.room_sizes@
        &&& self.room_array.rooms@ == other.room_array.rooms@
        &&& self.max_sizes@ == other.max_sizes@
        &&& self.current_z_index == other.current_z_index
        &&& self.global_z_index == other.global_z_index
    }

    /// A manager with a 400 x 400 map whose cells all hold 1, no rooms, and
    /// both z indices at -2.
    pub fn new() -> (r: Self)
        ensures
            r.map() == uniform_grid(MAP_SIZE as nat, MAP_SIZE as nat, 1i32),
            r.wf(),
            r.grids@.len() == 0,
            r.current_room == 0,
            r.room_sizes@.len() == 0,
            r.room_array.rooms@.len() == 0,
            r.max_sizes@.len() == 0,
            r.current_z_index == -2,
            r.global_z_index == -2,
    {
        let room_map: Vec<Vec<i32>> = vec![vec![1i32; MAP_SIZE]; MAP_SIZE];
        let r = RoomManager {
            room_map,
            grids: Vec::new(),
            current_room: 0,
            room_array: RoomArray::new(),
            room_sizes: Vec::new(),
            max_sizes: Vec::new(),
            current_z_index: -2,
            global_z_index: -2,
        };
        assert(r.map() =~~= uniform_grid(MAP_SIZE as nat, MAP_SIZE as nat, 1i32));
        r
    }

    /// The z index of the room that the player is in.
    pub fn get_current_z_index(&self) -> (r: i32)
        ensures
            r == self.current_z_index,
    {
        self.current_z_index
    }

    /// The z index of the room that was generated last.
    pub fn get_global_z_index(&self) -> (r: i32)
        ensures
            r == self.global_z_index,
    {
        self.global_z_index
    }

    /// The z index of the room that the player is in.
    pub fn current_room_z_index(&self) -> (r: i32)
        ensures
            r == self.current_z_index,
    {
        self.current_z_index
    }

    /// Adds the collision grid of a new room of `width` x `height` tiles, all
    /// cells 0, records its size in pixels and half that size (in half
    /// pixels), and makes it the current room.
    pub fn add_room(&mut self, width: usize, height: usize, room_width: u32, room_height: u32)
        ensures
            room_added(*old(self), *final(self), width, height, room_width, room_height),
            final(self).room_map@ == old(self).room_map@,
            final(self).room_array.rooms@ == old(self).room_array.rooms@,
            final(self).current_z_index == old(self).current_z_index,
            final(self).global_z_index == old(self).global_z_index,
    {
        let new_grid: Vec<Vec<u32>> = vec![vec![0u32; height]; width];
        assert(grid_view(new_grid@) =~~= uniform_grid(width as nat, height as nat, 0u32));
        let ghost old_grids = self.grids@;
        self.grids.push(new_grid);
        assert(self.grids@.subrange(0, old_grids.len() as int) =~= old_grids);
        self.room_sizes.push((room_width, room_height));

        // half the size, counted in half pixels
        let max_x_halves = room_width;
        let max_y_halves = room_height;
        self.max_sizes.push((max_x_halves, max_y_halves));

        self.current_room = self.grids.len() - 1;
    }

    /// Writes `z_index` into every cell of the room of `width` x `height`
    /// tiles whose top-left cell is `(start_x, start_y)`.
    pub fn add_room_to_map_at(&mut self, z_index: i32, start_x: usize, start_y: usize, width: usize, height: usize)
        requires
            rect_fits(old(self).map(), start_x as int, start_y as int, width as int, height as int),
        ensures
            final(self).map() == fill_rect(old(self).map(), start_x as int, start_y as int, width as int, height as int, z_index),
            final(self).same_but_map(old(self)),
    {
        fill_rect_in(&mut self.room_map, z_index, start_x, start_y, width, height);
    }

    /// Places the start room of `width` x `height` tiles, with z index
    /// `z_index`, at a random position of the map.
    pub fn add_start_room_to_map(&mut self, z_index: i32, width: usize, height: usize)
        requires
            width < MAP_SIZE,
            height < MAP_SIZE,
            width > 0 && height > 0 ==> rect_fits(old(self).map(), 0, 0, MAP_SIZE - 1, MAP_SIZE - 1),
        ensures
            exists|sx: int, sy: int|
                0 <= sx < MAP_SIZE - width && 0 <= sy < MAP_SIZE - height
                    && final(self).map() == fill_rect(old(self).map(), sx, sy, width as int, height as int, z_index),
            final(self).same_but_map(old(self)),
    {
        let upper_width = MAP_SIZE - width;
        let upper_height = MAP_SIZE - height;

        let start_x = random_in_range(0, upper_width - 1);
        let start_y = random_in_range(0, upper_height - 1);

        proof {
            let g = self.map();
            if width > 0 && height > 0 {
                assert forall|x: int| start_x <= x < start_x + width implies start_y + height <= #[trigger] g[x].len() by {
                    assert(0 <= x < MAP_SIZE - 1);
                }
            }
        }
        self.add_room_to_map_at(z_index, start_x, start_y, width, height);
    }

    /// The bounding box `(left_x, right_x, top_y, bottom_y)` of the cells that
    /// hold `z_index`; `None` when no cell holds it, or when the box's
    /// greatest column or greatest row is 0.
    pub fn find_room_bounds(&self, z_index: i32) -> (res: Option<(usize, usize, usize, usize)>)
        ensures
            res == room_bounds(self.map(), z_index),
            res matches Some(b) ==> is_room_box(self.map(), z_index, b.0 as int, b.1 as int, b.2 as int, b.3 as int),
    {
        find_bounds_in(&self.room_map, z_index)
    }

    /// Places a room of `new_width` x `new_height` tiles with z index
    /// `new_z_index` above the top door of the room with z index `z_index`.
    /// Returns whether that room was found on the map; when it was not, the
    /// map is left as it was.
    pub fn add_room_to_map_from_top_door(
        &mut self,
        z_index: i32,
        new_z_index: i32,
        new_width: usize,
        new_height: usize,
    ) -> (placed: bool)
        requires
            top_door_fits(old(self).map(), z_index, new_width, new_height),
        ensures
            placed == (room_bounds(old(self).map(), z_index) is Some),
            final(self).map() == top_door_map(old(self).map(), z_index, new_z_index, new_width, new_height),
            final(self).same_but_map(old(self)),
    {
        if let Some((left_x, right_x, top_y, _bottom_y)) = self.find_room_bounds(z_index) {
            let old_x = middle(left_x, right_x);
            let old_y = top_y;

            let start_x = old_x - (new_width / 2);
            let start_y = old_y - new_height;

            self.add_room_to_map_at(new_z_index, start_x, start_y, new_width, new_height);
            true
        } else {
            false
        }
    }

    /// Places a room of `new_width` x `new_height` tiles with z index
    /// `new_z_index` below the bottom door of the room with z index `z_index`.
    /// Returns whether that room was found on the map; when it was not, the
    /// map is left as it was.
    pub fn add_room_to_map_from_bottom_door(
        &mut self,
        z_index: i32,
        new_z_index: i32,
        new_width: usize,
        new_height: usize,
    ) -> (placed: bool)
        requires
            bottom_door_fits(old(self).map(), z_index, new_width, new_height),
        ensures
            placed == (room_bounds(old(self).map(), z_index) is Some),
            final(self).map() == bottom_door_map(old(self).map(), z_index, new_z_index, new_width, new_height),
            final(self).same_but_map(old(self)),
    {
        if let Some((left_x, right_x, _top_y, bottom_y)) = self.find_room_bounds(z_index) {
            proof {
                let g = self.map();
                let wb = choose|x: int| cell_is(g, z_index, x, bottom_y as int);
                assert(cell_is(g, z_index, wb, bottom_y as int));
                let row = self.room_map@[wb];
                assert(row.len() == row@.len());
            }
            let old_x = middle(left_x, right_x);
            let old_y = bottom_y + 1;

            let start_x = old_x - (new_width / 2);
            let start_y = old_y;

            self.add_room_to_map_at(new_z_index, start_x, start_y, new_width, new_height);
            true
        } else {
            false
        }
    }

    /// Moves the generation on to a new room: the global z index drops by 2,
    /// and the current z index follows it. Returns the new z index.
    pub fn next_room_z_index(&mut self) -> (r: i32)
        requires
            old(self).global_z_index >= i32::MIN + 2,
        ensures
            z_advanced(*old(self), *final(self)),
            r == final(self).global_z_index,
            final(self).room_map@ == old(self).room_map@,
            final(self).grids@ == old(self).grids@,
            final(self).current_room == old(self).current_room,
            final(self).room_sizes@ == old(self).room_sizes@,
            final(self).room_array.rooms@ == old(self).room_array.rooms@,
            final(self).max_sizes@ == old(self).max_sizes@,
    {
        self.global_z_index = self.global_z_index - 2;
        self.current_z_index = self.get_global_z_index();
        self.global_z_index
    }

    /// The collision grid of the current room, to be changed in place.
    pub fn current_grid(&mut self) -> (g: &mut Vec<Vec<u32>>)
        requires
            old(self).current_room < old(self).grids@.len(),
        ensures
            *g == old(self).grids@[old(self).current_room as int],
            final(self).grids@ == old(self).grids@.update(old(self).current_room as int, *final(g)),
            final(self).room_map@ == old(self).room_map@,
            final(self).current_room == old(self).current_room,
            final(self).room_sizes@ == old(self).room_sizes@,
            final(self).room_array.rooms@ == old(self).room_array.rooms@,
            final(self).max_sizes@ == old(self).max_sizes@,
            final(self).current_z_index == old(self).current_z_index,
            final(self).global_z_index == old(self).global_z_index,
    {
        &mut self.grids[self.current_room]
    }

    /// The size in pixels of the current room.
    pub fn current_room_size(&self) -> (r: (u32, u32))
        requires
            self.current_room < self.room_sizes@.len(),
        ensures
            r == self.room_sizes@[self.current_room as int],
    {
        self.room_sizes[self.current_room]
    }

    /// Half the size of the current room, counted in half pixels.
    pub fn current_room_max(&self) -> (r: (u32, u32))
        requires
            self.current_room < self.max_sizes@.len(),
        ensures
            r == self.max_sizes@[self.current_room as int],
    {
        self.max_sizes[self.current_room]
    }
}

/// A room added with grid `g` whose grid is then changed to `g2` is a room
/// added with grid `g2`.
pub proof fn lemma_added_then_marked(a: RoomManager, b: RoomManager, c: RoomManager, room_width: u32, room_height: u32, g: Seq<Seq<u32>>, g2: Seq<Seq<u32>>)
    requires
        room_added_with_grid(a, b, room_width, room_height, g),
        current_grid_became(b, c, g2),
    ensures
        room_added_with_grid(a, c, room_width, room_height, g2),
        c.room_map@ == b.room_map@,
        c.room_array.rooms@ == b.room_array.rooms@,
        c.current_z_index == b.current_z_index,
        c.global_z_index == b.global_z_index,
{
    assert(c.grids@.subrange(0, a.grids@.len() as int) =~= a.grids@) by {
        assert forall|k: int| 0 <= k < a.grids@.len() implies c.grids@[k] == a.grids@[k] by {
            assert(b.grids@.subrange(0, a.grids@.len() as int)[k] == b.grids@[k]);
        }
    }
}

/// Placing a room on the map keeps the grids, sizes, room storage and z
/// indices.
pub proof fn lemma_placed_grid_kept(a: RoomManager, b: RoomManager)
    requires
        b.same_but_map(&a),
    ensures
        b.grids@ == a.grids@,
        b.current_room == a.current_room,
        b.room_sizes@ == a.room_sizes@,
        b.max_sizes@ == a.max_sizes@,
{
}

/// Marks collision cell `(x, y)` of the current room with `val`; a cell
/// outside the current room's grid is left alone.
pub fn set_collide(room_manager: &mut RoomManager, x: usize, y: usize, val: u32)
    requires
        old(room_manager).current_room < old(room_manager).grids@.len(),
    ensures
        current_grid_became(*old(room_manager), *final(room_manager), set_cell(current_grid_view(*old(room_manager)), x as int, y as int, val)),
{
    let cr = room_manager.current_room;
    if x < room_manager.grids[cr].len() && y < room_manager.grids[cr][x].len() {
        let ghost g0 = current_grid_view(*room_manager);
        room_manager.grids[cr][x][y] = val;
        assert(grid_view(room_manager.grids@[cr as int]@) =~~= set_cell(g0, x as int, y as int, val));
    } else {
        assert(grid_view(room_manager.grids@[cr as int]@) =~~= set_cell(current_grid_view(*old(room_manager)), x as int, y as int, val));
    }
}

/// The map of a manager is a grid made of vectors: its indices fit in `usize`.
pub proof fn lemma_map_fits_usize(rm: RoomManager)
    ensures
        grid_fits_usize(rm.map()),
{
    assert(rm.room_map.len() == rm.room_map@.len());
    assert forall|x: int| 0 <= x < rm.map().len() implies #[trigger] rm.map()[x].len() <= usize::MAX by {
        assert(rm.room_map@[x].len() == rm.room_map@[x]@.len());
    }
}

/// A room placed through the top door of room `z` (with a z index `nz` not yet
/// on the map) is reported with exactly the bounds it was placed on: centred
/// on `z`'s middle column, its last row right above `z`'s first row; and the
/// bounds reported for `z` do not change.
pub proof fn lemma_top_door_room_adjacent(g: Seq<Seq<i32>>, z: i32, nz: i32, w: usize, h: usize)
    requires
        grid_fits_usize(g),
        room_bounds(g, z) is Some,
        !room_present(g, nz),
        w >= 1,
        h >= 1,
        top_door_fits(g, z, w, h),
        top_door_origin(room_bounds(g, z)->0, w, h).0 + w - 1 > 0,
        top_door_origin(room_bounds(g, z)->0, w, h).1 + h - 1 > 0,
    ensures
        ({
            let b = room_bounds(g, z)->0;
            let o = top_door_origin(b, w, h);
            &&& room_bounds(top_door_map(g, z, nz, w, h), nz) == Some(
                (o.0 as usize, (o.0 + w - 1) as usize, o.1 as usize, (b.2 - 1) as usize),
            )
            &&& room_bounds(top_door_map(g, z, nz, w, h), z) == room_bounds(g, z)
        }),
{
    let b = room_bounds(g, z)->0;
    let o = top_door_origin(b, w, h);
    let g2 = top_door_map(g, z, nz, w, h);
    lemma_bounds_of_placed_room(g, nz, o.0 as usize, o.1 as usize, w, h);
    lemma_room_box_exists(g, z);
    assert(is_room_box(g, z, b.0 as int, b.1 as int, b.2 as int, b.3 as int));
    assert forall|x: int, y: int| cell_is(g, z, x, y) == cell_is(g2, z, x, y) by {
        if cell_is(g, z, x, y) {
            assert(y >= b.2);
        }
    }
    lemma_room_bounds_same_cells(g, g2, z);
}

/// A room placed through the bottom door of room `z` (with a z index `nz` not
/// yet on the map) is reported with exactly the bounds it was placed on:
/// centred on `z`'s middle column, its first row right below `z`'s last row;
/// and the bounds reported for `z` do not change.
pub proof fn lemma_bottom_door_room_adjacent(g: Seq<Seq<i32>>, z: i32, nz: i32, w: usize, h: usize)
    requires
        grid_fits_usize(g),
        room_bounds(g, z) is Some,
        !room_present(g, nz),
        w >= 1,
        h >= 1,
        bottom_door_fits(g, z, w, h),
        bottom_door_origin(room_bounds(g, z)->0, w, h).0 + w - 1 > 0,
    ensures
        ({
            let b = room_bounds(g, z)->0;
            let o = bottom_door_origin(b, w, h);
            &&& room_bounds(bottom_door_map(g, z, nz, w, h), nz) == Some(
                (o.0 as usize, (o.0 + w - 1) as usize, (b.3 + 1) as usize, (b.3 + h) as usize),
            )
            &&& room_bounds(bottom_door_map(g, z, nz, w, h), z) == room_bounds(g, z)
        }),
{
    let b = room_bounds(g, z)->0;
    let o = bottom_door_origin(b, w, h);
    let g2 = bottom_door_map(g, z, nz, w, h);
    assert(o.1 + h <= g[o.0].len());
    lemma_bounds_of_placed_room(g, nz, o.0 as usize, o.1 as usize, w, h);
    lemma_room_box_exists(g, z);
    assert(is_room_box(g, z, b.0 as int, b.1 as int, b.2 as int, b.3 as int));
    assert forall|x: int, y: int| cell_is(g, z, x, y) == cell_is(g2, z, x, y) by {
        if cell_is(g, z, x, y) {
            assert(y <= b.3);
        }
    }
    lemma_room_bounds_same_cells(g, g2, z);
}

/// The tuple reported for `z` is its bounding box whenever the box's greatest
/// column and greatest row are not 0.
proof fn lemma_room_bounds_is_box(g: Seq<Seq<i32>>, z: i32, l: int, r: int, t: int, b: int)
    requires
        grid_fits_usize(g),
        is_room_box(g, z, l, r, t, b),
    ensures
        r > 0 && b > 0 ==> room_bounds(g, z) == Some((l as usize, r as usize, t as usize, b as usize)),
        !(r > 0 && b > 0) ==> room_bounds(g, z) is None,
{
    let yl = choose|y: int| cell_is(g, z, l, y);
    assert(cell_is(g, z, l, yl));
    let yr = choose|y: int| cell_is(g, z, r, y);
    assert(cell_is(g, z, r, yr));
    let xt = choose|x: int| cell_is(g, z, x, t);
    assert(cell_is(g, z, xt, t));
    let xb = choose|x: int| cell_is(g, z, x, b);
    assert(cell_is(g, z, xb, b));
    assert(g[r].len() <= usize::MAX);
    assert(g[xb].len() <= usize::MAX);
    if r > 0 && b > 0 {
        let q = (l as usize, r as usize, t as usize, b as usize);
        assert(is_room_box(g, z, q.0 as int, q.1 as int, q.2 as int, q.3 as int));
        let c = choose|q: (usize, usize, usize, usize)|
            is_room_box(g, z, q.0 as int, q.1 as int, q.2 as int, q.3 as int);
        lemma_room_box_unique(
            g,
            z,
            (q.0 as int, q.1 as int, q.2 as int, q.3 as int),
            (c.0 as int, c.1 as int, c.2 as int, c.3 as int),
        );
    } else {
        if r == 0 {
            assert forall|x: int, y: int| cell_is(g, z, x, y) implies x <= 0 by {}
        } else {
            assert forall|x: int, y: int| cell_is(g, z, x, y) implies y <= 0 by {}
        }
    }
}

/// The room placed through the top door of the room with z index `z`, whose
/// cells span the columns `l ..= r` and the rows `t ..= b`, covers exactly the
/// columns from `(l + r) / 2 - w / 2` (centred on the old room's middle
/// column) for `w` columns, and the `h` rows just above row `t`; every other
/// cell keeps its value. When the old room is not reported (its last column
/// or last row is 0) the map is unchanged.
pub proof fn lemma_top_door_cells(g: Seq<Seq<i32>>, z: i32, nz: i32, w: usize, h: usize, l: int, r: int, t: int, b: int)
    requires
        grid_fits_usize(g),
        is_room_box(g, z, l, r, t, b),
    ensures
        top_door_map(g, z, nz, w, h).len() == g.len(),
        r > 0 && b > 0 ==> forall|x: int, y: int| 0 <= x < g.len() && 0 <= y < g[x].len() ==>
            #[trigger] top_door_map(g, z, nz, w, h)[x][y] == if (l + r) / 2 - w / 2 <= x < (l + r) / 2 - w / 2 + w
                && t - h <= y < t {
                nz
            } else {
                g[x][y]
            },
        !(r > 0 && b > 0) ==> top_door_map(g, z, nz, w, h) == g,
{
    lemma_room_bounds_is_box(g, z, l, r, t, b);
    if r > 0 && b > 0 {
        let o = top_door_origin((l as usize, r as usize, t as usize, b as usize), w, h);
        assert(o.0 == (l + r) / 2 - w / 2 && o.1 == t - h);
        lemma_fill_rect_cells(g, o.0, o.1, w as int, h as int, nz);
    }
}

/// The room placed through the bottom door of the room with z index `z`,
/// whose cells span the columns `l ..= r` and the rows `t ..= b`, covers
/// exactly the columns from `(l + r) / 2 - w / 2` (centred on the old room's
/// middle column) for `w` columns, and the `h` rows just below row `b`; every
/// other cell keeps its value. When the old room is not reported (its last
/// column or last row is 0) the map is unchanged.
pub proof fn lemma_bottom_door_cells(g: Seq<Seq<i32>>, z: i32, nz: i32, w: usize, h: usize, l: int, r: int, t: int, b: int)
    requires
        grid_fits_usize(g),
        is_room_box(g, z, l, r, t, b),
    ensures
        bottom_door_map(g, z, nz, w, h).len() == g.len(),
        r > 0 && b > 0 ==> forall|x: int, y: int| 0 <= x < g.len() && 0 <= y < g[x].len() ==>
            #[trigger] bottom_door_map(g, z, nz, w, h)[x][y] == if (l + r) / 2 - w / 2 <= x < (l + r) / 2 - w / 2 + w
                && b < y <= b + h {
                nz
            } else {
                g[x][y]
            },
        !(r > 0 && b > 0) ==> bottom_door_map(g, z, nz, w, h) == g,
{
    lemma_room_bounds_is_box(g, z, l, r, t, b);
    if r > 0 && b > 0 {
        let o = bottom_door_origin((l as usize, r as usize, t as usize, b as usize), w, h);
        assert(o.0 == (l + r) / 2 - w / 2 && o.1 == b + 1);
        lemma_fill_rect_cells(g, o.0, o.1, w as int, h as int, nz);
    }
}

/// Adding a room keeps every room's grid, size and half size together, and
/// the added room becomes the current one: its size is what
/// `current_room_size` gives and half of it, in half pixels, what
/// `current_room_max` gives.
pub proof fn lemma_add_room_current(a: RoomManager, b: RoomManager, width: usize, height: usize, room_width: u32, room_height: u32)
    requires
        a.wf(),
        room_added(a, b, width, height, room_width, room_height),
    ensures
        b.wf(),
        b.current_room < b.room_sizes@.len(),
        b.room_sizes@[b.current_room as int] == (room_width, room_height),
        b.max_sizes@[b.current_room as int] == (room_width, room_height),
        grid_view(b.grids@[b.current_room as int]@) == uniform_grid(width as nat, height as nat, 0u32),
{
}

/// Moving on from room to room never gives a z index twice: after a run of
/// moves from `states[0]`, the `i`-th state's global z index is
/// `states[0]`'s minus `2 * i`.
pub proof fn lemma_z_indices_never_repeat(states: Seq<RoomManager>)
    requires
        states.len() >= 1,
        forall|i: int| 0 <= i < states.len() - 1 ==> #[trigger] z_advanced(states[i], states[i + 1]),
    ensures
        forall|i: int| 0 <= i < states.len() ==> #[trigger] states[i].global_z_index == states[0].global_z_index - 2 * i,
        forall|i: int, j: int| 0 <= i < j < states.len() ==> states[j].global_z_index < states[i].global_z_index,
    decreases states.len(),
{
    if states.len() > 1 {
        let n = states.len() - 1;
        let prefix = states.take(n);
        assert forall|i: int| 0 <= i < prefix.len() - 1 implies #[trigger] z_advanced(prefix[i], prefix[i + 1]) by {
            assert(z_advanced(states[i], states[i + 1]));
        }
        lemma_z_indices_never_repeat(prefix);
        let k = n - 1;
        assert(z_advanced(states[k], states[k + 1]));
        assert forall|i: int| 0 <= i < states.len() implies #[trigger] states[i].global_z_index == states[0].global_z_index - 2 * i by {
            if i < n {
                assert(prefix[i] == states[i]);
            } else {
                assert(prefix[k] == states[k]);
            }
            assert(prefix[0] == states[0]);
        }
    }
}

/// From a fresh manager (global z index -2), the `k`-th move to the next room
/// gives z index `-2 - 2 * k`: -4, -6, ... with none reused; and the move can
/// be made from each of the first 2^30 - 1 states of such a run.
pub proof fn lemma_fresh_z_sequence(states: Seq<RoomManager>)
    requires
        states.len() >= 1,
        states[0].global_z_index == -2,
        forall|i: int| 0 <= i < states.len() - 1 ==> #[trigger] z_advanced(states[i], states[i + 1]),
    ensures
        forall|i: int| 0 <= i < states.len() ==> #[trigger] states[i].global_z_index == -2 - 2 * i,
        forall|i: int| 0 <= i < states.len() && i < 0x3fff_ffff ==> #[trigger] states[i].global_z_index >= i32::MIN + 2,
{
    lemma_z_indices_never_repeat(states);
    assert forall|i: int| 0 <= i < states.len() && i < 0x3fff_ffff implies #[trigger] states[i].global_z_index >= i32::MIN + 2 by {
        assert(states[i].global_z_index == -2 - 2 * i);
    }
}

/// The middle of `l` and `r`, rounded down, computed without overflow.
fn middle(l: usize, r: usize) -> (m: usize)
    ensures
        m == mid(l as int, r as int),
{
    l / 2 + r / 2 + (l % 2 + r % 2) / 2
}

} // verus!
