use cuscuta::room_array::{RoomArray, RoomDimensions};
use cuscuta::room_gen::{
    complete_transition, generate_doors, generate_walls_and_floors, mark_wall_cells, tile_layer_offset, TileKind, DOOR_LAYER_TENTHS, generate_random_room_with_bounds, generate_room_boundaries_sized,
    spawn_start_room, transition_map, translate_coords_to_grid, DoorType,
};
use cuscuta::room_manager::{set_collide, RoomManager};

fn manager_with_room(z: i32, x0: usize, y0: usize, w: usize, h: usize) -> RoomManager {
    let mut rm = RoomManager::new();
    rm.add_room_to_map_at(z, x0, y0, w, h);
    rm
}

#[test]
fn room_array_get_after_add() {
    let mut a = RoomArray::new();
    a.add_room_to_storage(-4, 50, 60);
    assert_eq!(a.get_room_from_storage(-4), Some(&RoomDimensions { width: 50, height: 60 }));
    assert_eq!(a.rooms.len(), 5);
    assert_eq!(a.rooms[0], None);
    assert_eq!(a.get_room_from_storage(-2), None);
    assert_eq!(a.get_room_from_storage(-6), None);
}

#[test]
fn room_array_sign_of_z_is_ignored() {
    let mut a = RoomArray::new();
    a.add_room_to_storage(-6, 41, 42);
    assert_eq!(a.get_room_from_storage(6), Some(&RoomDimensions { width: 41, height: 42 }));
    assert_eq!(RoomArray::z_to_index(-6), 6);
    assert_eq!(RoomArray::z_to_index(i32::MIN), 2147483648usize);
}

#[test]
fn room_array_last_add_wins_and_others_kept() {
    let mut a = RoomArray::new();
    a.add_room_to_storage(-2, 40, 40);
    a.add_room_to_storage(-4, 70, 80);
    a.add_room_to_storage(-2, 45, 55);
    assert_eq!(a.get_room_from_storage(-2), Some(&RoomDimensions { width: 45, height: 55 }));
    assert_eq!(a.get_room_from_storage(-4), Some(&RoomDimensions { width: 70, height: 80 }));
    assert_eq!(a.rooms.len(), 5);
}

#[test]
fn new_manager_map_and_indices() {
    let rm = RoomManager::new();
    assert_eq!(rm.room_map.len(), 400);
    assert!(rm.room_map.iter().all(|row| row.len() == 400 && row.iter().all(|&c| c == 1)));
    assert_eq!(rm.get_current_z_index(), -2);
    assert_eq!(rm.get_global_z_index(), -2);
    assert_eq!(rm.current_room_z_index(), -2);
    assert!(rm.grids.is_empty());
    assert_eq!(rm.find_room_bounds(1), Some((0, 399, 0, 399)));
    assert_eq!(rm.find_room_bounds(-2), None);
}

#[test]
fn bounds_of_placed_room() {
    let rm = manager_with_room(-2, 100, 120, 40, 30);
    assert_eq!(rm.find_room_bounds(-2), Some((100, 139, 120, 149)));
}

#[test]
fn bounds_not_reported_when_last_column_is_zero() {
    let rm = manager_with_room(-2, 0, 5, 1, 10);
    assert_eq!(rm.find_room_bounds(-2), None);
    let rm = manager_with_room(-2, 5, 0, 10, 1);
    assert_eq!(rm.find_room_bounds(-2), None);
}

#[test]
fn top_door_room_is_above() {
    let mut rm = manager_with_room(-2, 100, 100, 10, 10);
    assert!(rm.add_room_to_map_from_top_door(-2, -4, 6, 4));
    assert_eq!(rm.find_room_bounds(-4), Some((101, 106, 96, 99)));
    assert_eq!(rm.find_room_bounds(-2), Some((100, 109, 100, 109)));
}

#[test]
fn bottom_door_room_is_below() {
    let mut rm = manager_with_room(-2, 100, 100, 10, 10);
    assert!(rm.add_room_to_map_from_bottom_door(-2, -4, 6, 4));
    assert_eq!(rm.find_room_bounds(-4), Some((101, 106, 110, 113)));
    assert_eq!(rm.find_room_bounds(-2), Some((100, 109, 100, 109)));
}

#[test]
fn door_placement_without_room_changes_nothing() {
    let mut rm = RoomManager::new();
    assert!(!rm.add_room_to_map_from_top_door(-2, -4, 6, 4));
    assert!(!rm.add_room_to_map_from_bottom_door(-2, -4, 6, 4));
    assert!(rm.room_map.iter().all(|row| row.iter().all(|&c| c == 1)));
}

#[test]
fn start_room_is_placed_somewhere() {
    let mut rm = RoomManager::new();
    rm.add_start_room_to_map(-2, 40, 30);
    let (l, r, t, b) = rm.find_room_bounds(-2).unwrap();
    assert_eq!(r - l, 39);
    assert_eq!(b - t, 29);
    assert!(l < 360 && t < 370);
}

#[test]
fn next_room_z_index_steps_down() {
    let mut rm = RoomManager::new();
    assert_eq!(rm.next_room_z_index(), -4);
    assert_eq!(rm.get_current_z_index(), -4);
    assert_eq!(rm.next_room_z_index(), -6);
    assert_eq!(rm.get_global_z_index(), -6);
    assert_eq!(rm.get_current_z_index(), -6);
}

#[test]
fn add_room_becomes_current() {
    let mut rm = RoomManager::new();
    rm.add_room(3, 2, 96, 64);
    rm.add_room(5, 4, 160, 128);
    assert_eq!(rm.current_room, 1);
    assert_eq!(rm.current_room_size(), (160, 128));
    // half of 160 x 128 pixels, in half pixels
    assert_eq!(rm.current_room_max(), (160, 128));
    rm.add_room(1, 1, 33, 31);
    assert_eq!(rm.current_room_max(), (33, 31));
    assert_eq!(rm.grids[1], vec![vec![0u32; 4]; 5]);
    assert_eq!(rm.grids[0], vec![vec![0u32; 2]; 3]);
}

#[test]
fn current_grid_changes_in_place() {
    let mut rm = RoomManager::new();
    rm.add_room(3, 2, 96, 64);
    rm.current_grid()[1][1] = 7;
    assert_eq!(rm.grids[0][1][1], 7);
    assert_eq!(rm.grids[0][0][0], 0);
}

#[test]
fn doors_of_a_forty_tile_room() {
    let mut rm = RoomManager::new();
    rm.add_room(40, 40, 1280, 1280);
    let doors = generate_doors(&mut rm, 640, 640);
    assert!(rm.grids[0].iter().all(|col| col.iter().all(|&c| c == 0)));
    assert_eq!(doors.len(), 4);
    let right = &doors[0];
    assert_eq!(right.door.door_type, DoorType::Right);
    assert_eq!(right.door.next, Some(-2));
    assert_eq!((right.x, right.y, right.collide_x, right.collide_y), (624, 16, 1264, 656));
    let left = &doors[1];
    assert_eq!(left.door.door_type, DoorType::Left);
    assert_eq!((left.x, left.y, left.collide_x, left.collide_y), (-624, 16, 0, 656));
    let top = &doors[2];
    assert_eq!(top.door.door_type, DoorType::Top);
    assert_eq!((top.x, top.y, top.collide_x, top.collide_y), (16, 624, 656, 1264));
    let bottom = &doors[3];
    assert_eq!(bottom.door.door_type, DoorType::Bottom);
    assert_eq!((bottom.x, bottom.y, bottom.collide_x, bottom.collide_y), (16, -624, 656, 0));
}

#[test]
fn start_room_spawn() {
    let mut rm = RoomManager::new();
    let s = spawn_start_room(&mut rm);
    assert_eq!((s.width, s.height), (40, 40));
    assert_eq!((s.room_width, s.room_height), (1280, 1280));
    assert_eq!((s.max_x, s.max_y), (640, 640));
    assert_eq!(s.z_index, -2);
    let (l, r, t, b) = s.bounds.unwrap();
    assert_eq!((r - l, b - t), (39, 39));
    assert_eq!(rm.find_room_bounds(-2), s.bounds);
    assert_eq!(rm.current_room, 0);
    assert_eq!(rm.current_room_size(), (1280, 1280));
    assert_eq!(s.doors.len(), 4);
    assert!(s.doors.iter().all(|d| d.door.next == Some(-2)));
}

#[test]
fn room_boundaries_of_given_size() {
    let mut rm = RoomManager::new();
    let b = generate_room_boundaries_sized(&mut rm, 50, 60);
    assert_eq!((b.room_width, b.room_height, b.max_x, b.max_y, b.z_index), (1600, 1920, 800, 960, -4));
    assert_eq!(rm.room_array.get_room_from_storage(-4), Some(&RoomDimensions { width: 50, height: 60 }));
    assert_eq!(rm.get_global_z_index(), -2);
    assert_eq!(rm.current_room_size(), (1600, 1920));
}

#[test]
fn generated_room_with_bounds() {
    let mut rm = manager_with_room(-4, 10, 10, 5, 5);
    let plan = generate_random_room_with_bounds(&mut rm, 50, 60);
    assert_eq!(plan.z_index, -4);
    assert_eq!(rm.get_global_z_index(), -4);
    assert_eq!(rm.get_current_z_index(), -4);
    assert_eq!((plan.room_width, plan.room_height, plan.max_x, plan.max_y), (1600, 1920, 800, 960));
    assert_eq!(plan.bounds, Some((10, 14, 10, 14)));
    assert_eq!(plan.tiles, generate_walls_and_floors(800, 960));
    assert_eq!(plan.tiles.len(), 50);
    // the door cells of a room this size lie outside its grid
    assert_eq!(rm.grids[0], vec![vec![0u32; 60]; 50]);
    assert!(plan.doors.iter().all(|d| d.door.next == Some(-4)));
}

#[test]
fn transition_through_right_door() {
    let mut rm = RoomManager::new();
    rm.add_room(40, 40, 1280, 1280);
    let t = transition_map(&mut rm, DoorType::Right);
    let dims = *rm.room_array.get_room_from_storage(-4).unwrap();
    assert!((40..=80).contains(&dims.width) && (40..=80).contains(&dims.height));
    let max_x = (dims.width as i64) * 32 / 2;
    assert_eq!((t.spawn_x, t.spawn_y, t.spawn_z), (-max_x + 64, 16, -2));
    assert_eq!(t.placed, None);
    assert!(t.new_room.is_none());
    assert_eq!(rm.get_global_z_index(), -2);
    assert_eq!(rm.grids.len(), 2);
}

#[test]
fn transition_through_left_door() {
    let mut rm = RoomManager::new();
    rm.add_room(40, 40, 1280, 1280);
    let t = transition_map(&mut rm, DoorType::Left);
    let dims = *rm.room_array.get_room_from_storage(-4).unwrap();
    let max_x = (dims.width as i64) * 32 / 2;
    assert_eq!((t.spawn_x, t.spawn_y, t.spawn_z), (max_x - 64, 16, -2));
}

#[test]
fn transition_through_top_door_places_room_above() {
    let mut rm = manager_with_room(-2, 150, 150, 40, 40);
    rm.add_room(40, 40, 1280, 1280);
    let b = generate_room_boundaries_sized(&mut rm, 50, 60);
    let t = complete_transition(&mut rm, DoorType::Top, b);
    assert_eq!(t.placed, Some(true));
    // middle column of 150..189 is 169; 169 - 25 = 144; rows 150 - 60 .. 149
    let plan = t.new_room.unwrap();
    assert_eq!(plan.bounds, Some((144, 193, 90, 149)));
    assert_eq!(plan.z_index, -4);
    assert_eq!((t.spawn_x, t.spawn_y, t.spawn_z), (16, -960 + 64, -4));
    assert_eq!(rm.find_room_bounds(-2), Some((150, 189, 150, 189)));
    assert_eq!(rm.grids.len(), 3);
}

#[test]
fn transition_through_bottom_door_places_room_below() {
    let mut rm = manager_with_room(-2, 150, 150, 40, 40);
    rm.add_room(40, 40, 1280, 1280);
    let b = generate_room_boundaries_sized(&mut rm, 50, 60);
    let t = complete_transition(&mut rm, DoorType::Bottom, b);
    assert_eq!(t.placed, Some(true));
    let plan = t.new_room.unwrap();
    assert_eq!(plan.bounds, Some((144, 193, 190, 249)));
    assert_eq!((t.spawn_x, t.spawn_y, t.spawn_z), (16, 960 - 64, -4));
}

#[test]
fn random_transition_through_top_door() {
    let mut rm = manager_with_room(-2, 150, 150, 40, 40);
    rm.add_room(40, 40, 1280, 1280);
    let t = transition_map(&mut rm, DoorType::Top);
    assert_eq!(t.placed, Some(true));
    let plan = t.new_room.unwrap();
    let (l, r, top, bottom) = plan.bounds.unwrap();
    assert_eq!(bottom, 149);
    assert!((40..=80).contains(&(r - l + 1)) && (40..=80).contains(&(bottom - top + 1)));
    assert_eq!(rm.get_global_z_index(), -4);
}

#[test]
fn transition_when_current_room_missing_from_map() {
    let mut rm = RoomManager::new();
    rm.add_room(40, 40, 1280, 1280);
    let b = generate_room_boundaries_sized(&mut rm, 40, 40);
    let t = complete_transition(&mut rm, DoorType::Top, b);
    assert_eq!(t.placed, Some(false));
    assert_eq!(t.new_room.unwrap().bounds, None);
}

#[test]
fn corners_of_a_box_on_the_grid() {
    let mut rm = RoomManager::new();
    rm.add_room(4, 3, 128, 96);
    rm.grids[0][0][2] = 1;
    rm.grids[0][3][2] = 2;
    rm.grids[0][0][0] = 3;
    rm.grids[0][3][0] = 4;
    assert_eq!(translate_coords_to_grid(&mut rm, -5, 10, -1, 7), (1, 2, 3, 4));
    rm.grids[0][1][1] = 9;
    assert_eq!(translate_coords_to_grid(&mut rm, 1, 1, 1, 1), (9, 9, 9, 9));
}

#[test]
fn walls_and_floors_of_a_forty_tile_room() {
    let cols = generate_walls_and_floors(640, 640);
    assert_eq!(cols.len(), 40);
    for (i, col) in cols.iter().enumerate() {
        let x = -624 + 32 * i as i64;
        assert_eq!(col.len(), 2 + 3 * 41);
        assert_eq!((col[0].kind, col[0].x, col[0].y), (TileKind::NorthWall, x, 624));
        assert_eq!((col[1].kind, col[1].x, col[1].y), (TileKind::SouthWall, x, -624));
        for j in 0..41 {
            let y = -624 + 32 * j as i64;
            assert_eq!((col[2 + 3 * j].kind, col[2 + 3 * j].x, col[2 + 3 * j].y), (TileKind::EastWall, 624, y));
            assert_eq!((col[3 + 3 * j].kind, col[3 + 3 * j].x, col[3 + 3 * j].y), (TileKind::WestWall, -624, y));
            assert_eq!((col[4 + 3 * j].kind, col[4 + 3 * j].x, col[4 + 3 * j].y), (TileKind::Floor, x, y));
        }
    }
    assert_eq!(cols[39][0].x, 624);
    assert_eq!(cols[0][2 + 3 * 40].y, 656);
}

#[test]
fn walls_and_floors_of_small_rooms() {
    let cols = generate_walls_and_floors(20, 0);
    assert_eq!(cols.len(), 1);
    assert_eq!(cols[0].len(), 5);
    assert_eq!((cols[0][4].x, cols[0][4].y), (-4, 16));
    assert!(generate_walls_and_floors(8, 100).is_empty());
    assert!(generate_walls_and_floors(0, 0).is_empty());
}

#[test]
fn set_collide_marks_only_existing_cells() {
    let mut rm = RoomManager::new();
    rm.add_room(3, 2, 96, 64);
    set_collide(&mut rm, 2, 1, 5);
    set_collide(&mut rm, 3, 0, 5);
    set_collide(&mut rm, 0, 2, 5);
    assert_eq!(rm.grids[0], vec![vec![0, 0], vec![0, 0], vec![0, 5]]);
}

#[test]
fn wall_cells_of_a_forty_tile_room() {
    let mut rm = RoomManager::new();
    rm.add_room(40, 40, 1280, 1280);
    mark_wall_cells(&mut rm, 640, 640);
    for x in 0..40 {
        for y in 0..40 {
            let wall = y == 20 || y == 0 || x == 20 || x == 0;
            assert_eq!(rm.grids[0][x][y], if wall { 1 } else { 0 });
        }
    }
}

#[test]
fn start_room_marks_its_walls() {
    let mut rm = RoomManager::new();
    let s = spawn_start_room(&mut rm);
    assert_eq!(s.tiles, generate_walls_and_floors(640, 640));
    // the door cells of a room this size lie outside its grid
    let mut expected = RoomManager::new();
    expected.add_room(40, 40, 1280, 1280);
    mark_wall_cells(&mut expected, 640, 640);
    assert_eq!(rm.grids[0], expected.grids[0]);
}

#[test]
fn door_cells_are_marked_with_two() {
    let mut rm = RoomManager::new();
    rm.add_room(20, 20, 640, 640);
    let doors = generate_doors(&mut rm, 0, 0);
    assert_eq!((doors[0].collide_x, doors[0].collide_y), (0, 16));
    assert_eq!((doors[1].collide_x, doors[1].collide_y), (16, 16));
    assert_eq!((doors[2].collide_x, doors[2].collide_y), (16, 0));
    assert_eq!((doors[3].collide_x, doors[3].collide_y), (16, 0));
    for x in 0..20 {
        for y in 0..20 {
            let door = (x, y) == (0, 16) || (x, y) == (16, 16) || (x, y) == (16, 0);
            assert_eq!(rm.grids[0][x][y], if door { 2 } else { 0 });
        }
    }
}

#[test]
fn render_layers() {
    assert_eq!(tile_layer_offset(TileKind::NorthWall), 0);
    assert_eq!(tile_layer_offset(TileKind::SouthWall), 0);
    assert_eq!(tile_layer_offset(TileKind::EastWall), -1);
    assert_eq!(tile_layer_offset(TileKind::WestWall), -2);
    assert_eq!(tile_layer_offset(TileKind::Floor), -3);
    assert_eq!(DOOR_LAYER_TENTHS, 1);
}

#[test]
fn player_lands_inside_opposite_the_door() {
    for door in [DoorType::Right, DoorType::Left, DoorType::Top, DoorType::Bottom] {
        let mut rm = manager_with_room(-2, 150, 150, 40, 40);
        rm.add_room(40, 40, 1280, 1280);
        let t = transition_map(&mut rm, door);
        let (mx, my) = rm.current_room_max();
        assert!((2 * t.spawn_x).abs() < mx as i64 && (2 * t.spawn_y).abs() < my as i64);
        match door {
            DoorType::Right => assert!(t.spawn_x < 0),
            DoorType::Left => assert!(t.spawn_x > 0),
            DoorType::Top => assert!(t.spawn_y < 0),
            DoorType::Bottom => assert!(t.spawn_y > 0),
        }
        assert_eq!(t.spawn_z, rm.get_current_z_index());
    }
}
