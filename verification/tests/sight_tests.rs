use dungeon_sim::sight::in_range;
use dungeon_sim::visibility_system::update_viewshed;
use dungeon_sim::{GridMap, Position, Rect, TileType, Viewshed};

fn open_map(width: i32, height: i32) -> GridMap {
    let mut map = GridMap::new(width, height);
    map.carve(1, width - 2, 1, height - 2);
    map.populate_blocked();
    map
}

fn wall(map: &mut GridMap, x: i32, y: i32) {
    let idx = map.xy_idx(x, y);
    map.tiles[idx] = TileType::Wall;
    map.blocked[idx] = true;
}

fn sees(tiles: &[Position], x: i32, y: i32) -> bool {
    tiles.contains(&Position { x, y })
}

#[test]
fn in_range_goes_by_straight_line_distance() {
    assert!(in_range(0, 0, 6, 0, 6));
    assert!(in_range(0, 0, 0, -6, 6));
    assert!(in_range(10, 10, 14, 14, 6));
    assert!(!in_range(10, 10, 15, 14, 6));
    assert!(!in_range(0, 0, 6, 1, 6));
    assert!(in_range(3, 4, 0, 0, 5));
    assert!(!in_range(3, 4, 0, 0, 4));
    assert!(in_range(2, 2, 2, 2, 0));
    assert!(!in_range(2, 2, 2, 2, -1));
    assert!(!in_range(i32::MIN, i32::MIN, i32::MAX, i32::MAX, i32::MAX));
}

#[test]
fn open_ground_shows_every_tile_within_range() {
    let map = open_map(40, 40);
    let tiles = map.field_of_view(20, 20, 6);
    let mut want = 0;
    for y in 0..40 {
        for x in 0..40 {
            let d2 = (x - 20) * (x - 20) + (y - 20) * (y - 20);
            assert_eq!(sees(&tiles, x, y), d2 <= 36, "tile ({}, {})", x, y);
            if d2 <= 36 {
                want += 1;
            }
        }
    }
    assert_eq!(want, 113);
    assert_eq!(tiles.len(), 113);
}

#[test]
fn field_of_view_comes_in_scanning_order_without_repeats() {
    let mut map = open_map(30, 30);
    wall(&mut map, 12, 10);
    wall(&mut map, 9, 13);
    let tiles = map.field_of_view(10, 10, 8);
    for pair in tiles.windows(2) {
        let (a, b) = (pair[0], pair[1]);
        assert!(a.y < b.y || (a.y == b.y && a.x < b.x));
    }
}

#[test]
fn range_of_zero_or_less_sees_nothing() {
    let map = open_map(20, 20);
    assert!(map.field_of_view(10, 10, 0).is_empty());
    assert!(map.field_of_view(10, 10, -3).is_empty());
    assert!(!map.can_see(10, 10, 0, 10, 10));
}

#[test]
fn range_of_one_sees_the_cell_and_its_four_neighbours() {
    let map = open_map(20, 20);
    let tiles = map.field_of_view(10, 10, 1);
    let want = vec![
        Position { x: 10, y: 9 },
        Position { x: 9, y: 10 },
        Position { x: 10, y: 10 },
        Position { x: 11, y: 10 },
        Position { x: 10, y: 11 },
    ];
    assert_eq!(tiles, want);
}

#[test]
fn actor_off_the_map_sees_nothing() {
    let map = open_map(20, 20);
    assert!(map.field_of_view(-1, 5, 6).is_empty());
    assert!(map.field_of_view(5, 20, 6).is_empty());
    assert!(!map.can_see(-1, 5, 6, 0, 5));
    assert!(!map.can_see(0, 5, 6, -1, 5));
}

#[test]
fn field_of_view_is_clipped_to_the_map() {
    let map = open_map(20, 20);
    let tiles = map.field_of_view(1, 1, 6);
    assert!(!tiles.is_empty());
    for t in tiles.iter() {
        assert!(map.contains(t.x, t.y));
    }
    assert!(sees(&tiles, 0, 0));
    assert!(sees(&tiles, 1, 7));
    assert!(!sees(&tiles, 1, 8));
    let far = map.field_of_view(10, 10, i32::MAX);
    assert_eq!(far.len(), 400);
}

#[test]
fn wall_is_seen_but_hides_what_lies_behind_it_on_a_row() {
    let mut map = open_map(30, 30);
    wall(&mut map, 13, 10);
    let tiles = map.field_of_view(10, 10, 8);
    assert!(sees(&tiles, 11, 10));
    assert!(sees(&tiles, 12, 10));
    assert!(sees(&tiles, 13, 10));
    for x in 14..=18 {
        assert!(!sees(&tiles, x, 10), "tile ({}, 10)", x);
    }
    for x in 2..=9 {
        assert!(sees(&tiles, x, 10));
    }
}

#[test]
fn wall_hides_what_lies_behind_it_on_a_column_and_a_diagonal() {
    let mut map = open_map(30, 30);
    wall(&mut map, 10, 7);
    wall(&mut map, 12, 12);
    let tiles = map.field_of_view(10, 10, 8);
    assert!(sees(&tiles, 10, 7));
    assert!(!sees(&tiles, 10, 6));
    assert!(!sees(&tiles, 10, 2));
    assert!(sees(&tiles, 11, 11));
    assert!(sees(&tiles, 12, 12));
    assert!(!sees(&tiles, 13, 13));
    assert!(!sees(&tiles, 15, 15));
    assert!(sees(&tiles, 8, 8));
}

#[test]
fn ray_is_clear_only_without_a_wall_strictly_between() {
    let mut map = open_map(30, 30);
    wall(&mut map, 13, 10);
    assert!(map.is_ray_clear(10, 10, 13, 10));
    assert!(!map.is_ray_clear(10, 10, 14, 10));
    assert!(!map.is_ray_clear(14, 10, 10, 10));
    assert!(map.is_ray_clear(10, 10, 10, 10));
    assert!(map.is_ray_clear(10, 10, 11, 11));
    assert!(map.is_ray_clear(13, 10, 20, 10));
}

#[test]
fn ray_rounds_halves_away_from_the_start() {
    // from (10, 10) to (12, 11) the ray passes (11, 11); back, it passes (11, 10)
    let mut map = open_map(30, 30);
    wall(&mut map, 11, 11);
    assert!(!map.is_ray_clear(10, 10, 12, 11));
    assert!(map.is_ray_clear(12, 11, 10, 10));
    assert!(map.can_see(10, 10, 5, 12, 11));
    wall(&mut map, 11, 10);
    assert!(!map.is_ray_clear(12, 11, 10, 10));
    assert!(!map.can_see(10, 10, 5, 12, 11));
    assert!(!map.can_see(12, 11, 5, 10, 10));
}

#[test]
fn sight_is_symmetric() {
    let mut map = open_map(24, 24);
    for (x, y) in [(5, 5), (6, 9), (11, 11), (12, 11), (13, 7), (8, 15), (15, 15), (16, 10), (10, 4)] {
        wall(&mut map, x, y);
    }
    for ay in 1..23 {
        for ax in 1..23 {
            let tiles = map.field_of_view(ax, ay, 5);
            for t in tiles.iter() {
                assert!(map.can_see(t.x, t.y, 5, ax, ay), "({}, {}) and ({}, {})", ax, ay, t.x, t.y);
            }
        }
    }
}

#[test]
fn can_see_agrees_with_field_of_view() {
    let mut map = open_map(20, 20);
    wall(&mut map, 8, 9);
    wall(&mut map, 11, 12);
    let tiles = map.field_of_view(10, 10, 7);
    for y in 0..20 {
        for x in 0..20 {
            assert_eq!(map.can_see(10, 10, 7, x, y), sees(&tiles, x, y));
        }
    }
}

#[test]
fn player_in_large_room_sees_all_of_it_within_range_and_no_other_room() {
    let mut map = GridMap::new(80, 50);
    assert!(map.add_room(Rect::new(10, 10, 20, 20), true));
    assert!(map.add_room(Rect::new(40, 12, 8, 8), true));
    // the second room stands alone again
    for x in 31..=40 {
        let idx = map.xy_idx(x, 20);
        map.tiles[idx] = TileType::Wall;
    }
    map.populate_blocked();
    let (px, py) = map.rooms[0].center();
    assert_eq!((px, py), (20, 20));
    let tiles = map.field_of_view(px, py, 6);
    for y in 0..50 {
        for x in 0..80 {
            let d2 = (x - px) * (x - px) + (y - py) * (y - py);
            assert_eq!(sees(&tiles, x, y), d2 <= 36, "tile ({}, {})", x, y);
        }
    }
    assert_eq!(tiles.len(), 113);
    for t in tiles.iter() {
        assert_eq!(map.tiles[map.xy_idx(t.x, t.y)], TileType::Floor);
        assert!(t.x <= 30);
    }
    let wide = map.field_of_view(px, py, 30);
    for t in wide.iter() {
        assert!(t.x <= 31, "saw ({}, {}) past the wall", t.x, t.y);
    }
}

#[test]
fn update_viewshed_fills_a_dirty_viewshed_and_marks_it_clean() {
    let map = open_map(20, 20);
    let mut v = Viewshed { dirty: true, range: 3, visible_tiles: vec![Position { x: 1, y: 1 }] };
    update_viewshed(&map, Position { x: 10, y: 10 }, &mut v);
    assert!(!v.dirty);
    assert_eq!(v.range, 3);
    assert_eq!(v.visible_tiles, map.field_of_view(10, 10, 3));
    assert_eq!(v.visible_tiles.len(), 29);
    assert!(!sees(&v.visible_tiles, 1, 1));
}

#[test]
fn update_viewshed_leaves_a_clean_viewshed_alone() {
    let map = open_map(20, 20);
    let mut v = Viewshed { dirty: false, range: 3, visible_tiles: vec![Position { x: 1, y: 1 }] };
    update_viewshed(&map, Position { x: 10, y: 10 }, &mut v);
    assert!(!v.dirty);
    assert_eq!(v.visible_tiles, vec![Position { x: 1, y: 1 }]);
}

#[test]
fn update_viewshed_twice_changes_nothing_the_second_time() {
    let map = open_map(20, 20);
    let mut v = Viewshed { dirty: true, range: 4, visible_tiles: Vec::new() };
    update_viewshed(&map, Position { x: 5, y: 5 }, &mut v);
    let once = v.visible_tiles.clone();
    update_viewshed(&map, Position { x: 5, y: 5 }, &mut v);
    assert_eq!(v.visible_tiles, once);
    assert!(!v.dirty);
}

#[test]
fn update_viewshed_after_a_move_replaces_the_tiles() {
    let map = open_map(30, 30);
    let mut v = Viewshed { dirty: true, range: 2, visible_tiles: Vec::new() };
    update_viewshed(&map, Position { x: 5, y: 5 }, &mut v);
    assert_eq!(v.visible_tiles.len(), 13);
    v.dirty = true;
    update_viewshed(&map, Position { x: 20, y: 20 }, &mut v);
    assert_eq!(v.visible_tiles.len(), 13);
    assert!(sees(&v.visible_tiles, 20, 22));
    assert!(!sees(&v.visible_tiles, 5, 5));
}

#[test]
fn range_zero_viewshed_is_emptied() {
    let map = open_map(20, 20);
    let mut v = Viewshed { dirty: true, range: 0, visible_tiles: vec![Position { x: 1, y: 1 }] };
    update_viewshed(&map, Position { x: 10, y: 10 }, &mut v);
    assert!(v.visible_tiles.is_empty());
    assert!(!v.dirty);
}
