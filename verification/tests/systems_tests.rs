use dungeon_sim::player::step_of;
use dungeon_sim::spawner::{monster, player};
use dungeon_sim::monster_ai_system::{holds_position, step_toward};
use dungeon_sim::{
    player_input, try_move_player, Actor, BlocksTile, CombatStats, GridMap, Key, Monster, Player,
    Position, Rect, Renderable, RunState, State, TileType, Viewshed, World,
};
use rltk::RandomNumberGenerator;

fn room_map(width: i32, height: i32) -> GridMap {
    let mut map = GridMap::new(width, height);
    assert!(map.add_room(Rect::new(0, 0, width - 2, height - 2), true));
    map.populate_blocked();
    map
}

fn wall(map: &mut GridMap, x: i32, y: i32) {
    let idx = map.xy_idx(x, y);
    map.tiles[idx] = TileType::Wall;
    map.blocked[idx] = true;
}

fn world_with_player(map: GridMap, x: i32, y: i32) -> World {
    let mut world = World::new(map);
    world.spawn(player(x, y));
    world.player_pos = Position { x, y };
    world
}

fn place(world: &World, id: usize) -> (i32, i32) {
    let p = world.positions[id].unwrap();
    (p.x, p.y)
}

fn chebyshev(a: (i32, i32), b: (i32, i32)) -> i32 {
    (a.0 - b.0).abs().max((a.1 - b.1).abs())
}

#[test]
fn new_world_has_no_actors() {
    let world = World::new(GridMap::new(10, 10));
    assert!(world.positions.is_empty());
    assert!(world.viewsheds.is_empty());
    assert_eq!(world.player_pos, Position { x: 0, y: 0 });
    assert_eq!(world.map.width, 10);
}

#[test]
fn spawn_adds_a_row_to_every_column() {
    let mut world = World::new(GridMap::new(10, 10));
    assert_eq!(world.spawn(Actor::empty()), 0);
    assert_eq!(world.spawn(player(3, 4)), 1);
    assert_eq!(world.spawn(monster(5, 6, 1, 0)), 2);
    assert_eq!(world.positions.len(), 3);
    assert_eq!(world.viewsheds.len(), 3);
    assert_eq!(world.players.len(), 3);
    assert_eq!(world.monsters.len(), 3);
    assert_eq!(world.blockers.len(), 3);
    assert_eq!(world.combat_stats.len(), 3);
    assert_eq!(world.names.len(), 3);
    assert_eq!(world.renderables.len(), 3);
    assert!(world.positions[0].is_none() && world.viewsheds[0].is_none());
    assert_eq!(world.positions[1], Some(Position { x: 3, y: 4 }));
    assert!(world.players[1].is_some() && world.monsters[1].is_none());
    assert_eq!(world.positions[2], Some(Position { x: 5, y: 6 }));
    assert!(world.players[2].is_none() && world.monsters[2].is_some());
}

#[test]
fn player_actor_has_the_starting_data() {
    let a = player(7, 8);
    assert_eq!(a.position, Some(Position { x: 7, y: 8 }));
    let v = a.viewshed.unwrap();
    assert!(v.dirty);
    assert_eq!(v.range, 6);
    assert!(v.visible_tiles.is_empty());
    assert_eq!(a.player, Some(Player {}));
    assert_eq!(a.monster, None);
    assert_eq!(a.blocks_tile, None);
    assert_eq!(a.combat_stats, Some(CombatStats { defense: 2, hp: 30, max_hp: 30, power: 5 }));
    assert_eq!(a.name.unwrap().name, "Player");
    assert_eq!(a.renderable, Some(Renderable { bg: (0, 0, 0), fg: (255, 255, 0), glyph: '@' }));
}

#[test]
fn monster_actor_is_a_goblin_on_a_one_and_an_orc_otherwise() {
    let g = monster(3, 4, 1, 0);
    assert_eq!(g.name.unwrap().name, "Goblin #0");
    assert_eq!(g.renderable.unwrap().glyph, 'g');
    assert_eq!(g.position, Some(Position { x: 3, y: 4 }));
    assert_eq!(g.monster, Some(Monster {}));
    assert_eq!(g.blocks_tile, Some(BlocksTile {}));
    assert_eq!(g.player, None);
    assert_eq!(g.combat_stats, Some(CombatStats { defense: 1, hp: 16, max_hp: 16, power: 4 }));
    let v = g.viewshed.unwrap();
    assert!(v.dirty && v.range == 8 && v.visible_tiles.is_empty());
    let o = monster(3, 4, 2, 12);
    assert_eq!(o.name.unwrap().name, "Orc #12");
    assert_eq!(o.renderable, Some(Renderable { bg: (255, 0, 0), fg: (0, 0, 0), glyph: 'o' }));
    assert_eq!(monster(0, 0, 2, 1907).name.unwrap().name, "Orc #1907");
}

#[test]
fn populate_puts_the_player_in_the_first_room_and_a_monster_in_each_other() {
    let mut rng = RandomNumberGenerator::seeded(21);
    let map = GridMap::new_map_rooms_and_corridors(80, 50, 30, 6, 10, &mut rng);
    let rooms = map.rooms.clone();
    assert!(rooms.len() > 2);
    let mut world = World::new(map);
    world.populate(&mut rng);
    assert_eq!(world.positions.len(), rooms.len());
    let mut goblins = 0;
    for r in 1..rooms.len() {
        let (x, y) = rooms[r].center();
        assert_eq!(world.positions[r - 1], Some(Position { x, y }));
        assert!(world.monsters[r - 1].is_some());
        assert!(world.blockers[r - 1].is_some());
        assert!(world.players[r - 1].is_none());
        let name = world.names[r - 1].as_ref().unwrap().name.clone();
        let glyph = world.renderables[r - 1].unwrap().glyph;
        if glyph == 'g' {
            goblins += 1;
            assert_eq!(name, format!("Goblin #{}", r - 1));
        } else {
            assert_eq!(glyph, 'o');
            assert_eq!(name, format!("Orc #{}", r - 1));
        }
    }
    assert!(goblins > 0 && goblins < rooms.len() - 1);
    let last = rooms.len() - 1;
    let (px, py) = rooms[0].center();
    assert_eq!(world.positions[last], Some(Position { x: px, y: py }));
    assert!(world.players[last].is_some());
    assert!(world.blockers[last].is_none());
    assert_eq!(world.player_pos, Position { x: px, y: py });
}

#[test]
fn visibility_pass_cleans_viewsheds_and_shows_the_players_view() {
    let mut world = world_with_player(room_map(30, 30), 10, 10);
    let m = world.spawn(monster(20, 20, 1, 0));
    world.run_visibility();
    let pv = world.viewsheds[0].as_ref().unwrap();
    let mv = world.viewsheds[m].as_ref().unwrap();
    assert!(!pv.dirty && !mv.dirty);
    assert_eq!(pv.visible_tiles, world.map.field_of_view(10, 10, 6));
    assert_eq!(mv.visible_tiles, world.map.field_of_view(20, 20, 8));
    for y in 0..30 {
        for x in 0..30 {
            let seen = pv.visible_tiles.contains(&Position { x, y });
            assert_eq!(world.map.is_visible(x, y), seen);
            assert_eq!(world.map.is_revealed(x, y), seen);
        }
    }
    assert!(!world.map.is_visible(20, 20));
}

#[test]
fn revealed_tiles_stay_revealed_when_the_player_moves_on() {
    let mut world = world_with_player(room_map(40, 12), 5, 5);
    world.run_visibility();
    assert!(world.map.is_visible(2, 5));
    assert!(world.map.is_revealed(2, 5));
    world.positions[0] = Some(Position { x: 30, y: 5 });
    world.viewsheds[0].as_mut().unwrap().dirty = true;
    world.run_visibility();
    assert!(!world.map.is_visible(2, 5));
    assert!(world.map.is_revealed(2, 5));
    assert!(world.map.is_visible(33, 5));
    assert!(world.map.is_revealed(33, 5));
    assert!(!world.map.is_revealed(18, 5));
}

#[test]
fn second_visibility_pass_changes_nothing() {
    let mut world = world_with_player(room_map(30, 30), 10, 10);
    world.spawn(monster(20, 20, 2, 0));
    world.run_visibility();
    let tiles: Vec<Vec<Position>> =
        world.viewsheds.iter().map(|v| v.as_ref().unwrap().visible_tiles.clone()).collect();
    let visible = world.map.visible_tiles.clone();
    let revealed = world.map.revealed_tiles.clone();
    world.run_visibility();
    for (i, v) in world.viewsheds.iter().enumerate() {
        assert_eq!(v.as_ref().unwrap().visible_tiles, tiles[i]);
        assert!(!v.as_ref().unwrap().dirty);
    }
    assert_eq!(world.map.visible_tiles, visible);
    assert_eq!(world.map.revealed_tiles, revealed);
}

#[test]
fn visibility_pass_skips_actors_without_a_position() {
    let mut world = World::new(room_map(20, 20));
    let mut a = Actor::empty();
    a.viewshed = Some(Viewshed { dirty: true, range: 5, visible_tiles: vec![Position { x: 3, y: 3 }] });
    a.player = Some(Player {});
    world.spawn(a);
    world.run_visibility();
    let v = world.viewsheds[0].as_ref().unwrap();
    assert!(v.dirty);
    assert_eq!(v.visible_tiles, vec![Position { x: 3, y: 3 }]);
    assert!(!world.map.is_visible(3, 3));
}

#[test]
fn map_shows_a_clean_player_viewshed_as_it_stands() {
    let mut world = World::new(room_map(20, 20));
    let mut a = player(5, 5);
    a.viewshed = Some(Viewshed {
        dirty: false,
        range: 5,
        visible_tiles: vec![Position { x: 3, y: 3 }, Position { x: 40, y: 3 }, Position { x: 4, y: 3 }],
    });
    world.spawn(a);
    world.run_visibility();
    assert!(world.map.is_visible(3, 3));
    assert!(world.map.is_visible(4, 3));
    assert_eq!(world.map.visible_tiles.iter().filter(|b| **b).count(), 2);
    assert_eq!(world.map.revealed_tiles.iter().filter(|b| **b).count(), 2);
}

#[test]
fn indexing_blocks_walls_and_tiles_under_blocking_actors() {
    let mut world = world_with_player(room_map(12, 12), 3, 3);
    world.spawn(monster(5, 5, 1, 0));
    world.spawn(monster(5, 5, 2, 1));
    world.spawn(monster(7, 2, 2, 2));
    let mut ghost = Actor::empty();
    ghost.position = Some(Position { x: 8, y: 8 });
    world.spawn(ghost);
    let mut lost = monster(50, 50, 1, 3);
    lost.viewshed = None;
    world.spawn(lost);
    let stale = world.map.xy_idx(9, 9);
    world.map.blocked[stale] = true;
    world.map.tile_content[stale].push(77);
    world.run_map_indexing();
    for y in 0..12 {
        for x in 0..12 {
            let idx = world.map.xy_idx(x, y);
            let is_wall = world.map.tiles[idx] == TileType::Wall;
            let held = (0..world.positions.len()).any(|i| {
                world.blockers[i].is_some() && world.positions[i] == Some(Position { x, y })
            });
            assert_eq!(world.map.blocked[idx], is_wall || held, "tile ({}, {})", x, y);
            let standing: Vec<usize> = (0..world.positions.len())
                .filter(|i| world.positions[*i] == Some(Position { x, y }))
                .collect();
            assert_eq!(world.map.tile_content[idx], standing);
        }
    }
    assert!(world.map.blocked[world.map.xy_idx(5, 5)]);
    assert!(!world.map.blocked[world.map.xy_idx(3, 3)]);
    assert!(!world.map.blocked[world.map.xy_idx(8, 8)]);
    assert_eq!(world.map.tile_content[world.map.xy_idx(5, 5)], vec![1, 2]);
    assert_eq!(world.map.tile_content[world.map.xy_idx(3, 3)], vec![0]);
    assert_eq!(world.map.tile_content[world.map.xy_idx(8, 8)], vec![4]);
}

#[test]
fn indexing_twice_gives_the_same_index() {
    let mut world = world_with_player(room_map(12, 12), 3, 3);
    world.spawn(monster(5, 5, 1, 0));
    world.run_map_indexing();
    let blocked = world.map.blocked.clone();
    let content = world.map.tile_content.clone();
    world.run_map_indexing();
    assert_eq!(world.map.blocked, blocked);
    assert_eq!(world.map.tile_content, content);
}

#[test]
fn move_onto_free_floor_succeeds_and_marks_the_viewshed() {
    let mut world = world_with_player(room_map(12, 12), 3, 3);
    world.run_visibility();
    assert!(!world.viewsheds[0].as_ref().unwrap().dirty);
    let tiles = world.viewsheds[0].as_ref().unwrap().visible_tiles.clone();
    assert!(world.try_move(0, 1, -1));
    assert_eq!(place(&world, 0), (4, 2));
    let v = world.viewsheds[0].as_ref().unwrap();
    assert!(v.dirty);
    assert_eq!(v.range, 6);
    assert_eq!(v.visible_tiles, tiles);
    assert_eq!(world.player_pos, Position { x: 3, y: 3 });
}

#[test]
fn move_onto_a_blocked_tile_changes_nothing() {
    let mut world = world_with_player(room_map(12, 12), 3, 3);
    world.spawn(monster(4, 3, 1, 0));
    world.run_visibility();
    world.run_map_indexing();
    assert!(world.map.blocked[world.map.xy_idx(4, 3)]);
    assert!(!world.try_move(0, 1, 0));
    assert_eq!(place(&world, 0), (3, 3));
    assert!(!world.viewsheds[0].as_ref().unwrap().dirty);
    assert_eq!(world.player_pos, Position { x: 3, y: 3 });
}

#[test]
fn move_into_a_wall_or_off_the_map_changes_nothing() {
    let mut world = world_with_player(room_map(12, 12), 1, 1);
    world.run_visibility();
    assert!(!world.try_move(0, -1, 0));
    assert!(!world.try_move(0, 0, -1));
    assert!(!world.try_move(0, -5, 0));
    assert!(!world.try_move(0, 0, 100));
    assert!(!world.try_move(0, i32::MAX, i32::MAX));
    assert!(!world.try_move(0, i32::MIN, i32::MIN));
    assert_eq!(place(&world, 0), (1, 1));
    assert!(!world.viewsheds[0].as_ref().unwrap().dirty);
}

#[test]
fn move_of_an_actor_that_is_not_there_or_lacks_data_fails() {
    let mut world = world_with_player(room_map(12, 12), 3, 3);
    let mut blind = Actor::empty();
    blind.position = Some(Position { x: 5, y: 5 });
    let blind_id = world.spawn(blind);
    let nowhere = world.spawn(Actor::empty());
    assert!(!world.try_move(9, 1, 0));
    assert!(!world.try_move(blind_id, 1, 0));
    assert!(!world.try_move(nowhere, 1, 0));
    assert_eq!(place(&world, blind_id), (5, 5));
}

#[test]
fn step_toward_moves_by_at_most_one() {
    assert_eq!(step_toward(3, 9), 4);
    assert_eq!(step_toward(3, 4), 4);
    assert_eq!(step_toward(3, -9), 2);
    assert_eq!(step_toward(3, 3), 3);
    assert_eq!(step_toward(i32::MAX, i32::MAX), i32::MAX);
    assert_eq!(step_toward(i32::MIN, i32::MAX), i32::MIN + 1);
}

#[test]
fn holds_position_finds_what_is_there() {
    let tiles = vec![Position { x: 1, y: 2 }, Position { x: 3, y: 4 }];
    assert!(holds_position(&tiles, Position { x: 3, y: 4 }));
    assert!(!holds_position(&tiles, Position { x: 4, y: 3 }));
    assert!(!holds_position(&Vec::new(), Position { x: 0, y: 0 }));
}

#[test]
fn monster_that_sees_the_player_comes_one_step_closer() {
    for (mx, my) in [(12, 10), (10, 13), (13, 13), (7, 12), (14, 9), (6, 6), (10, 4)] {
        let mut world = world_with_player(room_map(30, 30), 10, 10);
        let m = world.spawn(monster(mx, my, 1, 0));
        let mut gs = State { ecs: world, runstate: RunState::Running };
        gs.tick(None);
        assert_eq!(gs.runstate, RunState::Paused);
        let now = place(&gs.ecs, m);
        assert_eq!(chebyshev(now, (10, 10)), chebyshev((mx, my), (10, 10)) - 1);
        assert!((now.0 - mx).abs() <= 1 && (now.1 - my).abs() <= 1);
        assert!(gs.ecs.viewsheds[m].as_ref().unwrap().dirty);
        assert!(gs.ecs.map.blocked[gs.ecs.map.xy_idx(now.0, now.1)]);
        assert_eq!(place(&gs.ecs, 0), (10, 10));
    }
}

#[test]
fn monster_next_to_the_player_stays_off_the_players_tile() {
    for (mx, my) in [(11, 10), (9, 9), (10, 11), (11, 11)] {
        let mut world = world_with_player(room_map(30, 30), 10, 10);
        let m = world.spawn(monster(mx, my, 2, 0));
        let mut gs = State { ecs: world, runstate: RunState::Running };
        gs.tick(None);
        assert_eq!(place(&gs.ecs, m), (mx, my));
        assert!(!gs.ecs.viewsheds[m].as_ref().unwrap().dirty);
    }
}

#[test]
fn monster_picks_the_step_toward_the_player() {
    let mut world = world_with_player(room_map(30, 30), 10, 10);
    let a = world.spawn(monster(14, 10, 1, 0));
    let b = world.spawn(monster(13, 14, 1, 1));
    let c = world.spawn(monster(10, 5, 1, 2));
    world.run_visibility();
    world.run_monster_ai();
    assert_eq!(place(&world, a), (13, 10));
    assert_eq!(place(&world, b), (12, 13));
    assert_eq!(place(&world, c), (10, 6));
}

#[test]
fn monster_does_not_step_into_a_wall_or_onto_a_blocked_tile() {
    let mut map = room_map(30, 30);
    wall(&mut map, 12, 10);
    let mut world = world_with_player(map, 10, 10);
    let m = world.spawn(monster(13, 11, 1, 0));
    world.run_visibility();
    assert!(world.viewsheds[m].as_ref().unwrap().visible_tiles.contains(&Position { x: 10, y: 10 }));
    world.run_monster_ai();
    assert_eq!(place(&world, m), (13, 11));
    assert!(!world.viewsheds[m].as_ref().unwrap().dirty);

    let mut world = world_with_player(room_map(30, 30), 10, 10);
    let front = world.spawn(monster(12, 10, 1, 0));
    let back = world.spawn(monster(13, 10, 1, 1));
    world.run_map_indexing();
    world.run_visibility();
    world.run_monster_ai();
    assert_eq!(place(&world, front), (11, 10));
    assert_eq!(place(&world, back), (13, 10));
}

#[test]
fn monster_that_does_not_see_the_player_stays() {
    let mut map = room_map(40, 20);
    for y in 0..20 {
        wall(&mut map, 20, y);
    }
    let mut world = world_with_player(map, 10, 10);
    let hidden = world.spawn(monster(25, 10, 1, 0));
    let far = world.spawn(monster(10, 19, 1, 1));
    let mut gs = State { ecs: world, runstate: RunState::Running };
    gs.run_systems();
    assert_eq!(place(&gs.ecs, hidden), (25, 10));
    assert_eq!(place(&gs.ecs, far), (10, 19));
    assert_eq!(gs.runstate, RunState::Running);
}

#[test]
fn player_and_actors_without_the_monster_mark_are_not_chasing() {
    let mut world = world_with_player(room_map(30, 30), 10, 10);
    let mut bystander = monster(13, 10, 1, 0);
    bystander.monster = None;
    let b = world.spawn(bystander);
    world.run_visibility();
    world.run_monster_ai();
    assert_eq!(place(&world, b), (13, 10));
    assert_eq!(place(&world, 0), (10, 10));
}

#[test]
fn keys_stand_for_steps() {
    for key in [Key::Left, Key::Numpad4, Key::H, Key::A] {
        assert_eq!(step_of(Some(key)), Some((-1, 0)));
    }
    for key in [Key::Right, Key::Numpad6, Key::L, Key::D] {
        assert_eq!(step_of(Some(key)), Some((1, 0)));
    }
    for key in [Key::Up, Key::Numpad8, Key::K, Key::W] {
        assert_eq!(step_of(Some(key)), Some((0, -1)));
    }
    for key in [Key::Down, Key::Numpad2, Key::J, Key::S] {
        assert_eq!(step_of(Some(key)), Some((0, 1)));
    }
    assert_eq!(step_of(Some(Key::Numpad9)), Some((1, -1)));
    assert_eq!(step_of(Some(Key::Y)), Some((1, -1)));
    assert_eq!(step_of(Some(Key::Numpad7)), Some((-1, -1)));
    assert_eq!(step_of(Some(Key::U)), Some((-1, -1)));
    assert_eq!(step_of(Some(Key::Numpad3)), Some((1, 1)));
    assert_eq!(step_of(Some(Key::N)), Some((1, 1)));
    assert_eq!(step_of(Some(Key::Numpad1)), Some((-1, 1)));
    assert_eq!(step_of(Some(Key::B)), Some((-1, 1)));
    assert_eq!(step_of(Some(Key::Other)), None);
    assert_eq!(step_of(None), None);
}

#[test]
fn try_move_player_moves_the_player_and_its_known_position() {
    let mut world = world_with_player(room_map(12, 12), 3, 3);
    let m = world.spawn(monster(6, 6, 1, 0));
    world.run_visibility();
    try_move_player(1, 1, &mut world);
    assert_eq!(place(&world, 0), (4, 4));
    assert_eq!(world.player_pos, Position { x: 4, y: 4 });
    assert!(world.viewsheds[0].as_ref().unwrap().dirty);
    assert_eq!(place(&world, m), (6, 6));
    assert!(!world.viewsheds[m].as_ref().unwrap().dirty);
}

#[test]
fn try_move_player_into_a_wall_changes_nothing() {
    let mut world = world_with_player(room_map(12, 12), 1, 1);
    world.run_visibility();
    try_move_player(-1, 0, &mut world);
    assert_eq!(place(&world, 0), (1, 1));
    assert_eq!(world.player_pos, Position { x: 1, y: 1 });
    assert!(!world.viewsheds[0].as_ref().unwrap().dirty);
}

#[test]
fn player_input_steers_and_sets_running() {
    let mut gs = State { ecs: world_with_player(room_map(12, 12), 5, 5), runstate: RunState::Paused };
    assert_eq!(player_input(&mut gs, Some(Key::Left)), RunState::Running);
    assert_eq!(place(&gs.ecs, 0), (4, 5));
    assert_eq!(player_input(&mut gs, Some(Key::K)), RunState::Running);
    assert_eq!(place(&gs.ecs, 0), (4, 4));
    assert_eq!(player_input(&mut gs, Some(Key::Numpad3)), RunState::Running);
    assert_eq!(place(&gs.ecs, 0), (5, 5));
    assert_eq!(gs.runstate, RunState::Paused);
}

#[test]
fn player_input_without_a_steering_key_pauses() {
    let mut gs = State { ecs: world_with_player(room_map(12, 12), 5, 5), runstate: RunState::Paused };
    assert_eq!(player_input(&mut gs, None), RunState::Paused);
    assert_eq!(player_input(&mut gs, Some(Key::Other)), RunState::Paused);
    assert_eq!(place(&gs.ecs, 0), (5, 5));
}

#[test]
fn player_input_runs_even_when_the_step_is_refused() {
    let mut gs = State { ecs: world_with_player(room_map(12, 12), 1, 1), runstate: RunState::Paused };
    assert_eq!(player_input(&mut gs, Some(Key::Up)), RunState::Running);
    assert_eq!(place(&gs.ecs, 0), (1, 1));
}

#[test]
fn tick_alternates_between_input_and_systems() {
    let mut world = world_with_player(room_map(30, 30), 10, 10);
    let m = world.spawn(monster(14, 10, 1, 0));
    let mut gs = State { ecs: world, runstate: RunState::Running };
    gs.tick(Some(Key::Left));
    assert_eq!(gs.runstate, RunState::Paused);
    assert_eq!(place(&gs.ecs, 0), (10, 10));
    assert_eq!(place(&gs.ecs, m), (13, 10));
    gs.tick(None);
    assert_eq!(gs.runstate, RunState::Paused);
    assert_eq!(place(&gs.ecs, m), (13, 10));
    gs.tick(Some(Key::Left));
    assert_eq!(gs.runstate, RunState::Running);
    assert_eq!(place(&gs.ecs, 0), (9, 10));
    assert_eq!(gs.ecs.player_pos, Position { x: 9, y: 10 });
    assert_eq!(place(&gs.ecs, m), (13, 10));
    gs.tick(None);
    assert_eq!(gs.runstate, RunState::Paused);
    assert_eq!(place(&gs.ecs, m), (12, 10));
    assert!(gs.ecs.map.is_visible(9, 10));
    assert!(gs.ecs.map.is_visible(3, 10));
    assert!(gs.ecs.map.blocked[gs.ecs.map.xy_idx(12, 10)]);
    assert!(!gs.ecs.map.blocked[gs.ecs.map.xy_idx(13, 10)]);
}

#[test]
fn generated_game_runs_for_many_steps_with_actors_on_floor() {
    let mut rng = RandomNumberGenerator::seeded(2024);
    let map = GridMap::new_map_rooms_and_corridors(80, 50, 30, 6, 10, &mut rng);
    let mut world = World::new(map);
    world.populate(&mut rng);
    let mut gs = State { ecs: world, runstate: RunState::Running };
    let keys = [Key::Left, Key::Up, Key::Right, Key::Down, Key::Y, Key::B, Key::N, Key::U];
    for step in 0..200 {
        gs.tick(Some(keys[step % keys.len()]));
        for p in gs.ecs.positions.iter() {
            let p = p.unwrap();
            assert!(gs.ecs.map.contains(p.x, p.y));
            assert_eq!(gs.ecs.map.tiles[gs.ecs.map.xy_idx(p.x, p.y)], TileType::Floor);
        }
    }
}
