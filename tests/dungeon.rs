use dungeon_core::map::{Grid, JsonMap, Layer, TileType, MAP_HEIGHT, MAP_WIDTH, MAX_ROOMS};
use dungeon_core::monster_ai::{contains_position, MonsterAI};
use dungeon_core::rect::Rect;
use dungeon_core::state::{try_move_player, RunState, State, TurnAction, VIEW_RANGE};
use dungeon_core::visibility::{field_of_view, ray_is_clear, Position, Viewshed};
use dungeon_core::world::{run_visibility, World};

fn open_grid(width: i32, height: i32) -> Grid {
    let mut g = Grid::new(width, height, Vec::new());
    for t in g.tiles.iter_mut() {
        *t = TileType::Floor;
    }
    g
}

fn set_wall(g: &mut Grid, x: i32, y: i32) {
    let idx = g.xy_idx(x, y);
    g.tiles[idx] = TileType::Wall;
}

fn pos(x: i32, y: i32) -> Position {
    Position { x, y }
}

fn sorted(mut v: Vec<Position>) -> Vec<(i32, i32)> {
    let mut out: Vec<(i32, i32)> = v.drain(..).map(|p| (p.x, p.y)).collect();
    out.sort();
    out
}

/// A world with the player at `player` and one monster per entry of `monsters`.
fn small_world(map: Grid, player: Position, monsters: &[Position]) -> World {
    let mut positions = vec![Some(player)];
    let mut viewsheds = vec![Some(Viewshed { visible_tiles: Vec::new(), range: 3, dirty: true })];
    let mut players = vec![true];
    let mut flags = vec![false];
    for m in monsters {
        positions.push(Some(*m));
        viewsheds.push(Some(Viewshed { visible_tiles: Vec::new(), range: 3, dirty: true }));
        players.push(false);
        flags.push(true);
    }
    World {
        map,
        positions,
        viewsheds,
        players,
        monsters: flags,
        player_entity: 0,
        player_pos: player,
    }
}

fn view_of(world: &World, i: usize) -> &Viewshed {
    world.viewsheds[i].as_ref().unwrap()
}

#[test]
fn rect_new_and_center() {
    let r = Rect::new(2, 3, 6, 8);
    assert_eq!(r, Rect { x1: 2, y1: 3, x2: 8, y2: 11 });
    assert_eq!(r.center(), (5, 7));
}

#[test]
fn rect_intersect_closed_edges() {
    let a = Rect::new(0, 0, 5, 5);
    assert!(a.intersect(&Rect::new(5, 5, 3, 3)));
    assert!(!a.intersect(&Rect::new(6, 0, 3, 3)));
    assert!(!a.intersect(&Rect::new(0, 6, 3, 3)));
    assert!(Rect::new(6, 0, 3, 3).intersect(&Rect::new(7, 1, 1, 1)));
}

#[test]
fn grid_index_and_opacity() {
    let mut g = Grid::new(10, 5, Vec::new());
    assert_eq!(g.xy_idx(3, 2), 23);
    assert_eq!(g.xy_idx(0, 0), 0);
    assert_eq!(g.xy_idx(9, 4), 49);
    assert_eq!(g.dimensions(), (10, 5));
    assert!(g.is_opaque(23));
    g.tiles[23] = TileType::Floor;
    assert!(!g.is_opaque(23));
    assert!(g.visible_tiles.iter().all(|v| !v));
    assert!(g.revealed_tiles.iter().all(|v| !v));
}

fn check_layout(g: &Grid) {
    for (i, a) in g.rooms.iter().enumerate() {
        assert!(a.x1 >= 0 && a.y1 >= 0);
        assert!(a.x2 < g.width - 1 && a.y2 < g.height - 1);
        for b in g.rooms.iter().skip(i + 1) {
            assert!(!a.intersect(b));
        }
        for y in a.y1 + 1..=a.y2 {
            for x in a.x1 + 1..=a.x2 {
                assert_eq!(g.tiles[g.xy_idx(x, y)], TileType::Floor);
            }
        }
    }
}

#[test]
fn generated_rooms_are_disjoint_and_carved() {
    for seed in 0..20u64 {
        let g = Grid::generate(80, 50, 30, 6, 10, seed, Vec::new());
        assert!(!g.rooms.is_empty());
        assert!(g.rooms.len() <= 30);
        check_layout(&g);
    }
}

#[test]
fn generated_room_sizes_follow_the_draws() {
    let mut widths = std::collections::BTreeSet::new();
    let mut corners = std::collections::BTreeSet::new();
    for seed in 0..20u64 {
        let g = Grid::generate(80, 50, 30, 6, 10, seed, Vec::new());
        for r in &g.rooms {
            let w = r.x2 - r.x1;
            let h = r.y2 - r.y1;
            assert!((6..10).contains(&w));
            assert!((6..10).contains(&h));
            widths.insert(w);
            corners.insert((r.x1, r.y1));
        }
    }
    assert!(widths.len() > 1);
    assert!(corners.len() > 10);
}

#[test]
fn generation_is_deterministic_per_seed() {
    let a = Grid::generate(80, 50, 30, 6, 10, 42, Vec::new());
    let b = Grid::generate(80, 50, 30, 6, 10, 42, Vec::new());
    assert_eq!(a.rooms, b.rooms);
    assert_eq!(a.tiles, b.tiles);
}

#[test]
fn corridors_join_consecutive_room_centers() {
    let g = Grid::generate(80, 50, 30, 6, 10, 7, Vec::new());
    assert!(g.rooms.len() >= 2);
    let floors = g.tiles.iter().filter(|t| **t == TileType::Floor).count();
    let interiors: usize = g.rooms.iter().map(|r| ((r.x2 - r.x1) * (r.y2 - r.y1)) as usize).sum();
    assert!(floors > interiors);
}

#[test]
fn small_grid_with_a_single_attempt() {
    let g = Grid::generate(12, 12, 1, 3, 5, 9, Vec::new());
    assert_eq!(g.rooms.len(), 1);
    check_layout(&g);
    let none = Grid::generate(12, 12, 0, 3, 5, 9, Vec::new());
    assert!(none.rooms.is_empty());
    assert!(none.tiles.iter().all(|t| *t == TileType::Wall));
}

#[test]
fn default_game_places_player_on_floor() {
    let st = State::new_game(1234, Vec::new());
    let map = &st.ecs.map;
    assert_eq!((map.width, map.height), (80, 50));
    assert_eq!((MAP_WIDTH, MAP_HEIGHT, MAX_ROOMS), (80, 50, 30));
    assert!(!map.rooms.is_empty());
    let (cx, cy) = map.rooms[0].center();
    assert_eq!(st.ecs.player_pos, pos(cx, cy));
    assert_eq!(map.tiles[map.xy_idx(cx, cy)], TileType::Floor);
    assert_eq!(st.runstate, RunState::Running);
    assert_eq!(st.ecs.positions.len(), map.rooms.len());
    assert!(st.ecs.monsters.iter().skip(1).all(|m| *m));
    assert!(!st.ecs.monsters[0]);
    assert_eq!(view_of(&st.ecs, 0).range, VIEW_RANGE);
    check_layout(map);
}

#[test]
fn origin_is_always_visible() {
    let mut g = Grid::new(5, 5, Vec::new());
    let seen = field_of_view(&g, pos(2, 2), 0);
    assert_eq!(sorted(seen), vec![(2, 2)]);
    g.tiles[12] = TileType::Floor;
    let seen = field_of_view(&g, pos(2, 2), 1);
    assert_eq!(seen.len(), 9);
}

#[test]
fn far_tiles_are_not_visible() {
    let g = open_grid(20, 20);
    let seen = field_of_view(&g, pos(10, 10), 3);
    assert_eq!(seen.len(), 49);
    assert!(!contains_position(&seen, pos(14, 10)));
    assert!(!contains_position(&seen, pos(10, 6)));
    assert!(contains_position(&seen, pos(13, 13)));
    assert!(contains_position(&seen, pos(7, 10)));
}

#[test]
fn walls_block_the_line_of_sight() {
    let mut g = open_grid(9, 9);
    set_wall(&mut g, 5, 4);
    let seen = field_of_view(&g, pos(4, 4), 4);
    assert!(contains_position(&seen, pos(5, 4)));
    assert!(!contains_position(&seen, pos(6, 4)));
    assert!(!contains_position(&seen, pos(8, 4)));
    assert!(contains_position(&seen, pos(6, 6)));
    assert!(!ray_is_clear(&g, pos(4, 4), pos(7, 4)));
    assert!(ray_is_clear(&g, pos(4, 4), pos(5, 4)));
    assert!(ray_is_clear(&g, pos(4, 4), pos(4, 8)));
}

#[test]
fn diagonal_ray_rounds_to_nearest_tile() {
    let mut g = open_grid(9, 9);
    set_wall(&mut g, 2, 2);
    // From (0,0) to (4,2) the steps land on (1,1), (2,1) and (3,2).
    assert!(ray_is_clear(&g, pos(0, 0), pos(4, 2)));
    let mut h = open_grid(9, 9);
    set_wall(&mut h, 2, 1);
    assert!(!ray_is_clear(&h, pos(0, 0), pos(4, 2)));
    set_wall(&mut g, 1, 1);
    assert!(!ray_is_clear(&g, pos(0, 0), pos(4, 2)));
}

#[test]
fn recompute_twice_gives_the_same_tiles() {
    let st = State::new_game(5, Vec::new());
    let origin = st.ecs.player_pos;
    let a = field_of_view(&st.ecs.map, origin, 8);
    let b = field_of_view(&st.ecs.map, origin, 8);
    assert_eq!(sorted(a), sorted(b));

    let mut w = small_world(open_grid(10, 10), pos(4, 4), &[]);
    run_visibility(&mut w);
    let first = sorted(view_of(&w, 0).visible_tiles.clone());
    w.viewsheds[0].as_mut().unwrap().dirty = true;
    run_visibility(&mut w);
    assert_eq!(sorted(view_of(&w, 0).visible_tiles.clone()), first);
}

#[test]
fn visibility_pass_updates_player_view() {
    let mut w = small_world(open_grid(10, 10), pos(1, 1), &[pos(8, 8)]);
    run_visibility(&mut w);
    assert!(!view_of(&w, 0).dirty);
    assert!(!view_of(&w, 1).dirty);
    let idx = w.map.xy_idx(4, 4);
    assert!(w.map.visible_tiles[idx]);
    assert!(w.map.revealed_tiles[idx]);
    let far = w.map.xy_idx(8, 8);
    assert!(!w.map.visible_tiles[far]);
    assert!(!w.map.revealed_tiles[far]);
    assert_eq!(w.map.visible_tiles.iter().filter(|v| **v).count(), 25);
}

#[test]
fn revealed_only_grows_and_covers_visible() {
    let mut st = State::new_game(77, Vec::new());
    let moves = [(1, 0), (1, 0), (0, 1), (-1, 0), (0, -1), (1, 1), (-1, -1), (0, 1)];
    let mut before = st.ecs.map.revealed_tiles.clone();
    st.tick(None);
    for (dx, dy) in moves.iter().cycle().take(40) {
        st.tick(Some(TurnAction::Move { dx: *dx, dy: *dy }));
        st.tick(None);
        for (i, r) in before.iter().enumerate() {
            if *r {
                assert!(st.ecs.map.revealed_tiles[i]);
            }
        }
        for (i, v) in st.ecs.map.visible_tiles.iter().enumerate() {
            if *v {
                assert!(st.ecs.map.revealed_tiles[i]);
            }
        }
        before = st.ecs.map.revealed_tiles.clone();
    }
}

#[test]
fn move_into_wall_takes_no_turn() {
    let mut g = open_grid(6, 6);
    set_wall(&mut g, 3, 2);
    let mut st = State { ecs: small_world(g, pos(2, 2), &[]), runstate: RunState::Running };
    st.tick(None);
    assert_eq!(st.runstate, RunState::Paused);
    let events = st.tick(Some(TurnAction::Move { dx: 1, dy: 0 }));
    assert!(events.is_empty());
    assert_eq!(st.runstate, RunState::Paused);
    assert_eq!(st.ecs.player_pos, pos(2, 2));
    assert_eq!(st.ecs.positions[0], Some(pos(2, 2)));
    assert!(!view_of(&st.ecs, 0).dirty);
    // Off the grid is refused too.
    let mut w = small_world(open_grid(6, 6), pos(0, 0), &[]);
    assert!(!try_move_player(&mut w, -1, 0));
    assert_eq!(w.player_pos, pos(0, 0));
}

#[test]
fn move_onto_floor_takes_one_turn() {
    let mut st = State { ecs: small_world(open_grid(6, 6), pos(2, 2), &[]), runstate: RunState::Running };
    st.tick(None);
    assert_eq!(st.player_input(None), RunState::Paused);
    st.tick(Some(TurnAction::Move { dx: 0, dy: 1 }));
    assert_eq!(st.runstate, RunState::Running);
    assert_eq!(st.ecs.player_pos, pos(2, 3));
    assert_eq!(st.ecs.positions[0], Some(pos(2, 3)));
    assert!(view_of(&st.ecs, 0).dirty);
    st.tick(None);
    assert_eq!(st.runstate, RunState::Paused);
    assert!(!view_of(&st.ecs, 0).dirty);
    let idx = st.ecs.map.xy_idx(2, 5);
    assert!(st.ecs.map.visible_tiles[idx]);
}

#[test]
fn monster_that_sees_the_player_reacts_once() {
    let mut g = open_grid(20, 10);
    for y in 0..10 {
        set_wall(&mut g, 10, y);
    }
    let w = small_world(g, pos(2, 2), &[pos(4, 3), pos(14, 3)]);
    let mut st = State { ecs: w, runstate: RunState::Running };
    let events = st.tick(None);
    assert_eq!(events, vec![1]);
    let events = st.run_systems();
    assert_eq!(events, vec![1]);
    let ai = MonsterAI {};
    assert_eq!(ai.run(&st.ecs), vec![1]);
}

#[test]
fn monster_out_of_sight_stays_silent() {
    let w = small_world(open_grid(20, 10), pos(1, 1), &[pos(15, 8)]);
    let mut st = State { ecs: w, runstate: RunState::Running };
    assert!(st.tick(None).is_empty());
}

#[test]
fn layer_document_consistency() {
    let good = JsonMap {
        compressionlevel: -1,
        height: 2,
        infinite: false,
        layers: vec![Layer { name: "ground".to_string(), data: vec![1, 2, 3, 4, 5, 6] }],
    };
    assert!(good.is_consistent(3));
    assert!(!good.is_consistent(4));
    let empty = JsonMap { compressionlevel: 0, height: 2, infinite: false, layers: Vec::new() };
    assert!(!empty.is_consistent(3));
}

#[test]
fn add_room_carves_interior_and_corridor() {
    let mut g = Grid::new(30, 20, Vec::new());
    let a = Rect::new(1, 1, 4, 4);
    assert!(g.room_fits(&a));
    g.add_room(&a, true);
    assert_eq!(g.rooms, vec![a]);
    let floors = g.tiles.iter().filter(|t| **t == TileType::Floor).count();
    assert_eq!(floors, 16);
    assert!(!g.room_fits(&Rect::new(4, 4, 3, 3)));
    let b = Rect::new(10, 10, 4, 4);
    assert!(g.room_fits(&b));
    g.add_room(&b, true);
    // Centers (3,3) and (12,12): row 3 from x=3 to 12, then column 12 from y=3 to 12.
    for x in 3..=12 {
        assert_eq!(g.tiles[g.xy_idx(x, 3)], TileType::Floor);
    }
    for y in 3..=12 {
        assert_eq!(g.tiles[g.xy_idx(12, y)], TileType::Floor);
    }
    assert_eq!(g.tiles[g.xy_idx(3, 8)], TileType::Wall);
    assert_eq!(g.tiles.iter().filter(|t| **t == TileType::Floor).count(), 16 + 16 + 7 + 7);
}

#[test]
fn add_room_vertical_first() {
    let mut g = Grid::new(30, 20, Vec::new());
    g.add_room(&Rect::new(1, 1, 4, 4), false);
    g.add_room(&Rect::new(10, 10, 4, 4), false);
    for y in 3..=12 {
        assert_eq!(g.tiles[g.xy_idx(3, y)], TileType::Floor);
    }
    for x in 3..=12 {
        assert_eq!(g.tiles[g.xy_idx(x, 12)], TileType::Floor);
    }
    assert_eq!(g.tiles[g.xy_idx(8, 3)], TileType::Wall);
}
