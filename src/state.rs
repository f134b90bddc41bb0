use vstd::prelude::*;
use crate::map::{Grid, Layer, TileType, MAP_HEIGHT, MAP_WIDTH, MAX_ROOM_SIZE, MIN_ROOM_SIZE};
use crate::monster_ai::MonsterAI;
use crate::rect::{Rect, lemma_center_in_interior};
use crate::visibility::{Position, Viewshed};
use crate::world::{World, copy_positions, run_visibility};

verus! {

/// How far every entity sees.
pub const VIEW_RANGE: i32 = 8;

/// Whether the next tick runs the systems or waits for the player.
#[derive(Clone, Copy, Debug, PartialEq, Eq, Structural)]
pub enum RunState {
    Paused,
    Running,
}

/// A command that can take a turn.
#[derive(Clone, Copy, Debug, PartialEq, Eq, Structural)]
pub enum TurnAction {
    Move { dx: i32, dy: i32 },
}

/// The whole simulation: the world and the turn state.
pub struct State {
    pub ecs: World,
    pub runstate: RunState,
}

impl World {
    /// `self` is `old` after the player tried to step by `(dx, dy)`: the step is
    /// taken iff it lands on a floor tile of the grid; then the player stands there
    /// and its viewshed, if any, is marked dirty; otherwise nothing changes.
    pub open spec fn after_move(&self, old: &World, dx: int, dy: int, moved: bool) -> bool {
        let tx = old.player_pos.x + dx;
        let ty = old.player_pos.y + dy;
        let pe = old.player_entity as int;
        &&& moved == (old.map.in_bounds(tx, ty) && old.map.tile_at(tx, ty) == TileType::Floor)
        &&& self.map == old.map
        &&& self.players@ == old.players@
        &&& self.monsters@ == old.monsters@
        &&& self.player_entity == old.player_entity
        &&& if moved {
            let dest = Position { x: tx as i32, y: ty as i32 };
            &&& self.player_pos == dest
            &&& self.positions@ == old.positions@.update(pe, Some(dest))
            &&& forall|i: int| 0 <= i < old.len() && i != pe ==> #[trigger] self.viewsheds@[i] == old.viewsheds@[i]
            &&& self.viewsheds@.len() == old.viewsheds@.len()
            &&& (self.viewsheds@[pe] is Some <==> old.viewsheds@[pe] is Some)
            &&& old.viewsheds@[pe] is Some ==> {
                &&& self.viewsheds@[pe]->0.dirty
                &&& self.viewsheds@[pe]->0.range == old.viewsheds@[pe]->0.range
                &&& self.viewsheds@[pe]->0.visible_tiles@ == old.viewsheds@[pe]->0.visible_tiles@
            }
        } else {
            &&& self.player_pos == old.player_pos
            &&& self.positions@ == old.positions@
            &&& self.viewsheds@ == old.viewsheds@
        }
    }
}

/// Moves the player by `(dx, dy)` when that lands on floor; reports whether it did.
pub fn try_move_player(world: &mut World, dx: i32, dy: i32) -> (moved: bool)
    requires
        old(world).wf(),
    ensures
        final(world).wf(),
        final(world).after_move(old(world), dx as int, dy as int, moved),
{
    let tx: i64 = world.player_pos.x as i64 + dx as i64;
    let ty: i64 = world.player_pos.y as i64 + dy as i64;
    if tx < 0 || tx >= world.map.width as i64 || ty < 0 || ty >= world.map.height as i64 {
        return false;
    }
    let dest = Position { x: tx as i32, y: ty as i32 };
    let idx = world.map.xy_idx(dest.x, dest.y);
    if world.map.tiles[idx] == TileType::Wall {
        return false;
    }
    let ghost before = *world;
    let pe = world.player_entity;
    world.positions.set(pe, Some(dest));
    world.player_pos = dest;
    let mut kept: Option<(Vec<Position>, i32)> = None;
    match &world.viewsheds[pe] {
        Some(v) => {
            kept = Some((copy_positions(&v.visible_tiles), v.range));
        },
        None => {},
    }
    match kept {
        Some((tiles, range)) => {
            world.viewsheds.set(pe, Some(Viewshed { visible_tiles: tiles, range, dirty: true }));
        },
        None => {},
    }
    assert forall|j: int| 0 <= j < world.len() && (#[trigger] world.viewsheds@[j]) is Some
        implies world.view_ok(j) by {
        if j != pe {
            assert(before.viewsheds@[j] == world.viewsheds@[j]);
            assert(before.view_ok(j));
        }
    }
    assert forall|j: int| 0 <= j < world.len() && (#[trigger] world.positions@[j]) is Some
        implies world.map.in_bounds_pos(world.positions@[j]->0) by {
        if j != pe {
            assert(before.positions@[j] == world.positions@[j]);
        }
    }
    true
}

impl World {
    /// Populates `map`: the player at the center of the first room, one monster at
    /// the center of each further room, each with a dirty, empty viewshed of `range`.
    pub fn spawn(map: Grid, range: i32) -> (r: World)
        requires
            map.wf(),
            map.visible_within_revealed(),
            map.rooms_inside(),
            map.rooms@.len() >= 1,
            0 <= range,
        ensures
            r.wf(),
            r.map == map,
            r.len() == map.rooms@.len(),
            r.player_entity == 0,
            r.player_pos == (Position { x: map.rooms@[0].center_x() as i32, y: map.rooms@[0].center_y() as i32 }),
            forall|i: int|
                0 <= i < r.len() ==> {
                    &&& #[trigger] r.players@[i] == (i == 0)
                    &&& r.monsters@[i] == (i != 0)
                    &&& r.positions@[i] == Some(
                        Position { x: map.rooms@[i].center_x() as i32, y: map.rooms@[i].center_y() as i32 },
                    )
                    &&& r.viewsheds@[i] is Some
                    &&& r.viewsheds@[i]->0.dirty
                    &&& r.viewsheds@[i]->0.range == range
                    &&& r.viewsheds@[i]->0.visible_tiles@.len() == 0
                },
    {
        let mut positions: Vec<Option<Position>> = Vec::new();
        let mut viewsheds: Vec<Option<Viewshed>> = Vec::new();
        let mut players: Vec<bool> = Vec::new();
        let mut monsters: Vec<bool> = Vec::new();
        let n: usize = map.rooms.len();
        let mut i: usize = 0;
        while i < n
            invariant
                n == map.rooms@.len(),
                i <= n,
                map.rooms_inside(),
                positions@.len() == i,
                viewsheds@.len() == i,
                players@.len() == i,
                monsters@.len() == i,
                0 <= range,
                forall|j: int|
                    0 <= j < i ==> {
                        &&& #[trigger] players@[j] == (j == 0)
                        &&& monsters@[j] == (j != 0)
                        &&& positions@[j] == Some(
                            Position { x: map.rooms@[j].center_x() as i32, y: map.rooms@[j].center_y() as i32 },
                        )
                        &&& viewsheds@[j] is Some
                        &&& viewsheds@[j]->0.dirty
                        &&& viewsheds@[j]->0.range == range
                        &&& viewsheds@[j]->0.visible_tiles@.len() == 0
                    },
            decreases n - i,
        {
            let room: Rect = map.rooms[i];
            assert(map.rooms@[i as int].wf());
            let (cx, cy) = room.center();
            positions.push(Some(Position { x: cx, y: cy }));
            viewsheds.push(Some(Viewshed { visible_tiles: Vec::new(), range, dirty: true }));
            players.push(i == 0);
            monsters.push(i != 0);
            i = i + 1;
        }
        let first: Rect = map.rooms[0];
        assert(map.rooms@[0].wf());
        let (px, py) = first.center();
        let r = World {
            map,
            positions,
            viewsheds,
            players,
            monsters,
            player_entity: 0,
            player_pos: Position { x: px, y: py },
        };
        assert forall|j: int| 0 <= j < r.len() && (#[trigger] r.positions@[j]) is Some
            implies r.map.in_bounds_pos(r.positions@[j]->0) by {
            assert(r.map.rooms@[j].wf());
            assert(r.players@[j] == (j == 0));
        }
        assert forall|j: int| 0 <= j < r.len() && #[trigger] r.players@[j] implies j == 0 by {
            assert(r.players@[j] == (j == 0));
        }
        assert forall|j: int| 0 <= j < r.len() && (#[trigger] r.viewsheds@[j]) is Some
            implies r.view_ok(j) by {
            assert(r.players@[j] == (j == 0));
        }
        r
    }
}

impl State {
    pub open spec fn wf(&self) -> bool {
        self.ecs.wf()
    }

    /// `self` is `old` after reading `action` while paused: no action keeps the
    /// world and stays paused; a move takes a turn (running) iff the step is taken.
    pub open spec fn input_handled(&self, old: &State, action: Option<TurnAction>) -> bool {
        match action {
            None => self.runstate == RunState::Paused && self.ecs == old.ecs,
            Some(TurnAction::Move { dx, dy }) => self.ecs.after_move(
                &old.ecs,
                dx as int,
                dy as int,
                self.runstate == RunState::Running,
            ),
        }
    }

    /// One visibility pass, then one monster reaction pass over the updated viewsheds.
    pub fn run_systems(&mut self) -> (events: Vec<usize>)
        requires
            old(self).wf(),
        ensures
            final(self).wf(),
            final(self).runstate == old(self).runstate,
            final(self).ecs.after_visibility(&old(self).ecs),
            final(self).ecs.reactions(events@),
    {
        run_visibility(&mut self.ecs);
        let mob = MonsterAI {};
        mob.run(&self.ecs)
    }

    /// Applies the player's command and says whether a turn is to be run.
    pub fn player_input(&mut self, action: Option<TurnAction>) -> (r: RunState)
        requires
            old(self).wf(),
        ensures
            final(self).wf(),
            final(self).runstate == r,
            final(self).input_handled(old(self), action),
    {
        let r = match action {
            None => RunState::Paused,
            Some(TurnAction::Move { dx, dy }) => {
                if try_move_player(&mut self.ecs, dx, dy) {
                    RunState::Running
                } else {
                    RunState::Paused
                }
            },
        };
        self.runstate = r;
        r
    }

    /// One tick of the turn loop. While running, the systems run once and the state
    /// returns to paused, with the reaction events of that pass; while paused, the
    /// player's command is applied and no event comes out.
    pub fn tick(&mut self, action: Option<TurnAction>) -> (events: Vec<usize>)
        requires
            old(self).wf(),
        ensures
            final(self).wf(),
            final(self).ecs.map.reveals_more_than(&old(self).ecs.map),
            final(self).ecs.map.visible_within_revealed(),
            old(self).runstate == RunState::Running ==> {
                &&& final(self).runstate == RunState::Paused
                &&& final(self).ecs.after_visibility(&old(self).ecs)
                &&& final(self).ecs.reactions(events@)
            },
            old(self).runstate == RunState::Paused ==> {
                &&& events@.len() == 0
                &&& final(self).input_handled(old(self), action)
            },
    {
        if self.runstate == RunState::Running {
            let events = self.run_systems();
            self.runstate = RunState::Paused;
            events
        } else {
            self.player_input(action);
            Vec::new()
        }
    }

    /// A new game on a generated dungeon of the default size, the player in the
    /// first room and a monster in each other; the first tick runs the systems.
    pub fn new_game(seed: u64, layers: Vec<Layer>) -> (r: State)
        ensures
            r.wf(),
            r.runstate == RunState::Running,
            r.ecs.map.width == MAP_WIDTH,
            r.ecs.map.height == MAP_HEIGHT,
            r.ecs.map.rooms_disjoint(),
            r.ecs.map.rooms_carved(),
            r.ecs.map.rooms_placed(MIN_ROOM_SIZE as int, MAX_ROOM_SIZE as int),
            r.ecs.map.rooms@.len() >= 1,
            r.ecs.len() == r.ecs.map.rooms@.len(),
            r.ecs.player_pos == (Position {
                x: r.ecs.map.rooms@[0].center_x() as i32,
                y: r.ecs.map.rooms@[0].center_y() as i32,
            }),
            r.ecs.map.tile_at(r.ecs.player_pos.x as int, r.ecs.player_pos.y as int) == TileType::Floor,
    {
        let map = Grid::load(layers, seed);
        assert(map.rooms_placed(MIN_ROOM_SIZE as int, MAX_ROOM_SIZE as int));
        assert(map.rooms@[0].wf());
        proof {
            lemma_center_in_interior(map.rooms@[0]);
        }
        assert(map.visible_within_revealed());
        let ecs = World::spawn(map, VIEW_RANGE);
        State { ecs, runstate: RunState::Running }
    }
}

} // verus!
