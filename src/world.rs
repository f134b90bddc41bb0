use vstd::prelude::*;
use crate::map::{Grid, lemma_idx_bounds, lemma_idx_injective};
use crate::visibility::{
    Position, Viewshed, chebyshev, field_of_view, in_view, lemma_recompute_idempotent, line_clear,
    ray_blocked,
};

verus! {

/// Every entity's components, indexed by entity. `player_entity` is the one
/// entity tagged as the player, and `player_pos` is where it stands.
pub struct World {
    pub map: Grid,
    pub positions: Vec<Option<Position>>,
    pub viewsheds: Vec<Option<Viewshed>>,
    pub players: Vec<bool>,
    pub monsters: Vec<bool>,
    pub player_entity: usize,
    pub player_pos: Position,
}

/// Sight computed on `a` and on `b` agrees wherever the two grids have the same tiles.
pub proof fn lemma_view_depends_on_tiles(a: &Grid, b: &Grid)
    requires
        a.width == b.width,
        a.height == b.height,
        a.tiles@ == b.tiles@,
    ensures
        forall|o: Position, range: int, t: Position|
            #[trigger] in_view(a, o, range, t) == in_view(b, o, range, t),
{
    assert forall|o: Position, range: int, t: Position|
        #[trigger] in_view(a, o, range, t) == in_view(b, o, range, t) by {
        if line_clear(a, o, t) {
            assert forall|k: int| 0 < k < chebyshev(o, t) implies !#[trigger] ray_blocked(b, o, t, k) by {
                assert(!ray_blocked(a, o, t, k));
            }
        }
        if line_clear(b, o, t) {
            assert forall|k: int| 0 < k < chebyshev(o, t) implies !#[trigger] ray_blocked(a, o, t, k) by {
                assert(!ray_blocked(b, o, t, k));
            }
        }
    }
}

impl Grid {
    pub open spec fn sees(&self, p: Position) -> bool {
        self.visible_at(p.x as int, p.y as int)
    }

    pub open spec fn remembers(&self, p: Position) -> bool {
        self.revealed_at(p.x as int, p.y as int)
    }

    pub open spec fn in_bounds_pos(&self, p: Position) -> bool {
        self.in_bounds(p.x as int, p.y as int)
    }

    /// Every visible tile is revealed.
    pub open spec fn visible_within_revealed(&self) -> bool {
        forall|i: int|
            0 <= i < self.visible_tiles@.len() && #[trigger] self.visible_tiles@[i]
                ==> self.revealed_tiles@[i]
    }

    /// Every tile revealed in `other` is revealed here too.
    pub open spec fn reveals_more_than(&self, other: &Grid) -> bool {
        &&& self.revealed_tiles@.len() == other.revealed_tiles@.len()
        &&& forall|i: int|
            0 <= i < other.revealed_tiles@.len() && #[trigger] other.revealed_tiles@[i]
                ==> self.revealed_tiles@[i]
    }

    /// The visible set is exactly what is seen from `o` with sight `range`, and the
    /// revealed set is that of `old` together with it.
    pub open spec fn shows_view_of(&self, old: &Grid, o: Position, range: int) -> bool {
        forall|p: Position|
            self.in_bounds_pos(p) ==> {
                &&& #[trigger] self.sees(p) == in_view(self, o, range, p)
                &&& self.remembers(p) == (old.remembers(p) || in_view(self, o, range, p))
            }
    }

    /// Replaces the player's visible set with `seen` and adds `seen` to what is revealed.
    pub fn show_view(&mut self, seen: &Vec<Position>)
        requires
            old(self).wf(),
            forall|j: int| 0 <= j < seen@.len() ==> old(self).in_bounds_pos(#[trigger] seen@[j]),
        ensures
            final(self).wf(),
            final(self).same_but_view(old(self)),
            final(self).visible_within_revealed(),
            final(self).reveals_more_than(old(self)),
            forall|p: Position|
                final(self).in_bounds_pos(p) ==> (#[trigger] final(self).sees(p) <==> seen@.contains(p)),
            forall|p: Position|
                final(self).in_bounds_pos(p) ==> (#[trigger] final(self).remembers(p) <==> (old(self).remembers(p)
                    || seen@.contains(p))),
    {
        let count: usize = self.visible_tiles.len();
        let mut i: usize = 0;
        while i < count
            invariant
                self.wf(),
                self.same_but_view(old(self)),
                self.revealed_tiles@ == old(self).revealed_tiles@,
                count == self.visible_tiles@.len(),
                i <= count,
                forall|m: int| 0 <= m < i ==> !#[trigger] self.visible_tiles@[m],
            decreases count - i,
        {
            self.visible_tiles.set(i, false);
            i = i + 1;
        }
        assert forall|p: Position| self.in_bounds_pos(p) implies !#[trigger] self.sees(p) by {
            lemma_idx_bounds(self.width as int, self.height as int, p.x as int, p.y as int);
        }
        let mut k: usize = 0;
        while k < seen.len()
            invariant
                self.wf(),
                self.same_but_view(old(self)),
                self.visible_within_revealed(),
                self.reveals_more_than(old(self)),
                k <= seen@.len(),
                forall|j: int| 0 <= j < seen@.len() ==> self.in_bounds_pos(#[trigger] seen@[j]),
                forall|p: Position|
                    self.in_bounds_pos(p) ==> (#[trigger] self.sees(p) <==> exists|j: int|
                        0 <= j < k && seen@[j] == p),
                forall|p: Position|
                    self.in_bounds_pos(p) ==> (#[trigger] self.remembers(p) <==> (old(self).remembers(p)
                        || exists|j: int| 0 <= j < k && seen@[j] == p)),
            decreases seen@.len() - k,
        {
            let q = seen[k];
            let idx = self.xy_idx(q.x, q.y);
            let ghost before = *self;
            self.visible_tiles.set(idx, true);
            self.revealed_tiles.set(idx, true);
            assert forall|p: Position| self.in_bounds_pos(p) implies (#[trigger] self.sees(p)
                <==> exists|j: int| 0 <= j < k + 1 && seen@[j] == p) by {
                lemma_idx_bounds(self.width as int, self.height as int, p.x as int, p.y as int);
                if self.idx(p.x as int, p.y as int) == idx as int {
                    lemma_idx_injective(
                        self.width as int,
                        p.x as int,
                        p.y as int,
                        q.x as int,
                        q.y as int,
                    );
                }
                assert(before.sees(p) <==> exists|j: int| 0 <= j < k && seen@[j] == p);
                assert(before.remembers(p) <==> (old(self).remembers(p) || exists|j: int|
                    0 <= j < k && seen@[j] == p));
                if p == q {
                    assert(seen@[k as int] == p);
                }
            }
            assert forall|p: Position| self.in_bounds_pos(p) implies (#[trigger] self.remembers(
                p,
            ) <==> (old(self).remembers(p) || exists|j: int| 0 <= j < k + 1 && seen@[j] == p)) by {
                lemma_idx_bounds(self.width as int, self.height as int, p.x as int, p.y as int);
                if self.idx(p.x as int, p.y as int) == idx as int {
                    lemma_idx_injective(
                        self.width as int,
                        p.x as int,
                        p.y as int,
                        q.x as int,
                        q.y as int,
                    );
                }
                assert(before.sees(p) <==> exists|j: int| 0 <= j < k && seen@[j] == p);
                assert(before.remembers(p) <==> (old(self).remembers(p) || exists|j: int|
                    0 <= j < k && seen@[j] == p));
                if p == q {
                    assert(seen@[k as int] == p);
                }
            }
            k = k + 1;
        }
    }
}

/// An exact copy of a list of positions.
pub(crate) fn copy_positions(v: &Vec<Position>) -> (r: Vec<Position>)
    ensures
        r@ == v@,
{
    let mut r: Vec<Position> = Vec::new();
    let mut i: usize = 0;
    while i < v.len()
        invariant
            i <= v@.len(),
            r@ == v@.subrange(0, i as int),
        decreases v@.len() - i,
    {
        r.push(v[i]);
        i = i + 1;
    }
    assert(r@ == v@);
    r
}

impl World {
    pub open spec fn len(&self) -> int {
        self.positions@.len() as int
    }

    /// Entity `i` has a viewshed with a sane range, and a clean viewshed holds
    /// exactly the tiles seen from the entity's position.
    pub open spec fn view_ok(&self, i: int) -> bool {
        let v = self.viewsheds@[i]->0;
        &&& 0 <= v.range
        &&& !v.dirty ==> {
            &&& self.positions@[i] is Some
            &&& forall|p: Position|
                #[trigger] v.visible_tiles@.contains(p) <==> in_view(
                    &self.map,
                    self.positions@[i]->0,
                    v.range as int,
                    p,
                )
        }
    }

    pub open spec fn wf(&self) -> bool {
        &&& self.map.wf()
        &&& self.viewsheds@.len() == self.len()
        &&& self.players@.len() == self.len()
        &&& self.monsters@.len() == self.len()
        &&& self.player_entity < self.len()
        &&& self.players@[self.player_entity as int]
        &&& forall|i: int| 0 <= i < self.len() && #[trigger] self.players@[i] ==> i == self.player_entity
        &&& self.positions@[self.player_entity as int] == Some(self.player_pos)
        &&& forall|i: int|
            0 <= i < self.len() && (#[trigger] self.positions@[i]) is Some ==> self.map.in_bounds_pos(
                self.positions@[i]->0,
            )
        &&& forall|i: int|
            0 <= i < self.len() && (#[trigger] self.viewsheds@[i]) is Some ==> self.view_ok(i)
        &&& self.map.visible_within_revealed()
    }

    /// Entity `i` has a dirty viewshed and a position to see from.
    pub open spec fn needs_view(&self, i: int) -> bool {
        &&& self.viewsheds@[i] is Some
        &&& self.viewsheds@[i]->0.dirty
        &&& self.positions@[i] is Some
    }

    /// Entity `i` holds a clean viewshed of the given range, with exactly the tiles
    /// seen from its position.
    pub open spec fn fresh_view(&self, i: int, range: int) -> bool {
        &&& self.viewsheds@[i] is Some
        &&& !self.viewsheds@[i]->0.dirty
        &&& self.viewsheds@[i]->0.range == range
        &&& forall|p: Position|
            #[trigger] self.viewsheds@[i]->0.visible_tiles@.contains(p) <==> in_view(
                &self.map,
                self.positions@[i]->0,
                range,
                p,
            )
    }

    /// Positions, tags and the player are as in `other`.
    pub open spec fn same_entities(&self, other: &World) -> bool {
        &&& self.positions@ == other.positions@
        &&& self.players@ == other.players@
        &&& self.monsters@ == other.monsters@
        &&& self.player_entity == other.player_entity
        &&& self.player_pos == other.player_pos
    }

    /// `self` is what one visibility pass makes of `old`: each dirty viewshed is
    /// recomputed and cleaned, the others are untouched; when the player's is
    /// recomputed the grid's visible set becomes exactly what the player sees and
    /// that is added to the revealed set, otherwise both stay as they were.
    pub open spec fn after_visibility(&self, old: &World) -> bool {
        &&& self.same_entities(old)
        &&& self.map.same_but_view(&old.map)
        &&& self.map.reveals_more_than(&old.map)
        &&& forall|i: int|
            0 <= i < old.len() ==> if old.needs_view(i) {
                self.fresh_view(i, old.viewsheds@[i]->0.range as int)
            } else {
                #[trigger] self.viewsheds@[i] == old.viewsheds@[i]
            }
        &&& if old.needs_view(old.player_entity as int) {
            self.map.shows_view_of(
                &old.map,
                self.player_pos,
                old.viewsheds@[old.player_entity as int]->0.range as int,
            )
        } else {
            &&& self.map.visible_tiles@ == old.map.visible_tiles@
            &&& self.map.revealed_tiles@ == old.map.revealed_tiles@
        }
    }
}

/// Recomputes every dirty viewshed, and the grid's view when the player's is one.
pub fn run_visibility(world: &mut World)
    requires
        old(world).wf(),
    ensures
        final(world).wf(),
        final(world).after_visibility(old(world)),
{
    let n: usize = world.viewsheds.len();
    let mut i: usize = 0;
    while i < n
        invariant
            world.wf(),
            n == world.len(),
            n == old(world).len(),
            i <= n,
            world.same_entities(old(world)),
            world.map.same_but_view(&old(world).map),
            world.map.reveals_more_than(&old(world).map),
            forall|j: int|
                0 <= j < n ==> if j < i && old(world).needs_view(j) {
                    world.fresh_view(j, old(world).viewsheds@[j]->0.range as int)
                } else {
                    #[trigger] world.viewsheds@[j] == old(world).viewsheds@[j]
                },
            i > old(world).player_entity && old(world).needs_view(old(world).player_entity as int)
                ==> world.map.shows_view_of(&old(world).map, world.player_pos, old(world).viewsheds@[old(world).player_entity as int]->0.range as int),
            !(i > old(world).player_entity && old(world).needs_view(old(world).player_entity as int)) ==> {
                &&& world.map.visible_tiles@ == old(world).map.visible_tiles@
                &&& world.map.revealed_tiles@ == old(world).map.revealed_tiles@
            },
        decreases n - i,
    {
        let pos = world.positions[i];
        let mut range: i32 = 0;
        let mut dirty: bool = false;
        match &world.viewsheds[i] {
            Some(v) => {
                range = v.range;
                dirty = v.dirty;
            },
            None => {},
        }
        if dirty {
            match pos {
                Some(p) => {
                    assert(world.view_ok(i as int));
                    let ghost before = *world;
                    assert(world.viewsheds@[i as int] == old(world).viewsheds@[i as int]);
                    let tiles = field_of_view(&world.map, p, range);
                    if world.players[i] {
                        assert forall|j: int| 0 <= j < tiles@.len() implies world.map.in_bounds_pos(
                            #[trigger] tiles@[j],
                        ) by {
                            assert(tiles@.contains(tiles@[j]));
                        }
                        world.map.show_view(&tiles);
                        proof {
                            lemma_view_depends_on_tiles(&world.map, &before.map);
                            assert(i == world.player_entity);
                            assert(p == world.player_pos);
                            assert forall|q: Position| world.map.in_bounds_pos(q) implies {
                                &&& #[trigger] world.map.sees(q) == in_view(&world.map, world.player_pos, range as int, q)
                                &&& world.map.remembers(q) == (old(world).map.remembers(q)
                                    || in_view(&world.map, world.player_pos, range as int, q))
                            } by {
                                assert(tiles@.contains(q) == in_view(&before.map, p, range as int, q));
                                assert(before.map.remembers(q) == old(world).map.remembers(q));
                            }
                            assert(world.map.shows_view_of(&old(world).map, world.player_pos, range as int));
                        }
                    }
                    proof {
                        lemma_view_depends_on_tiles(&world.map, &before.map);
                        lemma_view_depends_on_tiles(&world.map, &old(world).map);
                    }
                    world.viewsheds.set(i, Some(Viewshed { visible_tiles: tiles, range, dirty: false }));
                    assert forall|j: int| 0 <= j < world.len() && (#[trigger] world.viewsheds@[j]) is Some
                        implies world.view_ok(j) by {
                        if j != i {
                            assert(before.viewsheds@[j] == world.viewsheds@[j]);
                            assert(before.view_ok(j));
                        }
                    }
                },
                None => {},
            }
        }
        i = i + 1;
    }
}

/// Two visibility passes with nothing moved in between, the entity's viewshed
/// marked dirty before each, leave it the same set of tiles.
pub proof fn lemma_visibility_pass_idempotent(
    w0: &World,
    w1: &World,
    forced: &World,
    w2: &World,
    i: int,
)
    requires
        w0.wf(),
        0 <= i < w0.len(),
        w0.needs_view(i),
        w1.after_visibility(w0),
        forced.same_entities(w1),
        forced.map == w1.map,
        forced.viewsheds@.len() == w1.viewsheds@.len(),
        forced.viewsheds@[i] is Some,
        forced.viewsheds@[i]->0.dirty,
        forced.viewsheds@[i]->0.range == w1.viewsheds@[i]->0.range,
        w2.after_visibility(forced),
    ensures
        w2.viewsheds@[i] is Some,
        !w2.viewsheds@[i]->0.dirty,
        w2.viewsheds@[i]->0.visible_tiles@.to_set() == w1.viewsheds@[i]->0.visible_tiles@.to_set(),
{
    assert(w1.fresh_view(i, w0.viewsheds@[i]->0.range as int));
    assert(forced.needs_view(i));
    assert(w2.fresh_view(i, forced.viewsheds@[i]->0.range as int));
    lemma_recompute_idempotent(
        &w1.map,
        &w2.map,
        w1.positions@[i]->0,
        w1.viewsheds@[i]->0.range as int,
        w1.viewsheds@[i]->0.visible_tiles@,
        w2.viewsheds@[i]->0.visible_tiles@,
    );
}

} // verus!
