use vstd::prelude::*;
use crate::rect::Rect;
use crate::rng::{rng_range, rng_roll_dice, seeded_rng};

verus! {

pub const MAP_WIDTH: i32 = 80;
pub const MAP_HEIGHT: i32 = 50;
pub const MAX_ROOMS: i32 = 30;
pub const MIN_ROOM_SIZE: i32 = 6;
/// Room extents are drawn from `MIN_ROOM_SIZE .. MAX_ROOM_SIZE`.
pub const MAX_ROOM_SIZE: i32 = 10;

/// What a grid cell holds: walls are opaque and impassable, floors are neither.
#[derive(Clone, Copy, Debug, PartialEq, Eq, Structural)]
pub enum TileType {
    Wall,
    Floor,
}

/// A named, row-major layer of decorative tile identifiers.
pub struct Layer {
    pub name: String,
    pub data: Vec<u16>,
}

/// The top level of the auxiliary tile-layer document.
pub struct JsonMap {
    pub compressionlevel: i32,
    pub height: i32,
    pub infinite: bool,
    pub layers: Vec<Layer>,
}

impl JsonMap {
    /// The document has at least one layer, and every layer holds exactly
    /// `width * height` tiles.
    pub open spec fn consistent(&self, width: int) -> bool {
        &&& self.layers@.len() >= 1
        &&& forall|i: int|
            0 <= i < self.layers@.len() ==> (#[trigger] self.layers@[i]).data@.len() == width
                * self.height
    }

    /// Whether the document's layers fit a grid `width` tiles wide.
    pub fn is_consistent(&self, width: i32) -> (r: bool)
        requires
            0 < width,
        ensures
            r == self.consistent(width as int),
    {
        if self.layers.len() == 0 {
            return false;
        }
        if self.height < 0 {
            assert(width * self.height < 0) by (nonlinear_arith)
                requires
                    0 < width,
                    self.height < 0,
            ;
            assert(self.layers@[0].data@.len() != width * self.height);
            return false;
        }
        assert(width * self.height <= 0x4000_0000_0000_0000) by (nonlinear_arith)
            requires
                0 < width <= 0x8000_0000,
                0 <= self.height <= 0x8000_0000,
        ;
        let expected: u64 = width as u64 * self.height as u64;
        let mut i: usize = 0;
        while i < self.layers.len()
            invariant
                i <= self.layers@.len(),
                0 <= self.height,
                expected == width * self.height,
                forall|j: int| 0 <= j < i ==> (#[trigger] self.layers@[j]).data@.len() == width * self.height,
            decreases self.layers@.len() - i,
        {
            if self.layers[i].data.len() as u64 != expected {
                return false;
            }
            i = i + 1;
        }
        true
    }
}

/// The dungeon grid: tiles in row-major order, the rooms carved into it, and the
/// player's view of it (`visible_tiles` this turn, `revealed_tiles` ever).
pub struct Grid {
    pub tiles: Vec<TileType>,
    pub rooms: Vec<Rect>,
    pub width: i32,
    pub height: i32,
    pub revealed_tiles: Vec<bool>,
    pub visible_tiles: Vec<bool>,
    pub layers: Vec<Layer>,
}

/// `v` lies between `a` and `b`, in either order.
pub open spec fn between(v: int, a: int, b: int) -> bool {
    a <= v <= b || b <= v <= a
}

/// `(x, y)` lies on the corridor joining the centers of `prev` and `next`: along
/// the row of `prev`'s center then the column of `next`'s, or along the column of
/// `prev`'s center then the row of `next`'s.
pub open spec fn on_corridor(prev: Rect, next: Rect, horizontal_first: bool, x: int, y: int) -> bool {
    let px = prev.center_x();
    let py = prev.center_y();
    let nx = next.center_x();
    let ny = next.center_y();
    if horizontal_first {
        (y == py && between(x, px, nx)) || (x == nx && between(y, py, ny))
    } else {
        (x == px && between(y, py, ny)) || (y == ny && between(x, px, nx))
    }
}

/// `y * w + x` lies in `0 .. w * h` for every in-bounds `(x, y)`.
pub proof fn lemma_idx_bounds(w: int, h: int, x: int, y: int)
    requires
        0 <= x < w,
        0 <= y < h,
    ensures
        0 <= y * w,
        0 <= y * w + x < w * h,
{
    assert(0 <= y * w) by (nonlinear_arith)
        requires
            0 <= y,
            0 <= w,
    ;
    assert(y * w + w <= h * w) by (nonlinear_arith)
        requires
            y + 1 <= h,
            0 <= w,
    ;
}

/// Distinct in-bounds coordinates have distinct linear indices.
pub proof fn lemma_idx_injective(w: int, x1: int, y1: int, x2: int, y2: int)
    requires
        0 <= x1 < w,
        0 <= x2 < w,
        0 <= y1,
        0 <= y2,
        y1 * w + x1 == y2 * w + x2,
    ensures
        x1 == x2,
        y1 == y2,
{
    if y1 < y2 {
        assert(y1 * w + w <= y2 * w) by (nonlinear_arith)
            requires
                y1 + 1 <= y2,
                0 <= w,
        ;
    } else if y2 < y1 {
        assert(y2 * w + w <= y1 * w) by (nonlinear_arith)
            requires
                y2 + 1 <= y1,
                0 <= w,
        ;
    }
}

impl Grid {
    /// Dimensions are positive and every per-tile vector covers the whole grid.
    pub open spec fn wf(&self) -> bool {
        &&& 0 < self.width
        &&& 0 < self.height
        &&& self.tiles@.len() == self.width * self.height
        &&& self.revealed_tiles@.len() == self.tiles@.len()
        &&& self.visible_tiles@.len() == self.tiles@.len()
    }

    pub open spec fn in_bounds(&self, x: int, y: int) -> bool {
        0 <= x < self.width && 0 <= y < self.height
    }

    pub open spec fn idx(&self, x: int, y: int) -> int {
        y * self.width + x
    }

    pub open spec fn tile_at(&self, x: int, y: int) -> TileType {
        self.tiles@[self.idx(x, y)]
    }

    pub open spec fn visible_at(&self, x: int, y: int) -> bool {
        self.visible_tiles@[self.idx(x, y)]
    }

    pub open spec fn revealed_at(&self, x: int, y: int) -> bool {
        self.revealed_tiles@[self.idx(x, y)]
    }

    /// An in-bounds wall; everything off the grid lets sight through.
    pub open spec fn opaque_at(&self, x: int, y: int) -> bool {
        self.in_bounds(x, y) && self.tile_at(x, y) == TileType::Wall
    }

    /// No tile is visible or revealed.
    pub open spec fn nothing_seen(&self) -> bool {
        forall|i: int|
            0 <= i < self.tiles@.len() ==> !#[trigger] self.visible_tiles@[i]
                && !self.revealed_tiles@[i]
    }

    /// Every room keeps a wall column and row on its high sides inside the grid,
    /// and its extent on each axis lies in `min_size .. max_size`.
    pub open spec fn rooms_placed(&self, min_size: int, max_size: int) -> bool {
        forall|i: int|
            0 <= i < self.rooms@.len() ==> {
                let r = #[trigger] self.rooms@[i];
                &&& r.wf()
                &&& r.x2 < self.width - 1
                &&& r.y2 < self.height - 1
                &&& min_size <= r.x2 - r.x1 < max_size
                &&& min_size <= r.y2 - r.y1 < max_size
            }
    }

    /// No two rooms overlap.
    pub open spec fn rooms_disjoint(&self) -> bool {
        forall|i: int, j: int|
            0 <= i < j < self.rooms@.len() ==> !(#[trigger] self.rooms@[i]).overlaps(
                #[trigger] self.rooms@[j],
            )
    }

    /// Every tile of every room's interior is floor.
    pub open spec fn rooms_carved(&self) -> bool {
        forall|i: int, x: int, y: int|
            0 <= i < self.rooms@.len() && (#[trigger] self.rooms@[i]).in_interior(x, y)
                ==> #[trigger] self.tile_at(x, y) == TileType::Floor
    }

    /// Every floor tile of `other` is floor here too.
    pub open spec fn keeps_floors(&self, other: &Grid) -> bool {
        forall|a: int, b: int|
            #![trigger other.tile_at(a, b)]
            #![trigger self.tile_at(a, b)]
            self.in_bounds(a, b) && other.tile_at(a, b) == TileType::Floor ==> self.tile_at(a, b)
                == TileType::Floor
    }

    /// Everything but the tiles is as in `other`.
    pub open spec fn same_but_tiles(&self, other: &Grid) -> bool {
        &&& self.width == other.width
        &&& self.height == other.height
        &&& self.rooms@ == other.rooms@
        &&& self.revealed_tiles@ == other.revealed_tiles@
        &&& self.visible_tiles@ == other.visible_tiles@
        &&& self.layers@ == other.layers@
    }

    /// Everything but the player's view of the grid is as in `other`.
    pub open spec fn same_but_view(&self, other: &Grid) -> bool {
        &&& self.width == other.width
        &&& self.height == other.height
        &&& self.tiles@ == other.tiles@
        &&& self.rooms@ == other.rooms@
        &&& self.layers@ == other.layers@
    }

    /// The linear index of an in-bounds coordinate.
    pub fn xy_idx(&self, x: i32, y: i32) -> (r: usize)
        requires
            self.wf(),
            self.in_bounds(x as int, y as int),
        ensures
            r == self.idx(x as int, y as int),
            r < self.tiles@.len(),
    {
        proof {
            lemma_idx_bounds(self.width as int, self.height as int, x as int, y as int);
        }
        let count: usize = self.tiles.len();
        assert(y * self.width + x < count);
        let row: usize = y as usize * self.width as usize;
        row + x as usize
    }

    /// Whether the tile at a linear index blocks sight.
    pub fn is_opaque(&self, idx: usize) -> (r: bool)
        requires
            idx < self.tiles@.len(),
        ensures
            r == (self.tiles@[idx as int] == TileType::Wall),
    {
        self.tiles[idx] == TileType::Wall
    }

    /// Width and height of the grid.
    pub fn dimensions(&self) -> (r: (i32, i32))
        ensures
            r == (self.width, self.height),
    {
        (self.width, self.height)
    }

    /// An all-wall grid with no rooms, nothing visible and nothing revealed.
    pub fn new(width: i32, height: i32, layers: Vec<Layer>) -> (r: Grid)
        requires
            0 < width,
            0 < height,
            width * height <= usize::MAX,
        ensures
            r.wf(),
            r.width == width,
            r.height == height,
            r.rooms@.len() == 0,
            r.layers@ == layers@,
            r.nothing_seen(),
            forall|x: int, y: int| r.in_bounds(x, y) ==> #[trigger] r.tile_at(x, y) == TileType::Wall,
    {
        let count: usize = width as usize * height as usize;
        let r = Grid {
            tiles: vec![TileType::Wall; count],
            rooms: Vec::new(),
            width,
            height,
            revealed_tiles: vec![false; count],
            visible_tiles: vec![false; count],
            layers,
        };
        assert forall|x: int, y: int| r.in_bounds(x, y) implies #[trigger] r.tile_at(x, y)
            == TileType::Wall by {
            lemma_idx_bounds(width as int, height as int, x, y);
        }
        r
    }

    /// Turns the single tile `(x, y)` into floor.
    fn set_floor(&mut self, x: i32, y: i32)
        requires
            old(self).wf(),
            old(self).in_bounds(x as int, y as int),
        ensures
            final(self).wf(),
            final(self).same_but_tiles(old(self)),
            forall|a: int, b: int|
                final(self).in_bounds(a, b) ==> #[trigger] final(self).tile_at(a, b) == if a == x
                    && b == y {
                    TileType::Floor
                } else {
                    old(self).tile_at(a, b)
                },
    {
        let idx = self.xy_idx(x, y);
        self.tiles.set(idx, TileType::Floor);
        assert forall|a: int, b: int| self.in_bounds(a, b) implies #[trigger] self.tile_at(a, b)
            == if a == x && b == y {
            TileType::Floor
        } else {
            old(self).tile_at(a, b)
        } by {
            lemma_idx_bounds(self.width as int, self.height as int, a, b);
            if self.idx(a, b) == idx as int {
                lemma_idx_injective(self.width as int, a, b, x as int, y as int);
            }
        }
    }

    /// Carves the interior of `room` to floor and leaves every other tile alone.
    fn apply_room_to_map(&mut self, room: &Rect)
        requires
            old(self).wf(),
            room.wf(),
            room.x2 < old(self).width,
            room.y2 < old(self).height,
        ensures
            final(self).wf(),
            final(self).same_but_tiles(old(self)),
            final(self).keeps_floors(old(self)),
            forall|a: int, b: int|
                final(self).in_bounds(a, b) ==> #[trigger] final(self).tile_at(a, b) == if room.in_interior(a, b) {
                    TileType::Floor
                } else {
                    old(self).tile_at(a, b)
                },
    {
        let mut y: i32 = room.y1 + 1;
        while y <= room.y2
            invariant
                self.wf(),
                self.same_but_tiles(old(self)),
                room.wf(),
                room.x2 < self.width,
                room.y2 < self.height,
                room.y1 + 1 <= y <= room.y2 + 1,
                forall|a: int, b: int|
                    self.in_bounds(a, b) ==> #[trigger] self.tile_at(a, b) == if room.in_interior(a, b)
                        && b < y {
                        TileType::Floor
                    } else {
                        old(self).tile_at(a, b)
                    },
            decreases room.y2 + 1 - y,
        {
            let mut x: i32 = room.x1 + 1;
            while x <= room.x2
                invariant
                    self.wf(),
                    self.same_but_tiles(old(self)),
                    room.wf(),
                    room.x2 < self.width,
                    room.y2 < self.height,
                    room.y1 + 1 <= y <= room.y2,
                    room.x1 + 1 <= x <= room.x2 + 1,
                    forall|a: int, b: int|
                        self.in_bounds(a, b) ==> #[trigger] self.tile_at(a, b) == if room.in_interior(a, b)
                            && (b < y || (b == y && a < x)) {
                            TileType::Floor
                        } else {
                            old(self).tile_at(a, b)
                        },
                decreases room.x2 + 1 - x,
            {
                self.set_floor(x, y);
                x = x + 1;
            }
            y = y + 1;
        }
    }

    /// Carves the row segment between `x1` and `x2` (either order) at height `y`.
    fn apply_horizontal_tunnel(&mut self, x1: i32, x2: i32, y: i32)
        requires
            old(self).wf(),
            old(self).in_bounds(x1 as int, y as int),
            old(self).in_bounds(x2 as int, y as int),
        ensures
            final(self).wf(),
            final(self).same_but_tiles(old(self)),
            final(self).keeps_floors(old(self)),
            forall|a: int, b: int|
                final(self).in_bounds(a, b) ==> #[trigger] final(self).tile_at(a, b) == if b == y && (
                x1 <= a <= x2 || x2 <= a <= x1) {
                    TileType::Floor
                } else {
                    old(self).tile_at(a, b)
                },
    {
        let lo: i32 = if x1 < x2 { x1 } else { x2 };
        let hi: i32 = if x1 < x2 { x2 } else { x1 };
        let mut x: i32 = lo;
        while x <= hi
            invariant
                self.wf(),
                self.same_but_tiles(old(self)),
                0 <= lo <= x <= hi + 1,
                hi < self.width,
                0 <= y < self.height,
                lo == x1 || lo == x2,
                hi == x1 || hi == x2,
                lo <= x1 <= hi,
                lo <= x2 <= hi,
                forall|a: int, b: int|
                    self.in_bounds(a, b) ==> #[trigger] self.tile_at(a, b) == if b == y && lo <= a < x {
                        TileType::Floor
                    } else {
                        old(self).tile_at(a, b)
                    },
            decreases hi + 1 - x,
        {
            self.set_floor(x, y);
            x = x + 1;
        }
    }

    /// Carves the column segment between `y1` and `y2` (either order) at `x`.
    fn apply_vertical_tunnel(&mut self, y1: i32, y2: i32, x: i32)
        requires
            old(self).wf(),
            old(self).in_bounds(x as int, y1 as int),
            old(self).in_bounds(x as int, y2 as int),
        ensures
            final(self).wf(),
            final(self).same_but_tiles(old(self)),
            final(self).keeps_floors(old(self)),
            forall|a: int, b: int|
                final(self).in_bounds(a, b) ==> #[trigger] final(self).tile_at(a, b) == if a == x && (
                y1 <= b <= y2 || y2 <= b <= y1) {
                    TileType::Floor
                } else {
                    old(self).tile_at(a, b)
                },
    {
        let lo: i32 = if y1 < y2 { y1 } else { y2 };
        let hi: i32 = if y1 < y2 { y2 } else { y1 };
        let mut y: i32 = lo;
        while y <= hi
            invariant
                self.wf(),
                self.same_but_tiles(old(self)),
                0 <= lo <= y <= hi + 1,
                hi < self.height,
                0 <= x < self.width,
                lo == y1 || lo == y2,
                hi == y1 || hi == y2,
                lo <= y1 <= hi,
                lo <= y2 <= hi,
                forall|a: int, b: int|
                    self.in_bounds(a, b) ==> #[trigger] self.tile_at(a, b) == if a == x && lo <= b < y {
                        TileType::Floor
                    } else {
                        old(self).tile_at(a, b)
                    },
            decreases hi + 1 - y,
        {
            self.set_floor(x, y);
            y = y + 1;
        }
    }

    /// `room` overlaps none of the rooms already placed.
    pub open spec fn fits(&self, room: Rect) -> bool {
        forall|j: int| 0 <= j < self.rooms@.len() ==> !room.overlaps(#[trigger] self.rooms@[j])
    }

    /// Every room lies inside the grid with positive extent.
    pub open spec fn rooms_inside(&self) -> bool {
        forall|i: int|
            0 <= i < self.rooms@.len() ==> {
                let r = #[trigger] self.rooms@[i];
                &&& r.wf()
                &&& r.x2 < self.width
                &&& r.y2 < self.height
            }
    }

    /// Whether `room` overlaps none of the rooms already placed.
    pub fn room_fits(&self, room: &Rect) -> (r: bool)
        ensures
            r == self.fits(*room),
    {
        let mut k: usize = 0;
        while k < self.rooms.len()
            invariant
                k <= self.rooms@.len(),
                forall|j: int| 0 <= j < k ==> !room.overlaps(#[trigger] self.rooms@[j]),
            decreases self.rooms@.len() - k,
        {
            if room.intersect(&self.rooms[k]) {
                return false;
            }
            k = k + 1;
        }
        true
    }

    /// Carves `room` and appends it to the rooms; when a room was placed before,
    /// also carves the L-shaped corridor from its center to the new room's center,
    /// first along the row (`horizontal_first`) or first along the column.
    pub fn add_room(&mut self, room: &Rect, horizontal_first: bool)
        requires
            old(self).wf(),
            old(self).rooms_inside(),
            room.wf(),
            room.x2 < old(self).width,
            room.y2 < old(self).height,
        ensures
            final(self).wf(),
            final(self).rooms_inside(),
            final(self).width == old(self).width,
            final(self).height == old(self).height,
            final(self).revealed_tiles@ == old(self).revealed_tiles@,
            final(self).visible_tiles@ == old(self).visible_tiles@,
            final(self).layers@ == old(self).layers@,
            final(self).rooms@ == old(self).rooms@.push(*room),
            final(self).keeps_floors(old(self)),
            forall|a: int, b: int|
                final(self).in_bounds(a, b) ==> #[trigger] final(self).tile_at(a, b) == if room.in_interior(a, b)
                    || (old(self).rooms@.len() > 0 && on_corridor(
                    old(self).rooms@.last(),
                    *room,
                    horizontal_first,
                    a,
                    b,
                )) {
                    TileType::Floor
                } else {
                    old(self).tile_at(a, b)
                },
    {
        let ghost s0 = *self;
        self.apply_room_to_map(room);
        if self.rooms.len() > 0 {
            let (new_x, new_y) = room.center();
            let prev = self.rooms[self.rooms.len() - 1];
            assert(prev == s0.rooms@.last());
            assert(s0.rooms@[s0.rooms@.len() - 1].wf());
            let (prev_x, prev_y) = prev.center();
            if horizontal_first {
                self.apply_horizontal_tunnel(prev_x, new_x, prev_y);
                self.apply_vertical_tunnel(prev_y, new_y, new_x);
                assert forall|a: int, b: int| self.in_bounds(a, b) implies #[trigger] self.tile_at(a, b)
                    == if room.in_interior(a, b) || on_corridor(prev, *room, horizontal_first, a, b) {
                    TileType::Floor
                } else {
                    s0.tile_at(a, b)
                } by {}
            } else {
                self.apply_vertical_tunnel(prev_y, new_y, prev_x);
                self.apply_horizontal_tunnel(prev_x, new_x, new_y);
                assert forall|a: int, b: int| self.in_bounds(a, b) implies #[trigger] self.tile_at(a, b)
                    == if room.in_interior(a, b) || on_corridor(prev, *room, horizontal_first, a, b) {
                    TileType::Floor
                } else {
                    s0.tile_at(a, b)
                } by {}
            }
        }
        let ghost s3 = *self;
        assert(s3.keeps_floors(&s0));
        self.rooms.push(*room);
        assert forall|a: int, b: int| self.in_bounds(a, b) implies #[trigger] self.tile_at(a, b)
            == s3.tile_at(a, b) by {}
    }

    /// Builds a dungeon of `width` by `height` tiles: `max_rooms` attempts to place a
    /// random room, each kept only where it overlaps no room kept before, carved to
    /// floor and joined to the previous room by an L-shaped corridor between centers.
    pub fn generate(
        width: i32,
        height: i32,
        max_rooms: i32,
        min_room_size: i32,
        max_room_size: i32,
        seed: u64,
        layers: Vec<Layer>,
    ) -> (r: Grid)
        requires
            1 <= min_room_size < max_room_size,
            max_room_size < width,
            max_room_size < height,
            width * height <= usize::MAX,
            0 <= max_rooms,
        ensures
            r.wf(),
            r.width == width,
            r.height == height,
            r.layers@ == layers@,
            r.nothing_seen(),
            r.rooms_placed(min_room_size as int, max_room_size as int),
            r.rooms_disjoint(),
            r.rooms_carved(),
            r.rooms@.len() <= max_rooms,
            max_rooms >= 1 ==> r.rooms@.len() >= 1,
    {
        let mut map = Grid::new(width, height, layers);
        let mut rng = seeded_rng(seed);
        let mut attempt: i32 = 0;
        while attempt < max_rooms
            invariant
                map.wf(),
                map.width == width,
                map.height == height,
                map.layers@ == layers@,
                map.nothing_seen(),
                map.rooms_placed(min_room_size as int, max_room_size as int),
                map.rooms_disjoint(),
                map.rooms_carved(),
                1 <= min_room_size < max_room_size,
                max_room_size < width,
                max_room_size < height,
                0 <= attempt <= max_rooms,
                map.rooms@.len() <= attempt,
                attempt >= 1 ==> map.rooms@.len() >= 1,
            decreases max_rooms - attempt,
        {
            let w = rng_range(&mut rng, min_room_size, max_room_size);
            let h = rng_range(&mut rng, min_room_size, max_room_size);
            let x = rng_roll_dice(&mut rng, 1, map.width - w - 1) - 1;
            let y = rng_roll_dice(&mut rng, 1, map.height - h - 1) - 1;
            let new_room = Rect::new(x, y, w, h);
            let ok = map.room_fits(&new_room);
            if ok {
                let horizontal_first = if map.rooms.len() > 0 {
                    rng_range(&mut rng, 0, 2) == 1
                } else {
                    false
                };
                let ghost before = map;
                map.add_room(&new_room, horizontal_first);
                assert forall|i: int, a: int, b: int|
                    0 <= i < map.rooms@.len() && (#[trigger] map.rooms@[i]).in_interior(a, b)
                    implies #[trigger] map.tile_at(a, b) == TileType::Floor by {
                    if i < before.rooms@.len() {
                        assert(before.rooms@[i] == map.rooms@[i]);
                        assert(before.tile_at(a, b) == TileType::Floor);
                    }
                }
            }
            attempt = attempt + 1;
        }
        map
    }

    /// The default dungeon: 80 by 50 tiles, 30 placement attempts, rooms of 6 to 9
    /// tiles a side, with the given decorative layers.
    pub fn load(layers: Vec<Layer>, seed: u64) -> (r: Grid)
        ensures
            r.wf(),
            r.width == MAP_WIDTH,
            r.height == MAP_HEIGHT,
            r.layers@ == layers@,
            r.nothing_seen(),
            r.rooms_placed(MIN_ROOM_SIZE as int, MAX_ROOM_SIZE as int),
            r.rooms_disjoint(),
            r.rooms_carved(),
            1 <= r.rooms@.len() <= MAX_ROOMS,
    {
        Grid::generate(MAP_WIDTH, MAP_HEIGHT, MAX_ROOMS, MIN_ROOM_SIZE, MAX_ROOM_SIZE, seed, layers)
    }
}

} // verus!
