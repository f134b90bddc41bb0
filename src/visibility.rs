use vstd::prelude::*;
use crate::map::Grid;
use crate::world::lemma_view_depends_on_tiles;

verus! {

/// A tile coordinate.
#[derive(Clone, Copy, Debug, PartialEq, Eq, Structural)]
pub struct Position {
    pub x: i32,
    pub y: i32,
}

/// What an entity sees: the tiles in sight, how far it sees, and whether the
/// tiles must be recomputed before they are trusted.
pub struct Viewshed {
    pub visible_tiles: Vec<Position>,
    pub range: i32,
    pub dirty: bool,
}

pub open spec fn abs(v: int) -> int {
    if v < 0 {
        -v
    } else {
        v
    }
}

/// Chebyshev distance between two coordinates.
pub open spec fn chebyshev(a: Position, b: Position) -> int {
    let dx = abs(b.x - a.x);
    let dy = abs(b.y - a.y);
    if dx < dy {
        dy
    } else {
        dx
    }
}

/// One axis of the `k`-th of `n` steps of a ray from `o` to `t`, rounded to the
/// nearest tile (halves round up).
pub open spec fn ray_coord(o: int, t: int, n: int, k: int) -> int {
    (2 * (n * o) + 2 * (k * (t - o)) + n) / (2 * n)
}

/// The `k`-th step of the ray from `o` to `t` lands on an opaque tile.
pub open spec fn ray_blocked(map: &Grid, o: Position, t: Position, k: int) -> bool {
    let n = chebyshev(o, t);
    map.opaque_at(ray_coord(o.x as int, t.x as int, n, k), ray_coord(o.y as int, t.y as int, n, k))
}

/// No tile strictly between `o` and `t` on the ray from one to the other is opaque.
pub open spec fn line_clear(map: &Grid, o: Position, t: Position) -> bool {
    forall|k: int| 0 < k < chebyshev(o, t) ==> !#[trigger] ray_blocked(map, o, t, k)
}

/// `t` is seen from `o` with sight `range`: it lies on the grid, within range, and
/// the line to it is clear.
pub open spec fn in_view(map: &Grid, o: Position, range: int, t: Position) -> bool {
    &&& map.in_bounds(t.x as int, t.y as int)
    &&& chebyshev(o, t) <= range
    &&& line_clear(map, o, t)
}

proof fn lemma_ray_numerator(o: int, t: int, n: int, k: int)
    requires
        0 <= o <= i32::MAX,
        0 <= t <= i32::MAX,
        abs(t - o) <= n <= i32::MAX,
        0 < k < n,
    ensures
        0 <= n * o <= 0x4000_0000_0000_0000,
        -0x4000_0000_0000_0000 <= k * (t - o) <= 0x4000_0000_0000_0000,
        0 <= 2 * (n * o) + 2 * (k * (t - o)) + n,
{
    assert(0 <= n * o <= 0x4000_0000_0000_0000) by (nonlinear_arith)
        requires
            0 <= o <= 0x8000_0000,
            0 <= n <= 0x8000_0000,
    ;
    assert(-0x4000_0000_0000_0000 <= k * (t - o) <= 0x4000_0000_0000_0000) by (nonlinear_arith)
        requires
            0 < k <= 0x8000_0000,
            -0x8000_0000 <= t - o <= 0x8000_0000,
    ;
    if t < o {
        assert(k * (t - o) >= n * (t - o)) by (nonlinear_arith)
            requires
                k < n,
                t - o < 0,
        ;
        assert(n * o + n * (t - o) == n * t) by (nonlinear_arith);
        assert(n * t >= 0) by (nonlinear_arith)
            requires
                0 <= n,
                0 <= t,
        ;
    } else {
        assert(k * (t - o) >= 0) by (nonlinear_arith)
            requires
                0 < k,
                t - o >= 0,
        ;
    }
}

/// One axis of the `k`-th step of the ray, computed without overflow.
fn ray_step(o: i32, t: i32, n: i64, k: i64) -> (r: i128)
    requires
        0 <= o,
        0 <= t,
        abs(t - o) <= n <= i32::MAX,
        0 < k < n,
    ensures
        r == ray_coord(o as int, t as int, n as int, k as int),
{
    proof {
        lemma_ray_numerator(o as int, t as int, n as int, k as int);
    }
    let n2: i128 = 2 * n as i128;
    let num: i128 = 2 * (n as i128 * o as i128) + 2 * (k as i128 * (t as i128 - o as i128))
        + n as i128;
    num / n2
}

/// Whether the line from `o` to `t` crosses no opaque tile strictly between them.
pub fn ray_is_clear(map: &Grid, o: Position, t: Position) -> (r: bool)
    requires
        map.wf(),
        map.in_bounds(o.x as int, o.y as int),
        map.in_bounds(t.x as int, t.y as int),
    ensures
        r == line_clear(map, o, t),
{
    let dx: i64 = if t.x >= o.x { t.x as i64 - o.x as i64 } else { o.x as i64 - t.x as i64 };
    let dy: i64 = if t.y >= o.y { t.y as i64 - o.y as i64 } else { o.y as i64 - t.y as i64 };
    let n: i64 = if dx < dy { dy } else { dx };
    assert(n == chebyshev(o, t));
    let mut k: i64 = 1;
    while k < n
        invariant
            n == chebyshev(o, t),
            1 <= k,
            map.wf(),
            map.in_bounds(o.x as int, o.y as int),
            map.in_bounds(t.x as int, t.y as int),
            forall|j: int| 0 < j < k ==> !#[trigger] ray_blocked(map, o, t, j),
        decreases n - k,
    {
        let px = ray_step(o.x, t.x, n, k);
        let py = ray_step(o.y, t.y, n, k);
        if 0 <= px && px < map.width as i128 && 0 <= py && py < map.height as i128 {
            let idx = map.xy_idx(px as i32, py as i32);
            if map.is_opaque(idx) {
                assert(ray_blocked(map, o, t, k as int));
                return false;
            }
        }
        k = k + 1;
    }
    true
}

/// Every tile seen from `origin` with sight `range`, in row-major order.
pub fn field_of_view(map: &Grid, origin: Position, range: i32) -> (r: Vec<Position>)
    requires
        map.wf(),
        map.in_bounds(origin.x as int, origin.y as int),
        0 <= range,
    ensures
        forall|p: Position| #[trigger] r@.contains(p) <==> in_view(map, origin, range as int, p),
        r@.no_duplicates(),
{
    let mut r: Vec<Position> = Vec::new();
    let ox: i64 = origin.x as i64;
    let oy: i64 = origin.y as i64;
    let rg: i64 = range as i64;
    let x_lo: i64 = if ox - rg < 0 { 0 } else { ox - rg };
    let y_lo: i64 = if oy - rg < 0 { 0 } else { oy - rg };
    let x_hi: i64 = if ox + rg > map.width as i64 - 1 { map.width as i64 - 1 } else { ox + rg };
    let y_hi: i64 = if oy + rg > map.height as i64 - 1 { map.height as i64 - 1 } else { oy + rg };
    let mut y: i64 = y_lo;
    while y <= y_hi
        invariant
            map.wf(),
            map.in_bounds(origin.x as int, origin.y as int),
            0 <= range,
            ox == origin.x,
            oy == origin.y,
            rg == range,
            x_lo == (if ox - rg < 0 { 0 } else { ox - rg }),
            x_hi == (if ox + rg > map.width - 1 { map.width - 1 } else { ox + rg }),
            y_lo == (if oy - rg < 0 { 0 } else { oy - rg }),
            y_hi == (if oy + rg > map.height - 1 { map.height - 1 } else { oy + rg }),
            y_lo <= y <= y_hi + 1,
            r@.no_duplicates(),
            forall|p: Position|
                #[trigger] r@.contains(p) <==> in_view(map, origin, range as int, p) && p.y < y,
        decreases y_hi + 1 - y,
    {
        let mut x: i64 = x_lo;
        while x <= x_hi
            invariant
                map.wf(),
                map.in_bounds(origin.x as int, origin.y as int),
                0 <= range,
                ox == origin.x,
                oy == origin.y,
                rg == range,
                x_lo == (if ox - rg < 0 { 0 } else { ox - rg }),
                x_hi == (if ox + rg > map.width - 1 { map.width - 1 } else { ox + rg }),
                y_lo <= y <= y_hi,
                y_lo == (if oy - rg < 0 { 0 } else { oy - rg }),
                y_hi == (if oy + rg > map.height - 1 { map.height - 1 } else { oy + rg }),
                x_lo <= x <= x_hi + 1,
                r@.no_duplicates(),
                forall|p: Position|
                    #[trigger] r@.contains(p) <==> in_view(map, origin, range as int, p) && (p.y < y
                        || (p.y == y && p.x < x)),
            decreases x_hi + 1 - x,
        {
            let q = Position { x: x as i32, y: y as i32 };
            if ray_is_clear(map, origin, q) {
                let ghost before = r@;
                assert(!before.contains(q));
                r.push(q);
                assert forall|a: int, b: int| 0 <= a < b < r@.len() implies r@[a] != r@[b] by {
                    if b == before.len() {
                        assert(before.contains(r@[a]));
                    } else {
                        assert(before[a] == r@[a] && before[b] == r@[b]);
                    }
                }
                assert forall|p: Position| #[trigger] r@.contains(p) <==> before.contains(p) || p
                    == q by {
                    if p == q {
                        assert(r@[before.len() as int] == q);
                    } else if r@.contains(p) {
                        let j = choose|j: int| 0 <= j < r@.len() && r@[j] == p;
                        assert(before[j] == p);
                    } else if before.contains(p) {
                        let j = choose|j: int| 0 <= j < before.len() && before[j] == p;
                        assert(r@[j] == p);
                    }
                }
            }
            x = x + 1;
        }
        y = y + 1;
    }
    r
}

/// A tile farther than `range` from the origin is never among the tiles seen.
pub proof fn lemma_out_of_range_unseen(
    map: &Grid,
    o: Position,
    range: int,
    seen: Seq<Position>,
    t: Position,
)
    requires
        forall|p: Position| #[trigger] seen.contains(p) <==> in_view(map, o, range, p),
        chebyshev(o, t) > range,
    ensures
        !seen.contains(t),
{
}

/// A tile whose line from the origin crosses an opaque tile strictly between the
/// two is never among the tiles seen.
pub proof fn lemma_blocked_unseen(
    map: &Grid,
    o: Position,
    range: int,
    seen: Seq<Position>,
    t: Position,
    k: int,
)
    requires
        forall|p: Position| #[trigger] seen.contains(p) <==> in_view(map, o, range, p),
        0 < k < chebyshev(o, t),
        ray_blocked(map, o, t, k),
    ensures
        !seen.contains(t),
{
}

/// Recomputing sight from an unchanged origin and range over unchanged tiles gives
/// the same set of tiles, whatever happened to the grid's visible and revealed sets.
pub proof fn lemma_recompute_idempotent(
    m1: &Grid,
    m2: &Grid,
    o: Position,
    range: int,
    first: Seq<Position>,
    second: Seq<Position>,
)
    requires
        m1.width == m2.width,
        m1.height == m2.height,
        m1.tiles@ == m2.tiles@,
        forall|p: Position| #[trigger] first.contains(p) <==> in_view(m1, o, range, p),
        forall|p: Position| #[trigger] second.contains(p) <==> in_view(m2, o, range, p),
    ensures
        first.to_set() == second.to_set(),
{
    lemma_view_depends_on_tiles(m1, m2);
    assert forall|p: Position| #[trigger] first.to_set().contains(p) == second.to_set().contains(p) by {
        assert(in_view(m1, o, range, p) == in_view(m2, o, range, p));
    }
    assert(first.to_set() =~= second.to_set());
}

} // verus!
