//! Lines of sight over a map, and the field of view they give.

use crate::components::Position;
use crate::map::{GridMap, TileType};
use vstd::prelude::*;

verus! {

/// The size of `v`.
pub open spec fn magnitude(v: int) -> int {
    if v >= 0 {
        v
    } else {
        -v
    }
}

/// The direction of `v`: -1, 0 or 1.
pub open spec fn direction(v: int) -> int {
    if v > 0 {
        1
    } else if v < 0 {
        -1
    } else {
        0
    }
}

/// The number of steps of the ray from `a` to `b`: the larger of the two
/// distances along the axes.
pub open spec fn ray_steps(a: (int, int), b: (int, int)) -> int {
    let dx = magnitude(b.0 - a.0);
    let dy = magnitude(b.1 - a.1);
    if dx >= dy {
        dx
    } else {
        dy
    }
}

/// How far a ray of `n` steps that covers the distance `d` along one axis
/// has come along that axis after `k` steps: `k * d / n`, rounded to the
/// nearest whole number, a half rounded away from zero.
pub open spec fn ray_offset(d: int, k: int, n: int) -> int {
    direction(d) * ((2 * k * magnitude(d) + n) / (2 * n))
}

/// The cell that the ray from `a` to `b` reaches after `k` steps.
pub open spec fn ray_cell(a: (int, int), b: (int, int), k: int) -> (int, int) {
    let n = ray_steps(a, b);
    (a.0 + ray_offset(b.0 - a.0, k, n), a.1 + ray_offset(b.1 - a.1, k, n))
}

/// Whether `b` lies within `range` of `a`, by the straight-line distance.
pub open spec fn within_range(a: (int, int), b: (int, int), range: int) -> bool {
    (b.0 - a.0) * (b.0 - a.0) + (b.1 - a.1) * (b.1 - a.1) <= range * range
}

/// The order in which the cells of a map are scanned: row by row, each row
/// from the left.
pub open spec fn scanned_before(a: Position, b: Position) -> bool {
    a.y < b.y || (a.y == b.y && a.x < b.x)
}

impl GridMap {
    /// Whether sight does not pass the cell `c`: it is a wall.
    pub open spec fn opaque_at(&self, c: (int, int)) -> bool {
        self.tile_at(c.0, c.1) == TileType::Wall
    }

    /// Whether no wall stands on the ray from `a` to `b` strictly between
    /// its two ends.
    pub open spec fn ray_clear(&self, a: (int, int), b: (int, int)) -> bool {
        forall|k: int| 0 < k < ray_steps(a, b) ==> !self.opaque_at(#[trigger] ray_cell(a, b, k))
    }

    /// Whether an actor at `a` with sight range `range` sees the cell `b`:
    /// both lie on the map, `b` is within range, and the ray from one of
    /// them to the other is clear.
    pub open spec fn sees(&self, a: (int, int), range: int, b: (int, int)) -> bool {
        &&& self.in_bounds(a.0, a.1)
        &&& self.in_bounds(b.0, b.1)
        &&& range > 0
        &&& within_range(a, b, range)
        &&& (self.ray_clear(a, b) || self.ray_clear(b, a))
    }

    /// Whether `tiles` is the field of view of an actor at `a` with sight
    /// range `range`: the cells it sees, each once, in scanning order.
    pub open spec fn is_field_of_view(&self, a: (int, int), range: int, tiles: Seq<Position>) -> bool {
        &&& forall|p: Position| tiles.contains(p) <==> self.sees(a, range, p.point())
        &&& forall|i: int, j: int|
            0 <= i < j < tiles.len() ==> scanned_before(#[trigger] tiles[i], #[trigger] tiles[j])
    }
}

/// A ray never leaves the box spanned by its two ends.
pub proof fn lemma_ray_offset_bounded(d: int, k: int, n: int)
    requires
        0 <= k <= n,
        0 < n,
        magnitude(d) <= n,
    ensures
        0 <= (2 * k * magnitude(d) + n) / (2 * n) <= magnitude(d),
        d >= 0 ==> 0 <= ray_offset(d, k, n) <= d,
        d <= 0 ==> d <= ray_offset(d, k, n) <= 0,
{
    let m = magnitude(d);
    let num = 2 * k * m + n;
    assert(0 <= 2 * k * m <= 2 * n * m) by (nonlinear_arith)
        requires
            0 <= k <= n,
            0 <= m,
    ;
    assert(num < (2 * n) * (m + 1)) by (nonlinear_arith)
        requires
            num == 2 * k * m + n,
            2 * k * m <= 2 * n * m,
            0 < n,
    ;
    vstd::arithmetic::div_mod::lemma_multiply_divide_lt(num, 2 * n, m + 1);
    vstd::arithmetic::div_mod::lemma_div_pos_is_pos(num, 2 * n);
    let q = num / (2 * n);
    assert(1 * q == q && (-1) * q == -q && 0 * q == 0) by (nonlinear_arith);
}

/// A cell within range is no further than `range` along either axis.
pub proof fn lemma_within_range_box(a: (int, int), b: (int, int), range: int)
    requires
        range >= 0,
        within_range(a, b, range),
    ensures
        magnitude(b.0 - a.0) <= range,
        magnitude(b.1 - a.1) <= range,
{
    let dx = b.0 - a.0;
    let dy = b.1 - a.1;
    assert(dx * dx >= 0 && dy * dy >= 0) by (nonlinear_arith);
    if magnitude(dx) > range {
        assert(dx * dx > range * range) by (nonlinear_arith)
            requires
                magnitude(dx) >= range + 1,
                range >= 0,
        ;
    }
    if magnitude(dy) > range {
        assert(dy * dy > range * range) by (nonlinear_arith)
            requires
                magnitude(dy) >= range + 1,
                range >= 0,
        ;
    }
}

/// Whether `(bx, by)` lies within `range` of `(ax, ay)`.
pub fn in_range(ax: i32, ay: i32, bx: i32, by: i32, range: i32) -> (b: bool)
    ensures
        b == (range >= 0 && within_range((ax as int, ay as int), (bx as int, by as int), range as int)),
{
    if range < 0 {
        return false;
    }
    let dx: i64 = bx as i64 - ax as i64;
    let dy: i64 = by as i64 - ay as i64;
    let r: i64 = range as i64;
    proof {
        assert(r * r <= 0x7fff_ffff * 0x7fff_ffff) by (nonlinear_arith)
            requires
                0 <= r <= 0x7fff_ffff,
        ;
        if magnitude(dx as int) > r {
            assert(dx * dx > r * r) by (nonlinear_arith)
                requires
                    magnitude(dx as int) >= r + 1,
                    r >= 0,
            ;
        }
        if magnitude(dy as int) > r {
            assert(dy * dy > r * r) by (nonlinear_arith)
                requires
                    magnitude(dy as int) >= r + 1,
                    r >= 0,
            ;
        }
        assert(dx * dx >= 0 && dy * dy >= 0) by (nonlinear_arith);
    }
    if dx > r || dx < -r || dy > r || dy < -r {
        return false;
    }
    proof {
        lemma_square_grows(dx as int, r as int);
        lemma_square_grows(dy as int, r as int);
    }
    dx * dx + dy * dy <= r * r
}

/// A number no larger in size than `bound` has a square no larger than
/// that of `bound`.
pub proof fn lemma_square_grows(v: int, bound: int)
    requires
        magnitude(v) <= bound,
    ensures
        0 <= v * v <= bound * bound,
{
    assert(0 <= v * v <= bound * bound) by (nonlinear_arith)
        requires
            -bound <= v <= bound,
    ;
}

impl GridMap {
    /// Whether no wall stands on the ray from `(ax, ay)` to `(bx, by)`
    /// strictly between its two ends. Both ends lie on the map.
    pub fn is_ray_clear(&self, ax: i32, ay: i32, bx: i32, by: i32) -> (clear: bool)
        requires
            self.wf(),
            self.in_bounds(ax as int, ay as int),
            self.in_bounds(bx as int, by as int),
        ensures
            clear == self.ray_clear((ax as int, ay as int), (bx as int, by as int)),
    {
        let ghost a = (ax as int, ay as int);
        let ghost b = (bx as int, by as int);
        let mx: u64 = if bx >= ax { (bx - ax) as u64 } else { (ax - bx) as u64 };
        let my: u64 = if by >= ay { (by - ay) as u64 } else { (ay - by) as u64 };
        let n: u64 = if mx >= my { mx } else { my };
        assert(mx == magnitude(b.0 - a.0) && my == magnitude(b.1 - a.1) && n == ray_steps(a, b));
        let mut k: u64 = 1;
        while k < n
            invariant
                self.wf(),
                self.in_bounds(ax as int, ay as int),
                self.in_bounds(bx as int, by as int),
                a == (ax as int, ay as int),
                b == (bx as int, by as int),
                mx == magnitude(b.0 - a.0),
                my == magnitude(b.1 - a.1),
                n == ray_steps(a, b),
                n <= 0x7fff_ffff,
                1 <= k,
                k <= n || n == 0,
                forall|j: int| 0 < j < k ==> !self.opaque_at(#[trigger] ray_cell(a, b, j)),
            decreases n - k,
        {
            proof {
                lemma_ray_offset_bounded(b.0 - a.0, k as int, n as int);
                lemma_ray_offset_bounded(b.1 - a.1, k as int, n as int);
                assert(0 <= 2 * k * mx <= 2 * 0x7fff_ffff * 0x7fff_ffff) by (nonlinear_arith)
                    requires
                        0 <= k <= 0x7fff_ffff,
                        0 <= mx <= 0x7fff_ffff,
                ;
                assert(0 <= 2 * k * my <= 2 * 0x7fff_ffff * 0x7fff_ffff) by (nonlinear_arith)
                    requires
                        0 <= k <= 0x7fff_ffff,
                        0 <= my <= 0x7fff_ffff,
                ;
            }
            let ox: u64 = (2 * k * mx + n) / (2 * n);
            let oy: u64 = (2 * k * my + n) / (2 * n);
            let cx: i32 = if bx >= ax { ax + ox as i32 } else { ax - ox as i32 };
            let cy: i32 = if by >= ay { ay + oy as i32 } else { ay - oy as i32 };
            proof {
                let q = (2 * k * magnitude(b.0 - a.0) + n) / (2 * n as int);
                assert(1 * q == q && (-1) * q == -q && 0 * q == 0) by (nonlinear_arith);
                let p = (2 * k * magnitude(b.1 - a.1) + n) / (2 * n as int);
                assert(1 * p == p && (-1) * p == -p && 0 * p == 0) by (nonlinear_arith);
                assert(ray_cell(a, b, k as int) == (cx as int, cy as int));
            }
            let idx: usize = self.xy_idx(cx, cy);
            if self.tiles[idx] == TileType::Wall {
                assert(self.opaque_at(ray_cell(a, b, k as int)));
                return false;
            }
            k = k + 1;
        }
        true
    }

    /// Whether an actor at `(ax, ay)` with sight range `range` sees the
    /// cell `(bx, by)`.
    pub fn can_see(&self, ax: i32, ay: i32, range: i32, bx: i32, by: i32) -> (seen: bool)
        requires
            self.wf(),
        ensures
            seen == self.sees((ax as int, ay as int), range as int, (bx as int, by as int)),
    {
        if range <= 0 || !self.contains(ax, ay) || !self.contains(bx, by) {
            return false;
        }
        if !in_range(ax, ay, bx, by, range) {
            return false;
        }
        if self.is_ray_clear(ax, ay, bx, by) {
            return true;
        }
        self.is_ray_clear(bx, by, ax, ay)
    }
    /// The field of view of an actor at `(x, y)` with sight range `range`:
    /// every cell it sees, each once, in scanning order. An actor off the
    /// map, or one with a range of zero or less, sees nothing.
    pub fn field_of_view(&self, x: i32, y: i32, range: i32) -> (tiles: Vec<Position>)
        requires
            self.wf(),
        ensures
            self.is_field_of_view((x as int, y as int), range as int, tiles@),
    {
        let ghost a = (x as int, y as int);
        let mut tiles: Vec<Position> = Vec::new();
        if range <= 0 || !self.contains(x, y) {
            assert forall|p: Position| tiles@.contains(p) <==> self.sees(a, range as int, p.point()) by {}
            return tiles;
        }
        let x_lo: i32 = if x < range { 0 } else { x - range };
        let y_lo: i32 = if y < range { 0 } else { y - range };
        let x_hi: i32 = if range >= self.width - x { self.width - 1 } else { x + range };
        let y_hi: i32 = if range >= self.height - y { self.height - 1 } else { y + range };
        proof {
            assert forall|p: Position| #[trigger] self.sees(a, range as int, p.point()) implies x_lo
                <= p.x <= x_hi && y_lo <= p.y <= y_hi by {
                lemma_within_range_box(a, p.point(), range as int);
            }
        }
        let mut cy: i32 = y_lo;
        while cy <= y_hi
            invariant
                self.wf(),
                a == (x as int, y as int),
                0 <= x_lo <= x_hi < self.width,
                0 <= y_lo <= cy <= y_hi + 1 <= self.height,
                forall|p: Position| #[trigger]
                    self.sees(a, range as int, p.point()) ==> x_lo <= p.x <= x_hi && y_lo <= p.y
                        <= y_hi,
                forall|p: Position| #[trigger]
                    tiles@.contains(p) <==> self.sees(a, range as int, p.point()) && p.y < cy,
                forall|i: int, j: int|
                    0 <= i < j < tiles@.len() ==> scanned_before(#[trigger] tiles@[i], #[trigger] tiles@[j]),
            decreases y_hi + 1 - cy,
        {
            let mut cx: i32 = x_lo;
            while cx <= x_hi
                invariant
                    self.wf(),
                    a == (x as int, y as int),
                    0 <= x_lo <= cx <= x_hi + 1 <= self.width,
                    0 <= y_lo <= cy <= y_hi < self.height,
                    forall|p: Position| #[trigger]
                        self.sees(a, range as int, p.point()) ==> x_lo <= p.x <= x_hi && y_lo
                            <= p.y <= y_hi,
                    forall|p: Position| #[trigger]
                        tiles@.contains(p) <==> self.sees(a, range as int, p.point()) && (p.y < cy || (
                        p.y == cy && p.x < cx)),
                    forall|i: int, j: int|
                        0 <= i < j < tiles@.len() ==> scanned_before(
                            #[trigger] tiles@[i],
                            #[trigger] tiles@[j],
                        ),
                decreases x_hi + 1 - cx,
            {
                let here = Position { x: cx, y: cy };
                let ghost found = tiles@;
                if self.can_see(x, y, range, cx, cy) {
                    tiles.push(here);
                    proof {
                        assert forall|p: Position| #[trigger]
                            tiles@.contains(p) <==> found.contains(p) || p == here by {
                            vstd::seq_lib::lemma_seq_contains_after_push(found, here, p);
                        }
                        assert forall|i: int, j: int| 0 <= i < j < tiles@.len() implies scanned_before(
                            #[trigger] tiles@[i],
                            #[trigger] tiles@[j],
                        ) by {
                            if j == found.len() {
                                assert(found.contains(tiles@[i]));
                            }
                        }
                    }
                }
                cx = cx + 1;
            }
            cy = cy + 1;
        }
        tiles
    }
}

/// Sight is symmetric: an actor at `a` sees `b` exactly when an actor at `b`
/// with the same range sees `a`.
pub proof fn lemma_sight_symmetric(map: &GridMap, a: (int, int), b: (int, int), range: int)
    ensures
        map.sees(a, range, b) == map.sees(b, range, a),
{
    let dx = b.0 - a.0;
    let dy = b.1 - a.1;
    assert((a.0 - b.0) * (a.0 - b.0) == dx * dx) by (nonlinear_arith)
        requires
            dx == b.0 - a.0,
    ;
    assert((a.1 - b.1) * (a.1 - b.1) == dy * dy) by (nonlinear_arith)
        requires
            dy == b.1 - a.1,
    ;
}

/// An actor sees itself whenever it stands on the map and has a range above
/// zero.
pub proof fn lemma_sees_own_cell(map: &GridMap, a: (int, int), range: int)
    requires
        map.in_bounds(a.0, a.1),
        range > 0,
    ensures
        map.sees(a, range, a),
{
    assert(0 <= range * range) by (nonlinear_arith);
}

/// Over open ground nothing is hidden: where no cell of the box spanned by
/// `a` and `b` is a wall, an actor at `a` sees `b` as soon as `b` is within
/// its range.
pub proof fn lemma_open_ground_is_seen(map: &GridMap, a: (int, int), b: (int, int), range: int)
    requires
        map.in_bounds(a.0, a.1),
        map.in_bounds(b.0, b.1),
        range > 0,
        within_range(a, b, range),
        forall|x: int, y: int|
            (a.0 <= x <= b.0 || b.0 <= x <= a.0) && (a.1 <= y <= b.1 || b.1 <= y <= a.1)
                ==> !map.opaque_at((x, y)),
    ensures
        map.sees(a, range, b),
{
    let n = ray_steps(a, b);
    assert forall|k: int| 0 < k < n implies !map.opaque_at(#[trigger] ray_cell(a, b, k)) by {
        lemma_ray_offset_bounded(b.0 - a.0, k, n);
        lemma_ray_offset_bounded(b.1 - a.1, k, n);
    }
}

/// Along a ray that runs straight along a row, a column or a diagonal, the
/// cell reached after `k` steps is `k` whole steps from the start.
pub proof fn lemma_straight_ray(a: (int, int), b: (int, int), k: int)
    requires
        0 <= k <= ray_steps(a, b),
        0 < ray_steps(a, b),
        b.0 == a.0 || magnitude(b.0 - a.0) == ray_steps(a, b),
        b.1 == a.1 || magnitude(b.1 - a.1) == ray_steps(a, b),
    ensures
        ray_cell(a, b, k) == (a.0 + k * direction(b.0 - a.0), a.1 + k * direction(b.1 - a.1)),
{
    let n = ray_steps(a, b);
    assert((2 * k * n + n) / (2 * n) == k) by {
        assert(2 * k * n + n == (2 * n) * k + n) by (nonlinear_arith);
        vstd::arithmetic::div_mod::lemma_fundamental_div_mod_converse(2 * k * n + n, 2 * n, k, n);
    }
    assert((2 * k * 0 + n) / (2 * n) == 0) by {
        assert(2 * k * 0 + n == (2 * n) * 0 + n) by (nonlinear_arith);
        vstd::arithmetic::div_mod::lemma_fundamental_div_mod_converse(2 * k * 0 + n, 2 * n, 0, n);
    }
    assert(1 * k == k && (-1) * k == -k && 0 * k == 0 && k * 1 == k && k * (-1) == -k && k * 0 == 0)
        by (nonlinear_arith);
}

/// A wall blocks sight along a straight ray: standing `k` whole steps from
/// `a` on the row, column or diagonal that leads to `b`, strictly between
/// the two, it hides `b` from an actor at `a`.
pub proof fn lemma_wall_blocks_straight_ray(map: &GridMap, a: (int, int), b: (int, int), range: int, k: int)
    requires
        0 < k < ray_steps(a, b),
        b.0 == a.0 || magnitude(b.0 - a.0) == ray_steps(a, b),
        b.1 == a.1 || magnitude(b.1 - a.1) == ray_steps(a, b),
        map.opaque_at((a.0 + k * direction(b.0 - a.0), a.1 + k * direction(b.1 - a.1))),
    ensures
        !map.sees(a, range, b),
{
    let n = ray_steps(a, b);
    let w = (a.0 + k * direction(b.0 - a.0), a.1 + k * direction(b.1 - a.1));
    lemma_straight_ray(a, b, k);
    assert(ray_cell(a, b, k) == w);
    assert(ray_steps(b, a) == n);
    lemma_straight_ray(b, a, n - k);
    assert(ray_cell(b, a, n - k) == w) by {
        let dx = direction(b.0 - a.0);
        let dy = direction(b.1 - a.1);
        assert(direction(a.0 - b.0) == -dx && direction(a.1 - b.1) == -dy);
        assert(b.0 == a.0 + n * dx) by (nonlinear_arith)
            requires
                b.0 == a.0 || magnitude(b.0 - a.0) == n,
                dx == direction(b.0 - a.0),
        ;
        assert(b.1 == a.1 + n * dy) by (nonlinear_arith)
            requires
                b.1 == a.1 || magnitude(b.1 - a.1) == n,
                dy == direction(b.1 - a.1),
        ;
        assert(b.0 + (n - k) * (-dx) == a.0 + k * dx) by (nonlinear_arith)
            requires
                b.0 == a.0 + n * dx,
        ;
        assert(b.1 + (n - k) * (-dy) == a.1 + k * dy) by (nonlinear_arith)
            requires
                b.1 == a.1 + n * dy,
        ;
    }
}

/// Two sequences in scanning order agree on their first `n` entries when
/// they hold the same positions.
proof fn lemma_scans_agree(s: Seq<Position>, t: Seq<Position>, n: int)
    requires
        forall|p: Position| s.contains(p) <==> t.contains(p),
        forall|i: int, j: int| 0 <= i < j < s.len() ==> scanned_before(#[trigger] s[i], #[trigger] s[j]),
        forall|i: int, j: int| 0 <= i < j < t.len() ==> scanned_before(#[trigger] t[i], #[trigger] t[j]),
        0 <= n <= s.len(),
        n <= t.len(),
    ensures
        forall|i: int| 0 <= i < n ==> s[i] == t[i],
    decreases n,
{
    if n > 0 {
        lemma_scans_agree(s, t, n - 1);
        let i = n - 1;
        assert(s.contains(s[i]));
        let m = choose|m: int| 0 <= m < t.len() && t[m] == s[i];
        if m < i {
            assert(scanned_before(s[m], s[i]));
        }
        assert(t.contains(t[i]));
        let l = choose|l: int| 0 <= l < s.len() && s[l] == t[i];
        if l < i {
            assert(scanned_before(t[l], t[i]));
        }
        if m > i {
            assert(scanned_before(t[i], t[m]));
        }
        if l > i {
            assert(scanned_before(s[i], s[l]));
        }
    }
}

/// Two sequences in scanning order that hold the same positions are equal.
pub proof fn lemma_scan_unique(s: Seq<Position>, t: Seq<Position>)
    requires
        forall|p: Position| s.contains(p) <==> t.contains(p),
        forall|i: int, j: int| 0 <= i < j < s.len() ==> scanned_before(#[trigger] s[i], #[trigger] s[j]),
        forall|i: int, j: int| 0 <= i < j < t.len() ==> scanned_before(#[trigger] t[i], #[trigger] t[j]),
    ensures
        s == t,
{
    let n = if s.len() <= t.len() {
        s.len() as int
    } else {
        t.len() as int
    };
    lemma_scans_agree(s, t, n);
    if s.len() > n {
        assert(s.contains(s[n]));
        let m = choose|m: int| 0 <= m < t.len() && t[m] == s[n];
        assert(scanned_before(s[m], s[n]));
    }
    if t.len() > n {
        assert(t.contains(t[n]));
        let m = choose|m: int| 0 <= m < s.len() && s[m] == t[n];
        assert(scanned_before(t[m], t[n]));
    }
    assert(s =~= t);
}

/// The field of view is determined by the map, the place and the range.
pub proof fn lemma_field_of_view_unique(
    map: &GridMap,
    a: (int, int),
    range: int,
    s: Seq<Position>,
    t: Seq<Position>,
)
    requires
        map.is_field_of_view(a, range, s),
        map.is_field_of_view(a, range, t),
    ensures
        s == t,
{
    lemma_scan_unique(s, t);
}

} // verus!
