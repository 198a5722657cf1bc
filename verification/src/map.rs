//! The tile grid: layout, derived layers and the room list.

use crate::rect::Rect;
use vstd::prelude::*;

verus! {

/// What a cell of the grid is made of.
#[derive(Clone, Copy, Debug, PartialEq, Eq, Structural)]
pub enum TileType {
    Wall,
    Floor,
}

/// A dungeon level: `width * height` tiles in row-major order, with one
/// entry per tile in each derived layer.
pub struct GridMap {
    pub tiles: Vec<TileType>,
    pub rooms: Vec<Rect>,
    pub width: i32,
    pub height: i32,
    /// Tiles the player has seen at some time.
    pub revealed_tiles: Vec<bool>,
    /// Tiles the player sees now.
    pub visible_tiles: Vec<bool>,
    /// Tiles that cannot be entered: walls, and floor held by a blocking actor.
    pub blocked: Vec<bool>,
    /// For each tile, the actors standing on it.
    pub tile_content: Vec<Vec<usize>>,
}

/// In a grid `w` wide and `h` high, the cell `(x, y)` has an index below `w * h`.
pub proof fn lemma_index_in_range(w: int, h: int, x: int, y: int)
    requires
        0 <= x < w,
        0 <= y < h,
    ensures
        0 <= y * w + x < w * h,
{
    assert(0 <= y * w) by (nonlinear_arith)
        requires
            0 <= y,
            0 < w,
    ;
    assert(y * w + w <= h * w) by (nonlinear_arith)
        requires
            y + 1 <= h,
            0 < w,
    ;
    assert(h * w == w * h) by (nonlinear_arith);
}

/// Two cells of one grid with the same index are the same cell.
pub proof fn lemma_index_injective(w: int, x1: int, y1: int, x2: int, y2: int)
    requires
        0 <= x1 < w,
        0 <= x2 < w,
        y1 * w + x1 == y2 * w + x2,
    ensures
        x1 == x2,
        y1 == y2,
{
    if y1 < y2 {
        assert(y1 * w + w <= y2 * w) by (nonlinear_arith)
            requires
                y1 + 1 <= y2,
                0 < w,
        ;
    } else if y2 < y1 {
        assert(y2 * w + w <= y1 * w) by (nonlinear_arith)
            requires
                y2 + 1 <= y1,
                0 < w,
        ;
    }
}

/// Every index below `w * h` belongs to the cell `(i % w, i / w)`.
pub proof fn lemma_index_surjective(w: int, h: int, i: int)
    requires
        0 < w,
        0 <= i < w * h,
    ensures
        0 <= i % w < w,
        0 <= i / w < h,
        (i / w) * w + i % w == i,
{
    vstd::arithmetic::div_mod::lemma_fundamental_div_mod(i, w);
    vstd::arithmetic::div_mod::lemma_mod_bound(i, w);
    let q = i / w;
    assert(w * q == q * w) by (nonlinear_arith);
    if q >= h {
        assert(q * w >= h * w) by (nonlinear_arith)
            requires
                q >= h,
                0 < w,
        ;
        assert(h * w == w * h) by (nonlinear_arith);
    }
    if q < 0 {
        assert(q * w <= -w) by (nonlinear_arith)
            requires
                q <= -1,
                0 < w,
        ;
    }
}

impl GridMap {
    /// The number of tiles.
    pub open spec fn tile_count(&self) -> int {
        self.width * self.height
    }

    /// The grid has a positive size, every layer has one entry per tile, and
    /// every wall is blocked.
    pub open spec fn wf(&self) -> bool {
        &&& 0 < self.width
        &&& 0 < self.height
        &&& self.tiles@.len() == self.tile_count()
        &&& self.revealed_tiles@.len() == self.tile_count()
        &&& self.visible_tiles@.len() == self.tile_count()
        &&& self.blocked@.len() == self.tile_count()
        &&& self.tile_content@.len() == self.tile_count()
        &&& forall|i: int|
            0 <= i < self.tiles@.len() && self.tiles@[i] == TileType::Wall
                ==> #[trigger] self.blocked@[i]
    }

    /// Whether `(x, y)` is a cell of the grid.
    pub open spec fn in_bounds(&self, x: int, y: int) -> bool {
        0 <= x < self.width && 0 <= y < self.height
    }

    /// The index of the cell `(x, y)` in every layer.
    pub open spec fn index_of(&self, x: int, y: int) -> int {
        y * self.width + x
    }

    /// The tile at `(x, y)`.
    pub open spec fn tile_at(&self, x: int, y: int) -> TileType {
        self.tiles@[self.index_of(x, y)]
    }

    /// Whether `(x, y)` is a floor cell of the grid.
    pub open spec fn is_floor(&self, x: int, y: int) -> bool {
        self.in_bounds(x, y) && self.tile_at(x, y) == TileType::Floor
    }

    /// Whether a step onto `(x, y)` is allowed: the cell lies on the map, is
    /// no wall and is not blocked.
    pub open spec fn exit_valid(&self, x: int, y: int) -> bool {
        &&& self.in_bounds(x, y)
        &&& self.tile_at(x, y) != TileType::Wall
        &&& !self.blocked@[self.index_of(x, y)]
    }

    /// Whether `self` differs from `before` in the layout alone.
    pub open spec fn same_frame(&self, before: &GridMap) -> bool {
        &&& self.width == before.width
        &&& self.height == before.height
        &&& self.tiles@.len() == before.tiles@.len()
        &&& self.rooms == before.rooms
        &&& self.revealed_tiles == before.revealed_tiles
        &&& self.visible_tiles == before.visible_tiles
        &&& self.blocked == before.blocked
        &&& self.tile_content == before.tile_content
    }

    /// `self` is `before` with the cells of the box `xa..=xb` by `ya..=yb`
    /// that lie on the map turned to floor, and nothing else changed.
    pub open spec fn carved_from(&self, before: &GridMap, xa: int, xb: int, ya: int, yb: int) -> bool {
        &&& self.same_frame(before)
        &&& forall|x: int, y: int|
            before.in_bounds(x, y) ==> #[trigger] self.tile_at(x, y) == if xa <= x <= xb && ya <= y
                <= yb {
                TileType::Floor
            } else {
                before.tile_at(x, y)
            }
    }

    /// A map of solid rock: every tile a wall, nothing seen, no rooms.
    pub fn new(width: i32, height: i32) -> (map: GridMap)
        requires
            0 < width,
            0 < height,
            width * height <= usize::MAX,
        ensures
            map.wf(),
            map.width == width,
            map.height == height,
            map.rooms@.len() == 0,
            forall|i: int| 0 <= i < map.tile_count() ==> map.tiles@[i] == TileType::Wall,
            forall|i: int| 0 <= i < map.tile_count() ==> !map.revealed_tiles@[i],
            forall|i: int| 0 <= i < map.tile_count() ==> !map.visible_tiles@[i],
            forall|i: int| 0 <= i < map.tile_count() ==> map.blocked@[i],
            forall|i: int| 0 <= i < map.tile_count() ==> map.tile_content@[i]@.len() == 0,
    {
        assert(0 <= width * height) by (nonlinear_arith)
            requires
                0 < width,
                0 < height,
        ;
        let n: usize = (width as usize) * (height as usize);
        let mut tile_content: Vec<Vec<usize>> = Vec::new();
        let mut i: usize = 0;
        while i < n
            invariant
                i <= n,
                tile_content@.len() == i,
                forall|j: int| 0 <= j < i ==> tile_content@[j]@.len() == 0,
            decreases n - i,
        {
            tile_content.push(Vec::new());
            i = i + 1;
        }
        GridMap {
            tiles: vec![TileType::Wall; n],
            rooms: Vec::new(),
            width,
            height,
            revealed_tiles: vec![false; n],
            visible_tiles: vec![false; n],
            blocked: vec![true; n],
            tile_content,
        }
    }

    /// The index of the cell `(x, y)`, which must lie on the map.
    pub fn xy_idx(&self, x: i32, y: i32) -> (idx: usize)
        requires
            self.wf(),
            self.in_bounds(x as int, y as int),
        ensures
            idx == self.index_of(x as int, y as int),
            idx < self.tile_count(),
    {
        proof {
            lemma_index_in_range(self.width as int, self.height as int, x as int, y as int);
            assert(0 <= y * self.width) by (nonlinear_arith)
                requires
                    0 <= y,
                    0 < self.width,
            ;
            assert(self.tiles@.len() == self.tiles.len());
        }
        (y as usize) * (self.width as usize) + (x as usize)
    }

    /// Whether `(x, y)` is a cell of the grid.
    pub fn contains(&self, x: i32, y: i32) -> (b: bool)
        ensures
            b == self.in_bounds(x as int, y as int),
    {
        0 <= x && x < self.width && 0 <= y && y < self.height
    }

    /// Whether the tile with index `idx` cannot be entered.
    pub fn is_blocked(&self, idx: usize) -> (b: bool)
        requires
            self.wf(),
            idx < self.tile_count(),
        ensures
            b == self.blocked@[idx as int],
    {
        self.blocked[idx]
    }

    /// Whether a step onto `(x, y)` is allowed.
    pub fn is_exit_valid(&self, x: i32, y: i32) -> (b: bool)
        requires
            self.wf(),
        ensures
            b == self.exit_valid(x as int, y as int),
    {
        if !self.contains(x, y) {
            return false;
        }
        let idx: usize = self.xy_idx(x, y);
        !self.blocked[idx]
    }

    /// Whether the player sees `(x, y)` now; no cell off the map is seen.
    pub fn is_visible(&self, x: i32, y: i32) -> (b: bool)
        requires
            self.wf(),
        ensures
            b == (self.in_bounds(x as int, y as int) && self.visible_tiles@[self.index_of(
                x as int,
                y as int,
            )]),
    {
        if !self.contains(x, y) {
            return false;
        }
        let idx: usize = self.xy_idx(x, y);
        self.visible_tiles[idx]
    }

    /// Whether the player has ever seen `(x, y)`.
    pub fn is_revealed(&self, x: i32, y: i32) -> (b: bool)
        requires
            self.wf(),
        ensures
            b == (self.in_bounds(x as int, y as int) && self.revealed_tiles@[self.index_of(
                x as int,
                y as int,
            )]),
    {
        if !self.contains(x, y) {
            return false;
        }
        let idx: usize = self.xy_idx(x, y);
        self.revealed_tiles[idx]
    }

    /// Rebuilds the blocked layer from the layout alone: a tile is blocked
    /// exactly when it is a wall.
    pub fn populate_blocked(&mut self)
        requires
            old(self).wf(),
        ensures
            final(self).wf(),
            final(self).tiles == old(self).tiles,
            final(self).rooms == old(self).rooms,
            final(self).width == old(self).width,
            final(self).height == old(self).height,
            final(self).revealed_tiles == old(self).revealed_tiles,
            final(self).visible_tiles == old(self).visible_tiles,
            final(self).tile_content == old(self).tile_content,
            forall|i: int|
                0 <= i < final(self).tile_count() ==> final(self).blocked@[i] == (final(self).tiles@[i]
                    == TileType::Wall),
    {
        let n: usize = self.tiles.len();
        let mut i: usize = 0;
        while i < n
            invariant
                i <= n,
                n == self.tiles@.len(),
                self.blocked@.len() == n,
                self.tiles == old(self).tiles,
                self.rooms == old(self).rooms,
                self.width == old(self).width,
                self.height == old(self).height,
                self.revealed_tiles == old(self).revealed_tiles,
                self.visible_tiles == old(self).visible_tiles,
                self.tile_content == old(self).tile_content,
                old(self).wf(),
                forall|j: int| 0 <= j < i ==> self.blocked@[j] == (self.tiles@[j] == TileType::Wall),
                forall|j: int|
                    i <= j < n && self.tiles@[j] == TileType::Wall ==> #[trigger] self.blocked@[j],
            decreases n - i,
        {
            let wall: bool = self.tiles[i] == TileType::Wall;
            self.blocked[i] = wall;
            i = i + 1;
        }
    }
    /// Turns every cell of the box `xa..=xb` by `ya..=yb` that lies on the
    /// map to floor.
    pub fn carve(&mut self, xa: i32, xb: i32, ya: i32, yb: i32)
        requires
            old(self).wf(),
        ensures
            final(self).wf(),
            final(self).carved_from(old(self), xa as int, xb as int, ya as int, yb as int),
    {
        let x_lo: i32 = if xa < 0 { 0 } else { xa };
        let x_hi: i32 = if xb >= self.width { self.width - 1 } else { xb };
        let y_lo: i32 = if ya < 0 { 0 } else { ya };
        let y_hi: i32 = if yb >= self.height { self.height - 1 } else { yb };
        if x_lo > x_hi || y_lo > y_hi {
            return ;
        }
        let mut y: i32 = y_lo;
        while y <= y_hi
            invariant
                self.wf(),
                self.same_frame(old(self)),
                0 <= x_lo <= x_hi < self.width,
                0 <= y_lo <= y <= y_hi + 1 <= self.height,
                x_lo == (if xa < 0 { 0 } else { xa as int }),
                x_hi == (if xb >= self.width { self.width - 1 } else { xb as int }),
                y_lo == (if ya < 0 { 0 } else { ya as int }),
                y_hi == (if yb >= self.height { self.height - 1 } else { yb as int }),
                forall|cx: int, cy: int|
                    self.in_bounds(cx, cy) ==> #[trigger] self.tile_at(cx, cy) == if x_lo <= cx
                        <= x_hi && y_lo <= cy < y {
                        TileType::Floor
                    } else {
                        old(self).tile_at(cx, cy)
                    },
            decreases y_hi + 1 - y,
        {
            let mut x: i32 = x_lo;
            while x <= x_hi
                invariant
                    self.wf(),
                    self.same_frame(old(self)),
                    0 <= x_lo <= x <= x_hi + 1 <= self.width,
                    0 <= y_lo <= y <= y_hi < self.height,
                    forall|cx: int, cy: int|
                        self.in_bounds(cx, cy) ==> #[trigger] self.tile_at(cx, cy) == if x_lo
                            <= cx <= x_hi && (y_lo <= cy < y || (cy == y && cx < x)) {
                            TileType::Floor
                        } else {
                            old(self).tile_at(cx, cy)
                        },
                decreases x_hi + 1 - x,
            {
                let idx: usize = self.xy_idx(x, y);
                let ghost prev = *self;
                self.tiles[idx] = TileType::Floor;
                proof {
                    assert forall|cx: int, cy: int| self.in_bounds(cx, cy) implies #[trigger] self.tile_at(
                        cx,
                        cy,
                    ) == if x_lo <= cx <= x_hi && (y_lo <= cy < y || (cy == y && cx < x + 1)) {
                        TileType::Floor
                    } else {
                        old(self).tile_at(cx, cy)
                    } by {
                        lemma_index_in_range(self.width as int, self.height as int, cx, cy);
                        if cx != x || cy != y {
                            if self.index_of(cx, cy) == idx {
                                lemma_index_injective(self.width as int, cx, cy, x as int, y as int);
                            }
                            assert(self.tile_at(cx, cy) == prev.tile_at(cx, cy));
                        }
                    }
                }
                x = x + 1;
            }
            y = y + 1;
        }
    }
    /// Opens up the interior of `room`, as far as it lies on the map.
    pub fn apply_room_to_map(&mut self, room: &Rect)
        requires
            old(self).wf(),
        ensures
            final(self).wf(),
            final(self).carved_from(old(self), room.x1 + 1, room.x2 as int, room.y1 + 1, room.y2 as int),
    {
        if room.x1 < i32::MAX && room.y1 < i32::MAX {
            self.carve(room.x1 + 1, room.x2, room.y1 + 1, room.y2);
        }
    }

    /// Opens up row `y` between the columns `x1` and `x2`, both included.
    pub fn apply_horizontal_tunnel(&mut self, x1: i32, x2: i32, y: i32)
        requires
            old(self).wf(),
        ensures
            final(self).wf(),
            final(self).carved_from(
                old(self),
                if x1 <= x2 { x1 as int } else { x2 as int },
                if x1 <= x2 { x2 as int } else { x1 as int },
                y as int,
                y as int,
            ),
    {
        if x1 <= x2 {
            self.carve(x1, x2, y, y);
        } else {
            self.carve(x2, x1, y, y);
        }
    }

    /// Opens up column `x` between the rows `y1` and `y2`, both included.
    pub fn apply_vertical_tunnel(&mut self, y1: i32, y2: i32, x: i32)
        requires
            old(self).wf(),
        ensures
            final(self).wf(),
            final(self).carved_from(
                old(self),
                x as int,
                x as int,
                if y1 <= y2 { y1 as int } else { y2 as int },
                if y1 <= y2 { y2 as int } else { y1 as int },
            ),
    {
        if y1 <= y2 {
            self.carve(x, x, y1, y2);
        } else {
            self.carve(x, x, y2, y1);
        }
    }
    /// Whether the map is well formed.
    pub fn is_well_formed(&self) -> (b: bool)
        ensures
            b == self.wf(),
    {
        if self.width <= 0 || self.height <= 0 {
            return false;
        }
        assert(0 <= self.width * self.height <= 0x7fff_ffff * 0x7fff_ffff) by (nonlinear_arith)
            requires
                0 < self.width <= 0x7fff_ffff,
                0 < self.height <= 0x7fff_ffff,
        ;
        let count: u64 = (self.width as u64) * (self.height as u64);
        let n: usize = self.tiles.len();
        if n as u64 != count || self.revealed_tiles.len() != n || self.visible_tiles.len() != n
            || self.blocked.len() != n || self.tile_content.len() != n {
            return false;
        }
        let mut i: usize = 0;
        while i < n
            invariant
                i <= n,
                n == self.tiles@.len(),
                n == self.blocked@.len(),
                forall|j: int|
                    0 <= j < i && self.tiles@[j] == TileType::Wall ==> #[trigger] self.blocked@[j],
            decreases n - i,
        {
            if self.tiles[i] == TileType::Wall && !self.blocked[i] {
                return false;
            }
            i = i + 1;
        }
        true
    }
}

} // verus!
