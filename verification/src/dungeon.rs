//! Dungeon generation: rooms placed at random and joined by corridors.

use crate::map::{lemma_index_in_range, GridMap, TileType};
use crate::paths::{
    between, lemma_connected_kept, lemma_connected_self, lemma_connected_sym,
    lemma_connected_trans, lemma_corridor_connected, on_corridor,
};
use crate::random::{draw_range, roll_die};
use crate::rect::{lemma_midpoint_interior, Rect};
use rltk::RandomNumberGenerator;
use vstd::prelude::*;

verus! {

impl GridMap {
    /// Whether `room` can be added: it lies on the map and shares no point
    /// with a room that is there already.
    pub open spec fn room_fits(&self, room: Rect) -> bool {
        &&& room.inside(self.width as int, self.height as int)
        &&& forall|i: int| 0 <= i < self.rooms@.len() ==> !room.overlaps(#[trigger] self.rooms@[i])
    }

    /// Every room lies on the map, no two rooms share a point, and the
    /// interior of every room is floor.
    pub open spec fn rooms_placed(&self) -> bool {
        &&& forall|i: int|
            0 <= i < self.rooms@.len() ==> (#[trigger] self.rooms@[i]).inside(
                self.width as int,
                self.height as int,
            )
        &&& forall|i: int, j: int|
            0 <= i < j < self.rooms@.len() ==> !(#[trigger] self.rooms@[i]).overlaps(
                #[trigger] self.rooms@[j],
            )
        &&& forall|i: int, x: int, y: int|
            0 <= i < self.rooms@.len() && #[trigger] self.rooms@[i].interior(x, y)
                ==> self.is_floor(x, y)
    }

    /// The midpoint of every room can be reached from the midpoint of the
    /// first room over floor alone.
    pub open spec fn rooms_connected(&self) -> bool {
        forall|i: int|
            0 <= i < self.rooms@.len() ==> self.connected(
                self.rooms@[0].midpoint(),
                (#[trigger] self.rooms@[i]).midpoint(),
            )
    }

    /// Whether `(x, y)` was opened when room `i` was added: a cell of its
    /// interior, or of a bent corridor from the midpoint of the room before.
    pub open spec fn opened_by(&self, i: int, x: int, y: int) -> bool {
        ||| self.rooms@[i].interior(x, y)
        ||| (i >= 1 && on_corridor(self.rooms@[i - 1].midpoint(), self.rooms@[i].midpoint(), true, x, y))
        ||| (i >= 1 && on_corridor(self.rooms@[i - 1].midpoint(), self.rooms@[i].midpoint(), false, x, y))
    }

    /// Every floor cell belongs to a room or to the corridor that joined a
    /// room to the one before it.
    pub open spec fn floor_accounted(&self) -> bool {
        forall|x: int, y: int| #[trigger]
            self.is_floor(x, y) ==> exists|i: int|
                0 <= i < self.rooms@.len() && #[trigger] self.opened_by(i, x, y)
    }

    /// `self` is `before` with `room` added last: its interior is floor, and
    /// so is a bent corridor from the midpoint of the room that was last
    /// before, if there was one. Nothing else differs.
    pub open spec fn room_added(&self, before: &GridMap, room: Rect, horizontal_first: bool) -> bool {
        &&& self.width == before.width
        &&& self.height == before.height
        &&& self.tiles@.len() == before.tiles@.len()
        &&& self.revealed_tiles == before.revealed_tiles
        &&& self.visible_tiles == before.visible_tiles
        &&& self.blocked == before.blocked
        &&& self.tile_content == before.tile_content
        &&& self.rooms@ == before.rooms@.push(room)
        &&& forall|x: int, y: int|
            before.in_bounds(x, y) ==> #[trigger] self.tile_at(x, y) == if room.interior(x, y) || (
            before.rooms@.len() > 0 && on_corridor(
                before.rooms@.last().midpoint(),
                room.midpoint(),
                horizontal_first,
                x,
                y,
            )) {
                TileType::Floor
            } else {
                before.tile_at(x, y)
            }
    }

    /// Whether `room` can be added to the map.
    pub fn can_place(&self, room: &Rect) -> (b: bool)
        ensures
            b == self.room_fits(*room),
    {
        let on_map: bool = 0 <= room.x1 && room.x1 as i64 + 2 <= room.x2 as i64 && room.x2
            < self.width && 0 <= room.y1 && room.y1 as i64 + 2 <= room.y2 as i64 && room.y2
            < self.height;
        if !on_map {
            return false;
        }
        let n: usize = self.rooms.len();
        let mut i: usize = 0;
        while i < n
            invariant
                i <= n,
                n == self.rooms@.len(),
                forall|j: int| 0 <= j < i ==> !room.overlaps(#[trigger] self.rooms@[j]),
            decreases n - i,
        {
            if room.intersect(&self.rooms[i]) {
                return false;
            }
            i = i + 1;
        }
        true
    }

    /// Adds `room` if it fits, and says whether it did. A room that is
    /// added has its interior opened up, is joined to the room added before
    /// it by a bent corridor between the two midpoints, which runs along the
    /// row first when `horizontal_first` is set, and becomes the last room.
    /// The blocked layer is left as it was.
    pub fn add_room(&mut self, room: Rect, horizontal_first: bool) -> (accepted: bool)
        requires
            old(self).wf(),
        ensures
            final(self).wf(),
            accepted == old(self).room_fits(room),
            !accepted ==> *final(self) == *old(self),
            accepted ==> final(self).room_added(old(self), room, horizontal_first),
    {
        if !self.can_place(&room) {
            return false;
        }
        self.apply_room_to_map(&room);
        let ghost opened = *self;
        let n: usize = self.rooms.len();
        if n > 0 {
            let (new_x, new_y) = room.center();
            let (prev_x, prev_y) = self.rooms[n - 1].center();
            let ghost a = old(self).rooms@.last().midpoint();
            let ghost b = room.midpoint();
            assert(a == (prev_x as int, prev_y as int) && b == (new_x as int, new_y as int));
            if horizontal_first {
                self.apply_horizontal_tunnel(prev_x, new_x, prev_y);
                let ghost half_way = *self;
                self.apply_vertical_tunnel(prev_y, new_y, new_x);
                assert forall|x: int, y: int| self.in_bounds(x, y) implies #[trigger] self.tile_at(x, y)
                    == if room.interior(x, y) || on_corridor(a, b, horizontal_first, x, y) {
                    TileType::Floor
                } else {
                    old(self).tile_at(x, y)
                } by {
                    assert(half_way.tile_at(x, y) == if y == a.1 && between(a.0, b.0, x) {
                        TileType::Floor
                    } else {
                        opened.tile_at(x, y)
                    });
                }
            } else {
                self.apply_vertical_tunnel(prev_y, new_y, prev_x);
                let ghost half_way = *self;
                self.apply_horizontal_tunnel(prev_x, new_x, new_y);
                assert forall|x: int, y: int| self.in_bounds(x, y) implies #[trigger] self.tile_at(x, y)
                    == if room.interior(x, y) || on_corridor(a, b, horizontal_first, x, y) {
                    TileType::Floor
                } else {
                    old(self).tile_at(x, y)
                } by {
                    assert(half_way.tile_at(x, y) == if x == a.0 && between(a.1, b.1, y) {
                        TileType::Floor
                    } else {
                        opened.tile_at(x, y)
                    });
                }
            }
        }
        let ghost carved = *self;
        self.rooms.push(room);
        assert forall|x: int, y: int| old(self).in_bounds(x, y) implies #[trigger] self.tile_at(x, y)
            == if room.interior(x, y) || (old(self).rooms@.len() > 0 && on_corridor(
            old(self).rooms@.last().midpoint(),
            room.midpoint(),
            horizontal_first,
            x,
            y,
        )) {
            TileType::Floor
        } else {
            old(self).tile_at(x, y)
        } by {
            assert(self.tile_at(x, y) == carved.tile_at(x, y));
            assert(opened.tile_at(x, y) == if room.interior(x, y) {
                TileType::Floor
            } else {
                old(self).tile_at(x, y)
            });
        }
        true
    }
}

/// Adding a room that fits keeps the rooms on the map, apart from each other
/// and open.
pub proof fn lemma_add_room_keeps_placed(before: &GridMap, after: &GridMap, room: Rect, horizontal_first: bool)
    requires
        before.rooms_placed(),
        before.room_fits(room),
        after.room_added(before, room, horizontal_first),
    ensures
        after.rooms_placed(),
        before.floor_kept_by(after),
{
    let n = before.rooms@.len() as int;
    assert forall|x: int, y: int| #[trigger] before.is_floor(x, y) implies after.is_floor(x, y) by {
        assert(after.tile_at(x, y) == TileType::Floor);
    }
    assert forall|i: int, x: int, y: int|
        0 <= i < after.rooms@.len() && #[trigger] after.rooms@[i].interior(x, y) implies after.is_floor(
        x,
        y,
    ) by {
        if i < n {
            assert(after.rooms@[i] == before.rooms@[i]);
            assert(before.rooms@[i].interior(x, y));
            assert(before.is_floor(x, y));
        } else {
            assert(after.tile_at(x, y) == TileType::Floor);
        }
    }
    assert forall|i: int, j: int| 0 <= i < j < after.rooms@.len() implies !(#[trigger] after.rooms@[i]).overlaps(
        #[trigger] after.rooms@[j],
    ) by {
        assert(after.rooms@[i] == before.rooms@[i]);
        if j < n {
            assert(after.rooms@[j] == before.rooms@[j]);
        }
    }
    assert forall|i: int| 0 <= i < after.rooms@.len() implies (#[trigger] after.rooms@[i]).inside(
        after.width as int,
        after.height as int,
    ) by {
        if i < n {
            assert(after.rooms@[i] == before.rooms@[i]);
        }
    }
}

/// Adding a room that fits keeps every room within reach of the first.
pub proof fn lemma_add_room_keeps_connected(
    before: &GridMap,
    after: &GridMap,
    room: Rect,
    horizontal_first: bool,
)
    requires
        before.rooms_placed(),
        before.rooms_connected(),
        before.room_fits(room),
        after.room_added(before, room, horizontal_first),
    ensures
        after.rooms_connected(),
{
    let n = before.rooms@.len() as int;
    let w = before.width as int;
    let h = before.height as int;
    lemma_add_room_keeps_placed(before, after, room, horizontal_first);
    lemma_midpoint_interior(room, w, h);
    let c = room.midpoint();
    assert(after.rooms@[n] == room);
    assert(after.is_floor(c.0, c.1));
    if n == 0 {
        lemma_connected_self(after, c);
    } else {
        let first = before.rooms@[0];
        let last = before.rooms@[n - 1];
        assert(after.rooms@[0] == first);
        lemma_midpoint_interior(last, w, h);
        let p = last.midpoint();
        assert forall|x: int, y: int| on_corridor(p, c, horizontal_first, x, y) implies after.is_floor(
            x,
            y,
        ) by {
            assert(before.in_bounds(x, y));
            assert(after.tile_at(x, y) == TileType::Floor);
        }
        lemma_corridor_connected(after, p, c, horizontal_first);
        assert(before.connected(first.midpoint(), p));
        lemma_connected_kept(before, after, first.midpoint(), p);
        lemma_connected_trans(after, first.midpoint(), p, c);
    }
    assert forall|i: int| 0 <= i < after.rooms@.len() implies after.connected(
        after.rooms@[0].midpoint(),
        (#[trigger] after.rooms@[i]).midpoint(),
    ) by {
        if i < n {
            assert(after.rooms@[i] == before.rooms@[i]);
            assert(after.rooms@[0] == before.rooms@[0]);
            lemma_connected_kept(before, after, before.rooms@[0].midpoint(), before.rooms@[i].midpoint());
        }
    }
}

/// Adding a room opens no cell but those of the room and of its corridor.
pub proof fn lemma_add_room_keeps_accounted(
    before: &GridMap,
    after: &GridMap,
    room: Rect,
    horizontal_first: bool,
)
    requires
        before.floor_accounted(),
        after.room_added(before, room, horizontal_first),
    ensures
        after.floor_accounted(),
{
    let n = before.rooms@.len() as int;
    assert(after.rooms@[n] == room);
    assert forall|x: int, y: int| #[trigger] after.is_floor(x, y) implies exists|i: int|
        0 <= i < after.rooms@.len() && #[trigger] after.opened_by(i, x, y) by {
        assert(after.tile_at(x, y) == TileType::Floor);
        if room.interior(x, y) {
            assert(after.opened_by(n, x, y));
        } else if n > 0 && on_corridor(before.rooms@.last().midpoint(), room.midpoint(), horizontal_first, x, y) {
            assert(after.rooms@[n - 1] == before.rooms@[n - 1]);
            assert(after.opened_by(n, x, y));
        } else {
            assert(before.is_floor(x, y));
            let i = choose|i: int| 0 <= i < before.rooms@.len() && #[trigger] before.opened_by(i, x, y);
            assert(after.rooms@[i] == before.rooms@[i]);
            if i >= 1 {
                assert(after.rooms@[i - 1] == before.rooms@[i - 1]);
            }
            assert(after.opened_by(i, x, y));
        }
    }
}

/// The bounds under which a dungeon can be generated: rooms are at least
/// two cells long each way, the range of sizes is not empty, the largest
/// room leaves a margin on a map of this size, and the tiles can be counted.
pub open spec fn generation_bounds(width: int, height: int, min_size: int, max_size: int) -> bool {
    &&& 2 <= min_size < max_size
    &&& max_size < width
    &&& max_size < height
    &&& width * height <= usize::MAX
}

/// Whether a dungeon can be generated with these bounds.
pub fn generation_bounds_hold(width: i32, height: i32, min_size: i32, max_size: i32) -> (b: bool)
    ensures
        b == generation_bounds(width as int, height as int, min_size as int, max_size as int),
{
    if !(2 <= min_size && min_size < max_size && max_size < width && max_size < height) {
        return false;
    }
    assert(0 <= width * height <= 0x7fff_ffff * 0x7fff_ffff) by (nonlinear_arith)
        requires
            0 < width <= 0x7fff_ffff,
            0 < height <= 0x7fff_ffff,
    ;
    (width as u64) * (height as u64) <= usize::MAX as u64
}

impl GridMap {
    /// Every room has a width and a height from `min_size` up to, but not
    /// including, `max_size`, and keeps one cell away from the right and
    /// the bottom edge of the map.
    pub open spec fn rooms_sized(&self, min_size: int, max_size: int) -> bool {
        forall|i: int|
            0 <= i < self.rooms@.len() ==> {
                let r = #[trigger] self.rooms@[i];
                &&& min_size <= r.x2 - r.x1 < max_size
                &&& min_size <= r.y2 - r.y1 < max_size
                &&& r.x2 <= self.width - 2
                &&& r.y2 <= self.height - 2
            }
    }

    /// A fresh map: no tile seen or visible, no actor indexed, and a tile
    /// blocked exactly when it is a wall.
    pub open spec fn pristine(&self) -> bool {
        &&& forall|i: int| 0 <= i < self.tile_count() ==> !self.revealed_tiles@[i]
        &&& forall|i: int| 0 <= i < self.tile_count() ==> !self.visible_tiles@[i]
        &&& forall|i: int| 0 <= i < self.tile_count() ==> self.tile_content@[i]@.len() == 0
        &&& forall|i: int|
            0 <= i < self.tile_count() ==> self.blocked@[i] == (self.tiles@[i] == TileType::Wall)
    }

    /// Generates a dungeon on a map of solid rock. `max_rooms` times over, a
    /// room of random size is drawn at a random place and added if it fits;
    /// a room that does not fit is passed over. Each room added after the
    /// first is joined to the one added before it by a bent corridor, whose
    /// first leg is chosen by a coin flip. The first room drawn always fits.
    pub fn new_map_rooms_and_corridors(
        width: i32,
        height: i32,
        max_rooms: i32,
        min_size: i32,
        max_size: i32,
        rng: &mut RandomNumberGenerator,
    ) -> (map: GridMap)
        requires
            generation_bounds(width as int, height as int, min_size as int, max_size as int),
        ensures
            map.wf(),
            map.width == width,
            map.height == height,
            map.rooms@.len() <= max_rooms || map.rooms@.len() == 0,
            max_rooms >= 1 ==> map.rooms@.len() >= 1,
            map.rooms_sized(min_size as int, max_size as int),
            map.rooms_placed(),
            map.rooms_connected(),
            map.floor_accounted(),
            map.pristine(),
    {
        let mut map = GridMap::new(width, height);
        proof {
            assert forall|x: int, y: int| !#[trigger] map.is_floor(x, y) by {
                if map.in_bounds(x, y) {
                    lemma_index_in_range(width as int, height as int, x, y);
                }
            }
        }
        let mut attempt: i32 = 0;
        while attempt < max_rooms
            invariant
                generation_bounds(width as int, height as int, min_size as int, max_size as int),
                0 <= attempt,
                attempt <= max_rooms || attempt == 0,
                map.wf(),
                map.width == width,
                map.height == height,
                map.rooms@.len() <= attempt,
                attempt >= 1 ==> map.rooms@.len() >= 1,
                map.rooms_sized(min_size as int, max_size as int),
                map.rooms_placed(),
                map.rooms_connected(),
                map.floor_accounted(),
                forall|i: int| 0 <= i < map.tile_count() ==> !map.revealed_tiles@[i],
                forall|i: int| 0 <= i < map.tile_count() ==> !map.visible_tiles@[i],
                forall|i: int| 0 <= i < map.tile_count() ==> map.tile_content@[i]@.len() == 0,
            decreases max_rooms - attempt,
        {
            let w: i32 = draw_range(rng, min_size, max_size);
            let h: i32 = draw_range(rng, min_size, max_size);
            let x: i32 = roll_die(rng, width - w - 1) - 1;
            let y: i32 = roll_die(rng, height - h - 1) - 1;
            let room = Rect::new(x, y, w, h);
            if map.can_place(&room) {
                let mut horizontal_first: bool = false;
                if map.rooms.len() > 0 {
                    horizontal_first = draw_range(rng, 0, 2) == 1;
                }
                let ghost before = map;
                let accepted: bool = map.add_room(room, horizontal_first);
                proof {
                    lemma_add_room_keeps_placed(&before, &map, room, horizontal_first);
                    lemma_add_room_keeps_connected(&before, &map, room, horizontal_first);
                    lemma_add_room_keeps_accounted(&before, &map, room, horizontal_first);
                    assert forall|i: int| 0 <= i < map.rooms@.len() implies {
                        let r = #[trigger] map.rooms@[i];
                        &&& min_size <= r.x2 - r.x1 < max_size
                        &&& min_size <= r.y2 - r.y1 < max_size
                        &&& r.x2 <= map.width - 2
                        &&& r.y2 <= map.height - 2
                    } by {
                        if i < before.rooms@.len() {
                            assert(map.rooms@[i] == before.rooms@[i]);
                        }
                    }
                }
            } else {
                assert(map.rooms@.len() > 0);
            }
            attempt = attempt + 1;
        }
        let ghost laid_out = map;
        map.populate_blocked();
        proof {
            assert forall|x: int, y: int| map.is_floor(x, y) == laid_out.is_floor(x, y) by {}
            assert forall|p: Seq<(int, int)>| laid_out.floor_path(p) implies map.floor_path(p) by {
                assert forall|i: int| 0 <= i < p.len() implies map.is_floor((#[trigger] p[i]).0, p[i].1) by {
                    assert(laid_out.is_floor(p[i].0, p[i].1));
                }
            }
            assert(laid_out.floor_kept_by(&map));
            assert forall|i: int| 0 <= i < map.rooms@.len() implies map.connected(
                map.rooms@[0].midpoint(),
                (#[trigger] map.rooms@[i]).midpoint(),
            ) by {
                lemma_connected_kept(&laid_out, &map, laid_out.rooms@[0].midpoint(), laid_out.rooms@[i].midpoint());
            }
            assert forall|x: int, y: int| #[trigger] map.is_floor(x, y) implies exists|i: int|
                0 <= i < map.rooms@.len() && #[trigger] map.opened_by(i, x, y) by {
                assert(laid_out.is_floor(x, y));
                let i = choose|i: int| 0 <= i < laid_out.rooms@.len() && #[trigger] laid_out.opened_by(i, x, y);
                assert(map.opened_by(i, x, y));
            }
        }
        map
    }
}

/// Where every room is within reach of the first, any room is within reach
/// of any other.
pub proof fn lemma_rooms_mutually_connected(map: &GridMap, i: int, j: int)
    requires
        map.rooms_connected(),
        0 <= i < map.rooms@.len(),
        0 <= j < map.rooms@.len(),
    ensures
        map.connected(map.rooms@[i].midpoint(), map.rooms@[j].midpoint()),
{
    let first = map.rooms@[0].midpoint();
    let a = map.rooms@[i].midpoint();
    let b = map.rooms@[j].midpoint();
    assert(map.connected(first, a));
    assert(map.connected(first, b));
    lemma_connected_sym(map, first, a);
    lemma_connected_trans(map, a, first, b);
}

/// On a fresh map the midpoint of every room is a place to stand: a floor
/// tile that is not blocked.
pub proof fn lemma_room_midpoint_is_free(map: &GridMap, i: int)
    requires
        map.wf(),
        map.rooms_placed(),
        map.pristine(),
        0 <= i < map.rooms@.len(),
    ensures
        map.exit_valid(map.rooms@[i].midpoint().0, map.rooms@[i].midpoint().1),
{
    let room = map.rooms@[i];
    lemma_midpoint_interior(room, map.width as int, map.height as int);
    let c = room.midpoint();
    assert(map.rooms@[i].interior(c.0, c.1));
    assert(map.is_floor(c.0, c.1));
    lemma_index_in_range(map.width as int, map.height as int, c.0, c.1);
}

} // verus!
