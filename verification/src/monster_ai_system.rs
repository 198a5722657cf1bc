//! Pursuit: a monster that sees the player takes one step toward it.

use crate::components::Position;
use crate::sight::{direction, ray_steps};
use crate::world::World;
use vstd::prelude::*;

verus! {

/// The neighbour of `from` that lies toward `to`: one step along each axis
/// on which the two differ.
pub open spec fn approach(from: (int, int), to: (int, int)) -> (int, int) {
    (from.0 + direction(to.0 - from.0), from.1 + direction(to.1 - from.1))
}

/// The square of the straight-line distance between `a` and `b`.
pub open spec fn distance_squared(a: (int, int), b: (int, int)) -> int {
    (b.0 - a.0) * (b.0 - a.0) + (b.1 - a.1) * (b.1 - a.1)
}

/// The coordinate next to `from` on the way to `to`.
pub fn step_toward(from: i32, to: i32) -> (next: i32)
    ensures
        next == from + direction(to - from),
{
    if to > from {
        from + 1
    } else if to < from {
        from - 1
    } else {
        from
    }
}

/// Whether `tiles` holds `p`.
pub fn holds_position(tiles: &Vec<Position>, p: Position) -> (found: bool)
    ensures
        found == tiles@.contains(p),
{
    let n: usize = tiles.len();
    let mut i: usize = 0;
    while i < n
        invariant
            i <= n,
            n == tiles@.len(),
            forall|j: int| 0 <= j < i ==> tiles@[j] != p,
        decreases n - i,
    {
        let tile: Position = tiles[i];
        if tile.x == p.x && tile.y == p.y {
            return true;
        }
        i = i + 1;
    }
    false
}

/// The step toward the player brings a monster closer by exactly one, counted
/// in steps of any of the eight directions.
pub proof fn lemma_approach_closes_in(from: (int, int), to: (int, int))
    requires
        from != to,
    ensures
        ray_steps(approach(from, to), to) == ray_steps(from, to) - 1,
{
}

/// No neighbour of `from`, and not `from` itself, is nearer to `to` than
/// the one that pursuit picks.
pub proof fn lemma_approach_is_nearest(from: (int, int), to: (int, int), dx: int, dy: int)
    requires
        -1 <= dx <= 1,
        -1 <= dy <= 1,
    ensures
        distance_squared(approach(from, to), to) <= distance_squared((from.0 + dx, from.1 + dy), to),
{
    let ex = to.0 - from.0;
    let ey = to.1 - from.1;
    lemma_nearest_on_axis(ex, dx);
    lemma_nearest_on_axis(ey, dy);
}

/// Along one axis, the step in the direction of `e` leaves the least
/// distance of any step of at most one.
proof fn lemma_nearest_on_axis(e: int, d: int)
    requires
        -1 <= d <= 1,
    ensures
        (e - direction(e)) * (e - direction(e)) <= (e - d) * (e - d),
{
    let s = direction(e);
    assert((e - s) * (e - s) <= (e - d) * (e - d)) by (nonlinear_arith)
        requires
            -1 <= d <= 1,
            (e >= 1 && s == 1) || (e <= -1 && s == -1) || (e == 0 && s == 0),
    ;
}

impl World {
    /// Whether actor `i` is a monster with a position and a viewshed.
    pub open spec fn is_hunter(&self, i: int) -> bool {
        &&& 0 <= i < self.entity_count()
        &&& self.monsters@[i] is Some
        &&& self.positions@[i] is Some
        &&& self.viewsheds@[i] is Some
    }

    /// Where pursuit takes actor `i`, if anywhere: a monster whose viewshed
    /// holds the player's position steps onto the neighbouring cell toward
    /// the player, unless the player stands there or the step is not
    /// allowed.
    pub open spec fn pursuit_target(&self, i: int) -> Option<(int, int)> {
        if self.is_hunter(i) && self.viewsheds@[i].unwrap().visible_tiles@.contains(self.player_pos) {
            let from = self.positions@[i].unwrap().point();
            let to = approach(from, self.player_pos.point());
            if to != self.player_pos.point() && self.map.exit_valid(to.0, to.1) {
                Some(to)
            } else {
                None
            }
        } else {
            None
        }
    }

    /// Whether row `i` of `self` is what pursuit makes of row `i` of
    /// `before`: moved to where pursuit takes the actor, or kept.
    pub open spec fn row_pursued(&self, before: &World, i: int) -> bool {
        match before.pursuit_target(i) {
            Some(to) => self.row_moved(before, i, to),
            None => self.row_kept(before, i),
        }
    }

    /// What one pass of pursuit makes of `before`: every monster that has
    /// somewhere to go has moved there, and nothing else differs.
    pub open spec fn pursuit_run(&self, before: &World) -> bool {
        &&& self.same_but_places(before)
        &&& self.player_pos == before.player_pos
        &&& forall|i: int| 0 <= i < before.entity_count() ==> #[trigger] self.row_pursued(before, i)
    }

    /// One pass of pursuit over all monsters.
    pub fn run_monster_ai(&mut self)
        requires
            old(self).wf(),
        ensures
            final(self).wf(),
            final(self).pursuit_run(old(self)),
    {
        let n: usize = self.positions.len();
        let mut i: usize = 0;
        while i < n
            invariant
                i <= n,
                n == old(self).entity_count(),
                self.wf(),
                self.same_but_places(old(self)),
                self.player_pos == old(self).player_pos,
                forall|j: int| 0 <= j < i ==> #[trigger] self.row_pursued(old(self), j),
                forall|j: int| i <= j < n ==> #[trigger] self.row_kept(old(self), j),
            decreases n - i,
        {
            let ghost prev = *self;
            let place: Option<Position> = self.positions[i];
            let mut sees_player: bool = false;
            if self.monsters[i].is_some() && place.is_some() {
                sees_player =
                match &self.viewsheds[i] {
                    Some(viewshed) => holds_position(&viewshed.visible_tiles, self.player_pos),
                    None => false,
                };
            }
            if sees_player {
                let pos: Position = place.unwrap();
                let x: i32 = step_toward(pos.x, self.player_pos.x);
                let y: i32 = step_toward(pos.y, self.player_pos.y);
                if !(x == self.player_pos.x && y == self.player_pos.y) {
                    let moved: bool = self.try_move(i, x - pos.x, y - pos.y);
                    proof {
                        assert(prev.move_target(i as int, x - pos.x, y - pos.y) is Some
                            == prev.pursuit_target(i as int) is Some);
                    }
                }
            }
            proof {
                assert(prev.row_kept(old(self), i as int));
                assert(prev.pursuit_target(i as int) == old(self).pursuit_target(i as int));
                assert forall|j: int| 0 <= j < n && j != i implies self.row_kept(&prev, j) by {}
                assert forall|j: int| 0 <= j < i implies #[trigger] self.row_pursued(old(self), j) by {
                    assert(self.row_kept(&prev, j));
                    assert(prev.row_pursued(old(self), j));
                }
                assert(self.row_pursued(old(self), i as int));
                assert forall|j: int| i < j < n implies #[trigger] self.row_kept(old(self), j) by {
                    assert(self.row_kept(&prev, j));
                    assert(prev.row_kept(old(self), j));
                }
            }
            i = i + 1;
        }
    }
}

/// Where pursuit takes a monster, it comes exactly one step closer to the
/// player, onto a floor tile that is not blocked and is not the player's.
pub proof fn lemma_pursuit_closes_in(world: &World, i: int)
    requires
        world.pursuit_target(i) is Some,
    ensures
        ray_steps(world.pursuit_target(i).unwrap(), world.player_pos.point()) == ray_steps(
            world.positions@[i].unwrap().point(),
            world.player_pos.point(),
        ) - 1,
        world.pursuit_target(i).unwrap() != world.player_pos.point(),
        world.map.is_floor(world.pursuit_target(i).unwrap().0, world.pursuit_target(i).unwrap().1),
        !world.map.blocked@[world.map.index_of(
            world.pursuit_target(i).unwrap().0,
            world.pursuit_target(i).unwrap().1,
        )],
{
    let from = world.positions@[i].unwrap().point();
    let to = world.player_pos.point();
    if from != to {
        lemma_approach_closes_in(from, to);
    }
}

} // verus!
