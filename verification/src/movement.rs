//! Moving an actor by one step, checked against the map.

use crate::components::Position;
use crate::world::World;
use vstd::prelude::*;

verus! {

impl World {
    /// Where a step by `(dx, dy)` takes actor `id`, if the step is allowed:
    /// the actor has a position and a viewshed, and the cell it would come
    /// to lies on the map, is no wall and is not blocked.
    pub open spec fn move_target(&self, id: int, dx: int, dy: int) -> Option<(int, int)> {
        if 0 <= id < self.entity_count() && self.positions@[id] is Some && self.viewsheds@[id] is Some
            && self.map.exit_valid(self.positions@[id].unwrap().x + dx, self.positions@[id].unwrap().y + dy) {
            Some((self.positions@[id].unwrap().x + dx, self.positions@[id].unwrap().y + dy))
        } else {
            None
        }
    }

    /// Whether row `id` of `self` is row `id` of `before` after a move to
    /// `to`: the actor stands on `to`, and its viewshed is out of date but
    /// otherwise the same.
    pub open spec fn row_moved(&self, before: &World, id: int, to: (int, int)) -> bool {
        &&& self.positions@[id] == Some(Position { x: to.0 as i32, y: to.1 as i32 })
        &&& self.viewsheds@[id] is Some
        &&& before.viewsheds@[id] is Some
        &&& self.viewsheds@[id].unwrap().dirty
        &&& self.viewsheds@[id].unwrap().range == before.viewsheds@[id].unwrap().range
        &&& self.viewsheds@[id].unwrap().visible_tiles == before.viewsheds@[id].unwrap().visible_tiles
    }

    /// Whether row `id` of `self` is row `id` of `before`, as far as a move
    /// could change it.
    pub open spec fn row_kept(&self, before: &World, id: int) -> bool {
        &&& self.positions@[id] == before.positions@[id]
        &&& self.viewsheds@[id] == before.viewsheds@[id]
    }

    /// Whether `self` differs from `before` in no more than positions,
    /// viewsheds and the player's last known position.
    pub open spec fn same_but_places(&self, before: &World) -> bool {
        &&& self.map == before.map
        &&& self.positions@.len() == before.positions@.len()
        &&& self.viewsheds@.len() == before.viewsheds@.len()
        &&& self.players == before.players
        &&& self.monsters == before.monsters
        &&& self.blockers == before.blockers
        &&& self.combat_stats == before.combat_stats
        &&& self.names == before.names
        &&& self.renderables == before.renderables
    }

    /// `self` is `before` after actor `id` has moved to `to`.
    pub open spec fn moved_to(&self, before: &World, id: int, to: (int, int)) -> bool {
        &&& self.same_but_places(before)
        &&& self.player_pos == before.player_pos
        &&& self.row_moved(before, id, to)
        &&& forall|j: int| 0 <= j < before.entity_count() && j != id ==> #[trigger] self.row_kept(before, j)
    }

    /// Tries to move actor `id` by `(delta_x, delta_y)` and says whether it
    /// moved. A move that is not allowed changes nothing.
    pub fn try_move(&mut self, id: usize, delta_x: i32, delta_y: i32) -> (moved: bool)
        requires
            old(self).wf(),
        ensures
            final(self).wf(),
            moved == (old(self).move_target(id as int, delta_x as int, delta_y as int) is Some),
            !moved ==> *final(self) == *old(self),
            moved ==> final(self).moved_to(
                old(self),
                id as int,
                old(self).move_target(id as int, delta_x as int, delta_y as int).unwrap(),
            ),
    {
        if id >= self.positions.len() {
            return false;
        }
        let place: Option<Position> = self.positions[id];
        let pos: Position = match place {
            Some(pos) => pos,
            None => {
                return false;
            },
        };
        if self.viewsheds[id].is_none() {
            return false;
        }
        let x: i64 = pos.x as i64 + delta_x as i64;
        let y: i64 = pos.y as i64 + delta_y as i64;
        if x < 0 || x >= self.map.width as i64 || y < 0 || y >= self.map.height as i64 {
            return false;
        }
        if !self.map.is_exit_valid(x as i32, y as i32) {
            return false;
        }
        self.positions[id] = Some(Position { x: x as i32, y: y as i32 });
        match &mut self.viewsheds[id] {
            Some(viewshed) => {
                viewshed.dirty = true;
            },
            None => {},
        }
        true
    }
}

/// A step onto a blocked tile is never allowed, so an actor that tries one
/// stays where it is and its viewshed is not marked.
pub proof fn lemma_blocked_step_rejected(world: &World, id: int, dx: int, dy: int)
    requires
        0 <= id < world.entity_count(),
        world.positions@[id] is Some,
        world.map.blocked@[world.map.index_of(
            world.positions@[id].unwrap().x + dx,
            world.positions@[id].unwrap().y + dy,
        )],
    ensures
        world.move_target(id, dx, dy) is None,
{
}

/// A step is allowed only onto a floor tile of the map.
pub proof fn lemma_step_lands_on_floor(world: &World, id: int, dx: int, dy: int)
    requires
        world.move_target(id, dx, dy) is Some,
    ensures
        world.map.is_floor(world.move_target(id, dx, dy).unwrap().0, world.move_target(id, dx, dy).unwrap().1),
{
}

} // verus!
