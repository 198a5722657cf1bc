//! Keeps every actor's field of view, and the map's layers of what the
//! player sees and has seen, up to date.

use crate::components::{Position, Viewshed};
use crate::map::GridMap;
use crate::sight::lemma_field_of_view_unique;
use crate::world::World;
use vstd::prelude::*;

verus! {

/// What bringing a viewshed up to date does for an actor at `pos`: one that
/// is out of date gets the field of view from `pos` in place of the tiles it
/// held and is marked as up to date; one that is up to date is left alone.
pub open spec fn viewshed_refreshed(map: &GridMap, pos: Position, before: Viewshed, after: Viewshed) -> bool {
    if before.dirty {
        &&& !after.dirty
        &&& after.range == before.range
        &&& map.is_field_of_view(pos.point(), before.range as int, after.visible_tiles@)
    } else {
        after == before
    }
}

/// Brings the viewshed of an actor at `pos` up to date.
pub fn update_viewshed(map: &GridMap, pos: Position, viewshed: &mut Viewshed)
    requires
        map.wf(),
    ensures
        viewshed_refreshed(map, pos, *old(viewshed), *final(viewshed)),
{
    if viewshed.dirty {
        viewshed.visible_tiles = map.field_of_view(pos.x, pos.y, viewshed.range);
        viewshed.dirty = false;
    }
}

impl World {
    /// Whether `self` differs from `before` in the viewsheds alone.
    pub open spec fn same_but_viewsheds(&self, before: &World) -> bool {
        &&& self.map == before.map
        &&& self.player_pos == before.player_pos
        &&& self.positions == before.positions
        &&& self.viewsheds@.len() == before.viewsheds@.len()
        &&& self.players == before.players
        &&& self.monsters == before.monsters
        &&& self.blockers == before.blockers
        &&& self.combat_stats == before.combat_stats
        &&& self.names == before.names
        &&& self.renderables == before.renderables
    }

    /// The viewshed of every actor that has a position was brought up to
    /// date from `before` to `self`, and no other viewshed was touched.
    pub open spec fn viewsheds_refreshed(&self, before: &World) -> bool {
        forall|i: int|
            0 <= i < before.entity_count() ==> match (before.viewsheds@[i], before.positions@[i]) {
                (Some(v), Some(p)) => (#[trigger] self.viewsheds@[i]) is Some && viewshed_refreshed(
                    &before.map,
                    p,
                    v,
                    self.viewsheds@[i].unwrap(),
                ),
                _ => self.viewsheds@[i] == before.viewsheds@[i],
            }
    }

    /// Brings the viewshed of every actor that has a position up to date.
    pub fn refresh_viewsheds(&mut self)
        requires
            old(self).wf(),
        ensures
            final(self).wf(),
            final(self).same_but_viewsheds(old(self)),
            final(self).viewsheds_refreshed(old(self)),
    {
        let n: usize = self.positions.len();
        let mut i: usize = 0;
        while i < n
            invariant
                i <= n,
                n == old(self).entity_count(),
                self.wf(),
                self.same_but_viewsheds(old(self)),
                forall|j: int|
                    0 <= j < i ==> match (old(self).viewsheds@[j], old(self).positions@[j]) {
                        (Some(v), Some(p)) => (#[trigger] self.viewsheds@[j]) is Some
                            && viewshed_refreshed(&old(self).map, p, v, self.viewsheds@[j].unwrap()),
                        _ => self.viewsheds@[j] == old(self).viewsheds@[j],
                    },
                forall|j: int| i <= j < n ==> #[trigger] self.viewsheds@[j] == old(self).viewsheds@[j],
            decreases n - i,
        {
            let place: Option<Position> = self.positions[i];
            if let Some(pos) = place {
                match &mut self.viewsheds[i] {
                    Some(viewshed) => {
                        update_viewshed(&self.map, pos, viewshed);
                    },
                    None => {},
                }
            }
            i = i + 1;
        }
    }
}

impl World {
    /// Whether actor `i` is a player with a position and a viewshed: one of
    /// those whose sight the map's layers follow.
    pub open spec fn is_viewer(&self, i: int) -> bool {
        &&& 0 <= i < self.entity_count()
        &&& self.players@[i] is Some
        &&& self.positions@[i] is Some
        &&& self.viewsheds@[i] is Some
    }

    /// Whether the `k`-th tile in the viewshed of the viewer `i` is the cell
    /// of the map with index `idx`.
    pub open spec fn shows(&self, i: int, k: int, idx: int) -> bool {
        &&& self.is_viewer(i)
        &&& 0 <= k < self.viewsheds@[i].unwrap().visible_tiles@.len()
        &&& self.map.in_bounds(
            self.viewsheds@[i].unwrap().visible_tiles@[k].x as int,
            self.viewsheds@[i].unwrap().visible_tiles@[k].y as int,
        )
        &&& self.map.index_of(
            self.viewsheds@[i].unwrap().visible_tiles@[k].x as int,
            self.viewsheds@[i].unwrap().visible_tiles@[k].y as int,
        ) == idx
    }

    /// Whether the cell with index `idx` is among the first `k` tiles in the
    /// viewshed of actor `i`, or in the viewshed of an actor before `i`.
    pub open spec fn shown_before(&self, i: int, k: int, idx: int) -> bool {
        exists|j: int, l: int| (j < i || (j == i && l < k)) && #[trigger] self.shows(j, l, idx)
    }

    /// Whether a player sees the cell with index `idx`.
    pub open spec fn in_player_view(&self, idx: int) -> bool {
        exists|i: int, k: int| #[trigger] self.shows(i, k, idx)
    }

    /// Whether `self` differs from `before` in no more than the map's layers
    /// of what is visible and what was revealed.
    pub open spec fn same_but_shown(&self, before: &World) -> bool {
        &&& self.map.tiles == before.map.tiles
        &&& self.map.rooms == before.map.rooms
        &&& self.map.width == before.map.width
        &&& self.map.height == before.map.height
        &&& self.map.blocked == before.map.blocked
        &&& self.map.tile_content == before.map.tile_content
        &&& self.player_pos == before.player_pos
        &&& self.positions == before.positions
        &&& self.viewsheds == before.viewsheds
        &&& self.players == before.players
        &&& self.monsters == before.monsters
        &&& self.blockers == before.blockers
        &&& self.combat_stats == before.combat_stats
        &&& self.names == before.names
        &&& self.renderables == before.renderables
    }

    /// Makes the map show what the players see: a cell is visible exactly
    /// when it is in the viewshed of a player, and every visible cell is
    /// revealed for good.
    pub fn show_player_view(&mut self)
        requires
            old(self).wf(),
        ensures
            final(self).wf(),
            final(self).same_but_shown(old(self)),
            forall|idx: int|
                0 <= idx < old(self).map.tile_count() ==> #[trigger] final(self).map.visible_tiles@[idx]
                    == old(self).in_player_view(idx),
            forall|idx: int|
                0 <= idx < old(self).map.tile_count() ==> #[trigger] final(self).map.revealed_tiles@[idx]
                    == (old(self).map.revealed_tiles@[idx] || old(self).in_player_view(idx)),
    {
        let tile_count: usize = self.map.visible_tiles.len();
        let mut t: usize = 0;
        while t < tile_count
            invariant
                t <= tile_count,
                tile_count == old(self).map.tile_count(),
                self.wf(),
                self.same_but_shown(old(self)),
                self.map.revealed_tiles == old(self).map.revealed_tiles,
                forall|idx: int| 0 <= idx < t ==> !self.map.visible_tiles@[idx],
            decreases tile_count - t,
        {
            self.map.visible_tiles[t] = false;
            t = t + 1;
        }
        let n: usize = self.positions.len();
        let mut i: usize = 0;
        while i < n
            invariant
                i <= n,
                n == old(self).entity_count(),
                tile_count == old(self).map.tile_count(),
                self.wf(),
                self.same_but_shown(old(self)),
                forall|idx: int|
                    0 <= idx < tile_count ==> self.map.visible_tiles@[idx] == old(self).shown_before(
                        i as int,
                        0,
                        idx,
                    ),
                forall|idx: int|
                    0 <= idx < tile_count ==> self.map.revealed_tiles@[idx] == (old(
                        self,
                    ).map.revealed_tiles@[idx] || self.map.visible_tiles@[idx]),
            decreases n - i,
        {
            let viewer: bool = self.players[i].is_some() && self.positions[i].is_some()
                && self.viewsheds[i].is_some();
            if viewer {
                let len: usize = match &self.viewsheds[i] {
                    Some(viewshed) => viewshed.visible_tiles.len(),
                    None => 0,
                };
                let mut k: usize = 0;
                while k < len
                    invariant
                        k <= len,
                        i < n,
                        n == old(self).entity_count(),
                        tile_count == old(self).map.tile_count(),
                        old(self).is_viewer(i as int),
                        len == old(self).viewsheds@[i as int].unwrap().visible_tiles@.len(),
                        self.wf(),
                        self.same_but_shown(old(self)),
                        forall|idx: int|
                            0 <= idx < tile_count ==> self.map.visible_tiles@[idx] == old(
                                self,
                            ).shown_before(i as int, k as int, idx),
                        forall|idx: int|
                            0 <= idx < tile_count ==> self.map.revealed_tiles@[idx] == (old(
                                self,
                            ).map.revealed_tiles@[idx] || self.map.visible_tiles@[idx]),
                    decreases len - k,
                {
                    let tile: Position = match &self.viewsheds[i] {
                        Some(viewshed) => viewshed.visible_tiles[k],
                        None => Position { x: 0, y: 0 },
                    };
                    let ghost shown = self.map.visible_tiles@;
                    if self.map.contains(tile.x, tile.y) {
                        let at: usize = self.map.xy_idx(tile.x, tile.y);
                        self.map.visible_tiles[at] = true;
                        self.map.revealed_tiles[at] = true;
                        proof {
                            assert(old(self).shows(i as int, k as int, at as int));
                        }
                    }
                    proof {
                        assert forall|idx: int| 0 <= idx < tile_count implies self.map.visible_tiles@[idx]
                            == old(self).shown_before(i as int, k + 1, idx) by {
                            if old(self).shows(i as int, k as int, idx) {
                            } else {
                                assert(self.map.visible_tiles@[idx] == shown[idx]);
                                if old(self).shown_before(i as int, k + 1, idx) {
                                    let (j, l) = choose|j: int, l: int|
                                        (j < i || (j == i && l < k + 1)) && #[trigger] old(self).shows(
                                            j,
                                            l,
                                            idx,
                                        );
                                    assert(old(self).shows(j, l, idx));
                                    assert(j < i || (j == i && l < k));
                                }
                                if old(self).shown_before(i as int, k as int, idx) {
                                    let (j, l) = choose|j: int, l: int|
                                        (j < i || (j == i && l < k)) && #[trigger] old(self).shows(
                                            j,
                                            l,
                                            idx,
                                        );
                                    assert(old(self).shows(j, l, idx));
                                }
                            }
                        }
                    }
                    k = k + 1;
                }
            }
            proof {
                assert forall|idx: int| 0 <= idx < tile_count implies self.map.visible_tiles@[idx] == old(
                    self,
                ).shown_before(i + 1, 0, idx) by {
                    let end: int = if old(self).is_viewer(i as int) {
                        old(self).viewsheds@[i as int].unwrap().visible_tiles@.len() as int
                    } else {
                        0
                    };
                    assert(self.map.visible_tiles@[idx] == old(self).shown_before(i as int, end, idx));
                    if old(self).shown_before(i + 1, 0, idx) {
                        let (j, l) = choose|j: int, l: int|
                            (j < i + 1 || (j == i + 1 && l < 0)) && #[trigger] old(self).shows(j, l, idx);
                        assert(old(self).shows(j, l, idx));
                        assert(j < i || (j == i && l < end));
                    }
                    if old(self).shown_before(i as int, end, idx) {
                        let (j, l) = choose|j: int, l: int|
                            (j < i || (j == i && l < end)) && #[trigger] old(self).shows(j, l, idx);
                        assert(old(self).shows(j, l, idx));
                    }
                }
            }
            i = i + 1;
        }
        proof {
            assert forall|idx: int| 0 <= idx < tile_count implies old(self).shown_before(n as int, 0, idx)
                == old(self).in_player_view(idx) by {
                if old(self).in_player_view(idx) {
                    let (j, l) = choose|j: int, l: int| #[trigger] old(self).shows(j, l, idx);
                    assert(old(self).shows(j, l, idx));
                    assert(j < n);
                }
            }
        }
    }

    /// One pass of the visibility system: every viewshed that is out of
    /// date is computed anew, then the map is made to show what the players
    /// see.
    pub fn run_visibility(&mut self)
        requires
            old(self).wf(),
        ensures
            final(self).wf(),
            final(self).visibility_run(old(self)),
    {
        let ghost start = *self;
        self.refresh_viewsheds();
        let ghost refreshed = *self;
        self.show_player_view();
        proof {
            assert forall|idx: int| 0 <= idx < self.map.tile_count() implies refreshed.in_player_view(idx)
                == #[trigger] self.in_player_view(idx) by {
                if refreshed.in_player_view(idx) {
                    let (i, k) = choose|i: int, k: int| #[trigger] refreshed.shows(i, k, idx);
                    assert(self.shows(i, k, idx));
                }
                if self.in_player_view(idx) {
                    let (i, k) = choose|i: int, k: int| #[trigger] self.shows(i, k, idx);
                    assert(refreshed.shows(i, k, idx));
                }
            }
            assert forall|idx: int| 0 <= idx < self.map.tile_count() implies #[trigger] self.map.visible_tiles@[idx]
                == self.in_player_view(idx) by {}
            assert forall|idx: int| 0 <= idx < self.map.tile_count() implies #[trigger] self.map.revealed_tiles@[idx]
                == (start.map.revealed_tiles@[idx] || self.in_player_view(idx)) by {}
        }
    }

    /// What one pass of the visibility system makes of `before`: the
    /// viewsheds are brought up to date; a cell of the map is visible
    /// exactly when a player's viewshed holds it; a cell is revealed when
    /// it was revealed before or is visible now; nothing else differs.
    pub open spec fn visibility_run(&self, before: &World) -> bool {
        &&& self.viewsheds_refreshed(before)
        &&& self.viewsheds@.len() == before.viewsheds@.len()
        &&& self.map.tiles == before.map.tiles
        &&& self.map.rooms == before.map.rooms
        &&& self.map.width == before.map.width
        &&& self.map.height == before.map.height
        &&& self.map.blocked == before.map.blocked
        &&& self.map.tile_content == before.map.tile_content
        &&& self.player_pos == before.player_pos
        &&& self.positions == before.positions
        &&& self.players == before.players
        &&& self.monsters == before.monsters
        &&& self.blockers == before.blockers
        &&& self.combat_stats == before.combat_stats
        &&& self.names == before.names
        &&& self.renderables == before.renderables
        &&& forall|idx: int|
            0 <= idx < self.map.tile_count() ==> #[trigger] self.map.visible_tiles@[idx]
                == self.in_player_view(idx)
        &&& forall|idx: int|
            0 <= idx < self.map.tile_count() ==> #[trigger] self.map.revealed_tiles@[idx] == (
            before.map.revealed_tiles@[idx] || self.in_player_view(idx))
    }
}

/// Bringing a viewshed up to date twice in a row, for an actor that has not
/// moved in between, changes nothing the second time.
pub proof fn lemma_refresh_idempotent(map: &GridMap, pos: Position, start: Viewshed, once: Viewshed, twice: Viewshed)
    requires
        viewshed_refreshed(map, pos, start, once),
        viewshed_refreshed(map, pos, once, twice),
    ensures
        twice == once,
{
}

/// Bringing an out-of-date viewshed up to date replaces the tiles it held:
/// whatever two viewsheds of the same range held before, both hold the same
/// tiles afterwards.
pub proof fn lemma_refresh_replaces(
    map: &GridMap,
    pos: Position,
    first: Viewshed,
    second: Viewshed,
    first_after: Viewshed,
    second_after: Viewshed,
)
    requires
        first.dirty,
        second.dirty,
        first.range == second.range,
        viewshed_refreshed(map, pos, first, first_after),
        viewshed_refreshed(map, pos, second, second_after),
    ensures
        first_after.visible_tiles@ == second_after.visible_tiles@,
{
    lemma_field_of_view_unique(
        map,
        pos.point(),
        first.range as int,
        first_after.visible_tiles@,
        second_after.visible_tiles@,
    );
}

/// A second pass of the visibility system right after the first changes
/// neither the viewsheds nor what the map shows.
pub proof fn lemma_visibility_idempotent(start: &World, once: &World, twice: &World)
    requires
        start.wf(),
        once.wf(),
        twice.wf(),
        once.visibility_run(start),
        twice.visibility_run(once),
    ensures
        twice.viewsheds@ == once.viewsheds@,
        twice.map.visible_tiles@ == once.map.visible_tiles@,
        twice.map.revealed_tiles@ == once.map.revealed_tiles@,
{
    assert forall|i: int| 0 <= i < once.viewsheds@.len() implies twice.viewsheds@[i] == once.viewsheds@[i] by {
        match (start.viewsheds@[i], start.positions@[i]) {
            (Some(v), Some(p)) => {
                assert(once.viewsheds@[i] is Some);
                assert(twice.viewsheds@[i] is Some);
                lemma_refresh_idempotent(
                    &start.map,
                    p,
                    v,
                    once.viewsheds@[i].unwrap(),
                    twice.viewsheds@[i].unwrap(),
                );
            },
            _ => {
                assert(once.viewsheds@[i] == start.viewsheds@[i]);
                assert(twice.viewsheds@[i] == once.viewsheds@[i]);
            },
        }
    }
    assert(twice.viewsheds@ =~= once.viewsheds@);
    assert forall|idx: int| 0 <= idx < once.map.tile_count() implies twice.in_player_view(idx)
        == once.in_player_view(idx) by {
        if twice.in_player_view(idx) {
            let (i, k) = choose|i: int, k: int| #[trigger] twice.shows(i, k, idx);
            assert(once.shows(i, k, idx));
        }
        if once.in_player_view(idx) {
            let (i, k) = choose|i: int, k: int| #[trigger] once.shows(i, k, idx);
            assert(twice.shows(i, k, idx));
        }
    }
    assert(twice.map.visible_tiles@ =~= once.map.visible_tiles@);
    assert(twice.map.revealed_tiles@ =~= once.map.revealed_tiles@);
}

} // verus!
