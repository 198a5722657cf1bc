//! Rebuilds, from where the actors stand, which tiles are blocked and who
//! stands on each tile.

use crate::components::Position;
use crate::map::{GridMap, TileType};
use crate::world::World;
use vstd::prelude::*;

verus! {

impl GridMap {
    /// Empties the list of actors of every tile.
    pub fn clear_content_index(&mut self)
        requires
            old(self).wf(),
        ensures
            final(self).wf(),
            final(self).tiles == old(self).tiles,
            final(self).rooms == old(self).rooms,
            final(self).width == old(self).width,
            final(self).height == old(self).height,
            final(self).revealed_tiles == old(self).revealed_tiles,
            final(self).visible_tiles == old(self).visible_tiles,
            final(self).blocked == old(self).blocked,
            forall|i: int| 0 <= i < final(self).tile_count() ==> final(self).tile_content@[i]@.len() == 0,
    {
        let n: usize = self.tile_content.len();
        let mut i: usize = 0;
        while i < n
            invariant
                i <= n,
                n == self.tile_content@.len(),
                self.wf(),
                self.tiles == old(self).tiles,
                self.rooms == old(self).rooms,
                self.width == old(self).width,
                self.height == old(self).height,
                self.revealed_tiles == old(self).revealed_tiles,
                self.visible_tiles == old(self).visible_tiles,
                self.blocked == old(self).blocked,
                forall|j: int| 0 <= j < i ==> self.tile_content@[j]@.len() == 0,
            decreases n - i,
        {
            self.tile_content[i].clear();
            i = i + 1;
        }
    }
}

impl World {
    /// Whether actor `i` stands on the cell with index `idx` and blocks it.
    pub open spec fn blocks_at(&self, i: int, idx: int) -> bool {
        self.stands_on(i, idx) && self.blockers@[i] is Some
    }

    /// Whether a blocking actor stands on the cell with index `idx`.
    pub open spec fn blocker_on(&self, idx: int) -> bool {
        exists|i: int| #[trigger] self.blocks_at(i, idx)
    }

    /// Whether one of the first `n` actors blocks the cell with index `idx`.
    pub open spec fn blocker_among(&self, n: int, idx: int) -> bool {
        exists|i: int| i < n && #[trigger] self.blocks_at(i, idx)
    }

    /// Whether `self` differs from `before` in no more than the map's
    /// blocked layer and its lists of actors.
    pub open spec fn same_but_index(&self, before: &World) -> bool {
        &&& self.map.tiles == before.map.tiles
        &&& self.map.rooms == before.map.rooms
        &&& self.map.width == before.map.width
        &&& self.map.height == before.map.height
        &&& self.map.revealed_tiles == before.map.revealed_tiles
        &&& self.map.visible_tiles == before.map.visible_tiles
        &&& self.player_pos == before.player_pos
        &&& self.positions == before.positions
        &&& self.viewsheds == before.viewsheds
        &&& self.players == before.players
        &&& self.monsters == before.monsters
        &&& self.blockers == before.blockers
        &&& self.combat_stats == before.combat_stats
        &&& self.names == before.names
        &&& self.renderables == before.renderables
    }

    /// The index agrees with where the actors stand: a tile is blocked
    /// exactly when it is a wall or a blocking actor stands on it, and the
    /// list of each tile holds the actors that stand on it, each once, in
    /// rising order.
    pub open spec fn indexed(&self) -> bool {
        &&& forall|idx: int|
            0 <= idx < self.map.tile_count() ==> #[trigger] self.map.blocked@[idx] == (
            self.map.tiles@[idx] == TileType::Wall || self.blocker_on(idx))
        &&& forall|idx: int, i: usize|
            0 <= idx < self.map.tile_count() ==> (#[trigger] self.map.tile_content@[idx]@.contains(i)
                <==> self.stands_on(i as int, idx))
        &&& forall|idx: int, a: int, b: int|
            0 <= idx < self.map.tile_count() && 0 <= a < b < self.map.tile_content@[idx]@.len()
                ==> #[trigger] self.map.tile_content@[idx]@[a] < #[trigger] self.map.tile_content@[idx]@[b]
    }

    /// One pass of the occupancy indexer: the blocked layer and the lists
    /// of actors are built anew from the layout and from where the actors
    /// stand now.
    pub fn run_map_indexing(&mut self)
        requires
            old(self).wf(),
        ensures
            final(self).wf(),
            final(self).same_but_index(old(self)),
            final(self).indexed(),
    {
        self.map.populate_blocked();
        self.map.clear_content_index();
        let tile_count: usize = self.map.tiles.len();
        let n: usize = self.positions.len();
        let mut i: usize = 0;
        proof {
            assert forall|idx: int| 0 <= idx < tile_count implies !self.blocker_among(0, idx) by {
                if self.blocker_among(0, idx) {
                    let j = choose|j: int| j < 0 && #[trigger] self.blocks_at(j, idx);
                }
            }
        }
        while i < n
            invariant
                i <= n,
                n == self.entity_count(),
                tile_count == self.map.tile_count(),
                self.wf(),
                self.same_but_index(old(self)),
                forall|idx: int|
                    0 <= idx < tile_count ==> #[trigger] self.map.blocked@[idx] == (self.map.tiles@[idx]
                        == TileType::Wall || self.blocker_among(i as int, idx)),
                forall|idx: int, j: usize|
                    0 <= idx < tile_count ==> (#[trigger] self.map.tile_content@[idx]@.contains(j) <==> j
                        < i && self.stands_on(j as int, idx)),
                forall|idx: int, a: int, b: int|
                    0 <= idx < tile_count && 0 <= a < b < self.map.tile_content@[idx]@.len()
                        ==> #[trigger] self.map.tile_content@[idx]@[a] < #[trigger] self.map.tile_content@[idx]@[b],
            decreases n - i,
        {
            let ghost prev = *self;
            let place: Option<Position> = self.positions[i];
            let mut on_map: bool = false;
            let mut at: usize = 0;
            if let Some(pos) = place {
                if self.map.contains(pos.x, pos.y) {
                    on_map = true;
                    at = self.map.xy_idx(pos.x, pos.y);
                    if self.blockers[i].is_some() {
                        self.map.blocked[at] = true;
                    }
                    self.map.tile_content[at].push(i);
                }
            }
            proof {
                assert(on_map ==> prev.stands_on(i as int, at as int));
                assert forall|idx: int| prev.stands_on(i as int, idx) implies on_map && idx == at by {}
                assert forall|idx: int, j: int| #[trigger] self.stands_on(j, idx) == prev.stands_on(j, idx) by {}
                assert forall|idx: int, j: int| #[trigger] self.blocks_at(j, idx) == prev.blocks_at(j, idx) by {}
                assert forall|idx: int| 0 <= idx < tile_count implies #[trigger] self.map.blocked@[idx] == (
                self.map.tiles@[idx] == TileType::Wall || self.blocker_among(i + 1, idx)) by {
                    if prev.blocker_among(i as int, idx) {
                        let j = choose|j: int| j < i && #[trigger] prev.blocks_at(j, idx);
                        assert(self.blocks_at(j, idx));
                    }
                    if self.blocker_among(i + 1, idx) {
                        let j = choose|j: int| j < i + 1 && #[trigger] self.blocks_at(j, idx);
                        if j < i {
                            assert(prev.blocks_at(j, idx));
                        }
                    }
                    if on_map && idx == at && self.blockers@[i as int] is Some {
                        assert(self.blocks_at(i as int, idx));
                    }
                }
                assert forall|idx: int, j: usize| 0 <= idx < tile_count implies (
                #[trigger] self.map.tile_content@[idx]@.contains(j) <==> j < i + 1 && self.stands_on(
                    j as int,
                    idx,
                )) by {
                    if on_map && idx == at {
                        vstd::seq_lib::lemma_seq_contains_after_push(prev.map.tile_content@[idx]@, i, j);
                    } else {
                        assert(self.map.tile_content@[idx] == prev.map.tile_content@[idx]);
                    }
                }
                assert forall|idx: int, a: int, b: int|
                    0 <= idx < tile_count && 0 <= a < b < self.map.tile_content@[idx]@.len() implies #[trigger] self.map.tile_content@[idx]@[a]
                    < #[trigger] self.map.tile_content@[idx]@[b] by {
                    if on_map && idx == at {
                        if b == prev.map.tile_content@[idx]@.len() {
                            assert(prev.map.tile_content@[idx]@.contains(prev.map.tile_content@[idx]@[a]));
                        }
                    } else {
                        assert(self.map.tile_content@[idx] == prev.map.tile_content@[idx]);
                    }
                }
            }
            i = i + 1;
        }
        proof {
            assert forall|idx: int| 0 <= idx < tile_count implies self.blocker_among(n as int, idx)
                == self.blocker_on(idx) by {
                if self.blocker_on(idx) {
                    let j = choose|j: int| #[trigger] self.blocks_at(j, idx);
                    assert(j < n);
                }
            }
        }
    }
}

/// Two rising sequences agree on their first `n` entries when they hold the
/// same numbers.
proof fn lemma_rising_agree(s: Seq<usize>, t: Seq<usize>, n: int)
    requires
        forall|v: usize| s.contains(v) <==> t.contains(v),
        forall|a: int, b: int| 0 <= a < b < s.len() ==> #[trigger] s[a] < #[trigger] s[b],
        forall|a: int, b: int| 0 <= a < b < t.len() ==> #[trigger] t[a] < #[trigger] t[b],
        0 <= n <= s.len(),
        n <= t.len(),
    ensures
        forall|i: int| 0 <= i < n ==> s[i] == t[i],
    decreases n,
{
    if n > 0 {
        lemma_rising_agree(s, t, n - 1);
        let i = n - 1;
        assert(s.contains(s[i]));
        let m = choose|m: int| 0 <= m < t.len() && t[m] == s[i];
        if m < i {
            assert(s[m] < s[i]);
        }
        assert(t.contains(t[i]));
        let l = choose|l: int| 0 <= l < s.len() && s[l] == t[i];
        if l < i {
            assert(t[l] < t[i]);
        }
        if m > i {
            assert(t[i] < t[m]);
        }
        if l > i {
            assert(s[i] < s[l]);
        }
    }
}

/// Two rising sequences that hold the same numbers are equal.
pub proof fn lemma_rising_unique(s: Seq<usize>, t: Seq<usize>)
    requires
        forall|v: usize| s.contains(v) <==> t.contains(v),
        forall|a: int, b: int| 0 <= a < b < s.len() ==> #[trigger] s[a] < #[trigger] s[b],
        forall|a: int, b: int| 0 <= a < b < t.len() ==> #[trigger] t[a] < #[trigger] t[b],
    ensures
        s == t,
{
    let n = if s.len() <= t.len() {
        s.len() as int
    } else {
        t.len() as int
    };
    lemma_rising_agree(s, t, n);
    if s.len() > n {
        assert(s.contains(s[n]));
        let m = choose|m: int| 0 <= m < t.len() && t[m] == s[n];
        assert(s[m] < s[n]);
    }
    if t.len() > n {
        assert(t.contains(t[n]));
        let m = choose|m: int| 0 <= m < s.len() && s[m] == t[n];
        assert(t[m] < t[n]);
    }
    assert(s =~= t);
}

/// The index is determined by the layout and by where the actors stand:
/// two worlds that agree on these and are both indexed have the same
/// blocked layer and the same list of actors on every tile.
pub proof fn lemma_index_determined(first: &World, second: &World)
    requires
        first.wf(),
        second.wf(),
        first.indexed(),
        second.indexed(),
        first.map.tiles == second.map.tiles,
        first.map.width == second.map.width,
        first.map.height == second.map.height,
        first.positions == second.positions,
        first.blockers == second.blockers,
    ensures
        first.map.blocked@ == second.map.blocked@,
        forall|idx: int|
            0 <= idx < first.map.tile_count() ==> first.map.tile_content@[idx]@
                == second.map.tile_content@[idx]@,
{
    assert forall|idx: int| 0 <= idx < first.map.tile_count() implies first.map.blocked@[idx]
        == second.map.blocked@[idx] by {
        if first.blocker_on(idx) {
            let i = choose|i: int| #[trigger] first.blocks_at(i, idx);
            assert(second.blocks_at(i, idx));
        }
        if second.blocker_on(idx) {
            let i = choose|i: int| #[trigger] second.blocks_at(i, idx);
            assert(first.blocks_at(i, idx));
        }
    }
    assert(first.map.blocked@ =~= second.map.blocked@);
    assert forall|idx: int| 0 <= idx < first.map.tile_count() implies first.map.tile_content@[idx]@
        == second.map.tile_content@[idx]@ by {
        let s = first.map.tile_content@[idx]@;
        let t = second.map.tile_content@[idx]@;
        assert forall|v: usize| s.contains(v) <==> t.contains(v) by {
            assert(first.map.tile_content@[idx]@.contains(v) <==> first.stands_on(v as int, idx));
            assert(second.map.tile_content@[idx]@.contains(v) <==> second.stands_on(v as int, idx));
        }
        lemma_rising_unique(s, t);
    }
}

} // verus!
