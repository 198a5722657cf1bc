//! The store of actors: one column per kind of data, one row per actor.

use crate::components::{BlocksTile, CombatStats, Monster, Name, Player, Position, Renderable, Viewshed};
use crate::map::GridMap;
use vstd::prelude::*;

verus! {

/// The map and the actors on it. An actor is a row number; each column
/// holds, for every actor, one kind of data or nothing.
pub struct World {
    pub map: GridMap,
    /// Where the player was last known to stand.
    pub player_pos: Position,
    pub positions: Vec<Option<Position>>,
    pub viewsheds: Vec<Option<Viewshed>>,
    pub players: Vec<Option<Player>>,
    pub monsters: Vec<Option<Monster>>,
    pub blockers: Vec<Option<BlocksTile>>,
    pub combat_stats: Vec<Option<CombatStats>>,
    pub names: Vec<Option<Name>>,
    pub renderables: Vec<Option<Renderable>>,
}

/// The data of one actor: what a row of the world holds.
pub struct Actor {
    pub position: Option<Position>,
    pub viewshed: Option<Viewshed>,
    pub player: Option<Player>,
    pub monster: Option<Monster>,
    pub blocks_tile: Option<BlocksTile>,
    pub combat_stats: Option<CombatStats>,
    pub name: Option<Name>,
    pub renderable: Option<Renderable>,
}

impl Actor {
    /// An actor with no data.
    pub fn empty() -> (actor: Actor)
        ensures
            actor.position is None,
            actor.viewshed is None,
            actor.player is None,
            actor.monster is None,
            actor.blocks_tile is None,
            actor.combat_stats is None,
            actor.name is None,
            actor.renderable is None,
    {
        Actor {
            position: None,
            viewshed: None,
            player: None,
            monster: None,
            blocks_tile: None,
            combat_stats: None,
            name: None,
            renderable: None,
        }
    }
}

impl World {
    /// The number of actors.
    pub open spec fn entity_count(&self) -> int {
        self.positions@.len() as int
    }

    /// The map is well formed and every column has one entry per actor.
    pub open spec fn wf(&self) -> bool {
        &&& self.map.wf()
        &&& self.viewsheds@.len() == self.entity_count()
        &&& self.players@.len() == self.entity_count()
        &&& self.monsters@.len() == self.entity_count()
        &&& self.blockers@.len() == self.entity_count()
        &&& self.combat_stats@.len() == self.entity_count()
        &&& self.names@.len() == self.entity_count()
        &&& self.renderables@.len() == self.entity_count()
    }

    /// Whether actor `i` stands on the cell of the map with index `idx`.
    pub open spec fn stands_on(&self, i: int, idx: int) -> bool {
        &&& 0 <= i < self.entity_count()
        &&& self.positions@[i] is Some
        &&& self.map.in_bounds(self.positions@[i].unwrap().x as int, self.positions@[i].unwrap().y as int)
        &&& self.map.index_of(self.positions@[i].unwrap().x as int, self.positions@[i].unwrap().y as int)
            == idx
    }

    /// A world with the given map and no actors.
    pub fn new(map: GridMap) -> (world: World)
        requires
            map.wf(),
        ensures
            world.wf(),
            world.map == map,
            world.entity_count() == 0,
            world.player_pos == (Position { x: 0, y: 0 }),
    {
        World {
            map,
            player_pos: Position { x: 0, y: 0 },
            positions: Vec::new(),
            viewsheds: Vec::new(),
            players: Vec::new(),
            monsters: Vec::new(),
            blockers: Vec::new(),
            combat_stats: Vec::new(),
            names: Vec::new(),
            renderables: Vec::new(),
        }
    }

    /// Adds `actor` as the last row and returns its row number.
    pub fn spawn(&mut self, actor: Actor) -> (id: usize)
        requires
            old(self).wf(),
        ensures
            final(self).wf(),
            id == old(self).entity_count(),
            final(self).map == old(self).map,
            final(self).player_pos == old(self).player_pos,
            final(self).positions@ == old(self).positions@.push(actor.position),
            final(self).viewsheds@ == old(self).viewsheds@.push(actor.viewshed),
            final(self).players@ == old(self).players@.push(actor.player),
            final(self).monsters@ == old(self).monsters@.push(actor.monster),
            final(self).blockers@ == old(self).blockers@.push(actor.blocks_tile),
            final(self).combat_stats@ == old(self).combat_stats@.push(actor.combat_stats),
            final(self).names@ == old(self).names@.push(actor.name),
            final(self).renderables@ == old(self).renderables@.push(actor.renderable),
    {
        let id: usize = self.positions.len();
        self.positions.push(actor.position);
        self.viewsheds.push(actor.viewshed);
        self.players.push(actor.player);
        self.monsters.push(actor.monster);
        self.blockers.push(actor.blocks_tile);
        self.combat_stats.push(actor.combat_stats);
        self.names.push(actor.name);
        self.renderables.push(actor.renderable);
        id
    }
    /// Whether the world is well formed.
    pub fn is_well_formed(&self) -> (b: bool)
        ensures
            b == self.wf(),
    {
        let n: usize = self.positions.len();
        self.map.is_well_formed() && self.viewsheds.len() == n && self.players.len() == n
            && self.monsters.len() == n && self.blockers.len() == n && self.combat_stats.len() == n
            && self.names.len() == n && self.renderables.len() == n
    }
}

} // verus!
