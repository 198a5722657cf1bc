//! The actors a new game starts with: the player in the first room and one
//! monster in every other room.

use crate::components::{BlocksTile, CombatStats, Monster, Name, Player, Position, Renderable, Viewshed};
use crate::random::roll_die;
use crate::world::{Actor, World};
use rltk::RandomNumberGenerator;
use vstd::prelude::*;

verus! {

/// The character for the digit `d`.
pub open spec fn digit(d: nat) -> char {
    seq!['0', '1', '2', '3', '4', '5', '6', '7', '8', '9'][d as int]
}

/// The number `n` written out in decimal digits.
pub open spec fn decimal(n: nat) -> Seq<char>
    decreases n,
{
    if n < 10 {
        seq![digit(n)]
    } else {
        decimal(n / 10).push(digit(n % 10))
    }
}

/// The name of the monster of kind `kind` with the number `number`: the
/// kind, a space, a hash sign and the number.
pub open spec fn numbered(kind: Seq<char>, number: nat) -> Seq<char> {
    kind + seq![' ', '#'] + decimal(number)
}

/// Formats a name with std's `format!`: the kind, then `" #"`, then the
/// number as `Display` writes a `usize`, which is in decimal digits without
/// a sign or leading zeros.
#[verifier::external_body]
fn numbered_name(kind: &str, number: usize) -> (name: String)
    ensures
        name@ == numbered(kind@, number as nat),
{
    format!("{} #{}", kind, number)
}

impl Actor {
    /// Whether this is the player as a new game has it, standing on `at`.
    pub open spec fn is_player_at(&self, at: (int, int)) -> bool {
        &&& self.position == Some(Position { x: at.0 as i32, y: at.1 as i32 })
        &&& self.viewshed is Some
        &&& self.viewshed.unwrap().dirty
        &&& self.viewshed.unwrap().range == 6
        &&& self.viewshed.unwrap().visible_tiles@.len() == 0
        &&& self.player is Some
        &&& self.monster is None
        &&& self.blocks_tile is None
        &&& self.combat_stats == Some(CombatStats { defense: 2, hp: 30, max_hp: 30, power: 5 })
        &&& self.name is Some
        &&& self.name.unwrap().name@ == "Player"@
        &&& self.renderable == Some(Renderable { bg: (0, 0, 0), fg: (255, 255, 0), glyph: '@' })
    }

    /// Whether this is a monster as a new game has it, standing on `at`: a
    /// goblin if `goblin` is set, else an orc, with the number `number` in
    /// its name.
    pub open spec fn is_monster_at(&self, at: (int, int), goblin: bool, number: nat) -> bool {
        &&& self.position == Some(Position { x: at.0 as i32, y: at.1 as i32 })
        &&& self.viewshed is Some
        &&& self.viewshed.unwrap().dirty
        &&& self.viewshed.unwrap().range == 8
        &&& self.viewshed.unwrap().visible_tiles@.len() == 0
        &&& self.player is None
        &&& self.monster is Some
        &&& self.blocks_tile is Some
        &&& self.combat_stats == Some(CombatStats { defense: 1, hp: 16, max_hp: 16, power: 4 })
        &&& self.name is Some
        &&& self.name.unwrap().name@ == numbered(
            if goblin {
                "Goblin"@
            } else {
                "Orc"@
            },
            number,
        )
        &&& self.renderable == Some(
            Renderable {
                bg: (255, 0, 0),
                fg: (0, 0, 0),
                glyph: if goblin {
                    'g'
                } else {
                    'o'
                },
            },
        )
    }
}

/// The player, standing on `(x, y)`.
pub fn player(x: i32, y: i32) -> (actor: Actor)
    ensures
        actor.is_player_at((x as int, y as int)),
{
    Actor {
        position: Some(Position { x, y }),
        viewshed: Some(Viewshed { dirty: true, range: 6, visible_tiles: Vec::new() }),
        player: Some(Player {  }),
        monster: None,
        blocks_tile: None,
        combat_stats: Some(CombatStats { defense: 2, hp: 30, max_hp: 30, power: 5 }),
        name: Some(Name { name: "Player".to_owned() }),
        renderable: Some(Renderable { bg: (0, 0, 0), fg: (255, 255, 0), glyph: '@' }),
    }
}

/// A monster standing on `(x, y)`: a goblin if the die showed 1, else an
/// orc, with `number` in its name.
pub fn monster(x: i32, y: i32, roll: i32, number: usize) -> (actor: Actor)
    ensures
        actor.is_monster_at((x as int, y as int), roll == 1, number as nat),
{
    let glyph: char = if roll == 1 { 'g' } else { 'o' };
    let name: String = if roll == 1 {
        numbered_name("Goblin", number)
    } else {
        numbered_name("Orc", number)
    };
    Actor {
        position: Some(Position { x, y }),
        viewshed: Some(Viewshed { dirty: true, range: 8, visible_tiles: Vec::new() }),
        player: None,
        monster: Some(Monster {  }),
        blocks_tile: Some(BlocksTile {  }),
        combat_stats: Some(CombatStats { defense: 1, hp: 16, max_hp: 16, power: 4 }),
        name: Some(Name { name }),
        renderable: Some(Renderable { bg: (255, 0, 0), fg: (0, 0, 0), glyph }),
    }
}

impl World {
    /// The data of actor `i`.
    pub open spec fn row(&self, i: int) -> Actor {
        Actor {
            position: self.positions@[i],
            viewshed: self.viewsheds@[i],
            player: self.players@[i],
            monster: self.monsters@[i],
            blocks_tile: self.blockers@[i],
            combat_stats: self.combat_stats@[i],
            name: self.names@[i],
            renderable: self.renderables@[i],
        }
    }

    /// What populating makes of `before`: the map and the actors that were
    /// there are as before; after them comes one monster for every room but
    /// the first, in the order of the rooms, each on the midpoint of its
    /// room, a goblin or an orc, numbered from zero; last comes the player,
    /// on the midpoint of the first room, which is also the player's last
    /// known position.
    pub open spec fn populated(&self, before: &World) -> bool {
        let base = before.entity_count();
        let rooms = before.map.rooms@;
        &&& self.map == before.map
        &&& self.entity_count() == base + rooms.len()
        &&& forall|i: int| 0 <= i < base ==> #[trigger] self.row(i) == before.row(i)
        &&& forall|r: int|
            1 <= r < rooms.len() ==> (#[trigger] self.row(base + r - 1)).is_monster_at(
                rooms[r].midpoint(),
                true,
                (r - 1) as nat,
            ) || self.row(base + r - 1).is_monster_at(rooms[r].midpoint(), false, (r - 1) as nat)
        &&& self.row(base + rooms.len() - 1).is_player_at(rooms[0].midpoint())
        &&& self.player_pos.point() == rooms[0].midpoint()
    }

    /// Populates a generated map: one monster in every room but the first,
    /// a goblin or an orc as a die decides, and the player in the first
    /// room.
    pub fn populate(&mut self, rng: &mut RandomNumberGenerator)
        requires
            old(self).wf(),
            old(self).map.rooms@.len() >= 1,
        ensures
            final(self).wf(),
            final(self).populated(old(self)),
    {
        let ghost base = old(self).entity_count();
        let ghost rooms = old(self).map.rooms@;
        let count: usize = self.map.rooms.len();
        let mut r: usize = 1;
        while r < count
            invariant
                1 <= r <= count,
                count == rooms.len(),
                rooms == old(self).map.rooms@,
                base == old(self).entity_count(),
                self.wf(),
                self.map == old(self).map,
                self.player_pos == old(self).player_pos,
                self.entity_count() == base + r - 1,
                forall|i: int| 0 <= i < base ==> #[trigger] self.row(i) == old(self).row(i),
                forall|q: int|
                    1 <= q < r ==> (#[trigger] self.row(base + q - 1)).is_monster_at(
                        rooms[q].midpoint(),
                        true,
                        (q - 1) as nat,
                    ) || self.row(base + q - 1).is_monster_at(rooms[q].midpoint(), false, (q - 1) as nat),
            decreases count - r,
        {
            let (x, y) = self.map.rooms[r].center();
            let roll: i32 = roll_die(rng, 2);
            let ghost prev = *self;
            let id: usize = self.spawn(monster(x, y, roll, r - 1));
            proof {
                assert forall|i: int| 0 <= i < base + r - 1 implies #[trigger] self.row(i) == prev.row(i) by {}
                assert(self.row(base + r - 1).is_monster_at(rooms[r as int].midpoint(), roll == 1, (r - 1) as nat));
            }
            r = r + 1;
        }
        let (player_x, player_y) = self.map.rooms[0].center();
        let ghost prev = *self;
        let id: usize = self.spawn(player(player_x, player_y));
        self.player_pos = Position { x: player_x, y: player_y };
        proof {
            assert forall|i: int| 0 <= i < base + count - 1 implies #[trigger] self.row(i) == prev.row(i) by {}
        }
    }
}

} // verus!
