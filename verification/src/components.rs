//! The data that can be attached to an actor.

use vstd::prelude::*;

verus! {

/// Marks an actor whose tile other actors cannot enter.
#[derive(Clone, Copy, Debug, PartialEq, Eq, Structural)]
pub struct BlocksTile {}

/// Fighting statistics of an actor.
#[derive(Clone, Copy, Debug, PartialEq, Eq, Structural)]
pub struct CombatStats {
    pub defense: i32,
    pub hp: i32,
    pub max_hp: i32,
    pub power: i32,
}

/// Marks an actor that chases the player.
#[derive(Clone, Copy, Debug, PartialEq, Eq, Structural)]
pub struct Monster {}

/// The name an actor is shown under.
#[derive(Clone, Debug)]
pub struct Name {
    pub name: String,
}

/// Marks the actor that the user steers.
#[derive(Clone, Copy, Debug, PartialEq, Eq, Structural)]
pub struct Player {}

/// The tile an actor stands on.
#[derive(Clone, Copy, Debug, PartialEq, Eq, Structural)]
pub struct Position {
    pub x: i32,
    pub y: i32,
}

/// How an actor is drawn: a character and two colours as red, green, blue.
#[derive(Clone, Copy, Debug, PartialEq, Eq)]
pub struct Renderable {
    pub bg: (u8, u8, u8),
    pub fg: (u8, u8, u8),
    pub glyph: char,
}

/// What an actor sees: its sight range in tiles, the tiles visible from where
/// it stood when they were last computed, and whether they are out of date.
#[derive(Debug)]
pub struct Viewshed {
    pub dirty: bool,
    pub range: i32,
    pub visible_tiles: Vec<Position>,
}

impl Position {
    /// The position as a pair of mathematical integers.
    pub open spec fn point(self) -> (int, int) {
        (self.x as int, self.y as int)
    }
}

} // verus!
