//! The player's moves: from a key to a step on the map.

use crate::components::Position;
use crate::state::{RunState, State};
use crate::world::World;
use vstd::prelude::*;

verus! {

/// The keys that steer the player, and `Other` for every other key.
#[derive(Clone, Copy, Debug, PartialEq, Eq, Structural)]
pub enum Key {
    Left,
    Numpad4,
    H,
    A,
    Right,
    Numpad6,
    L,
    D,
    Up,
    Numpad8,
    K,
    W,
    Down,
    Numpad2,
    J,
    S,
    Numpad9,
    Y,
    Numpad7,
    U,
    Numpad3,
    N,
    Numpad1,
    B,
    Other,
}

/// The step that a key stands for: the arrows, the number pad and three
/// letter layouts give the four straight steps, four more pairs of keys the
/// diagonal ones. No key, or any other key, gives no step.
pub open spec fn key_step(key: Option<Key>) -> Option<(int, int)> {
    match key {
        None => None,
        Some(key) => match key {
            Key::Left | Key::Numpad4 | Key::H | Key::A => Some((-1, 0)),
            Key::Right | Key::Numpad6 | Key::L | Key::D => Some((1, 0)),
            Key::Up | Key::Numpad8 | Key::K | Key::W => Some((0, -1)),
            Key::Down | Key::Numpad2 | Key::J | Key::S => Some((0, 1)),
            Key::Numpad9 | Key::Y => Some((1, -1)),
            Key::Numpad7 | Key::U => Some((-1, -1)),
            Key::Numpad3 | Key::N => Some((1, 1)),
            Key::Numpad1 | Key::B => Some((-1, 1)),
            Key::Other => None,
        },
    }
}

impl World {
    /// Whether row `i` of `self` is what steering by `(dx, dy)` makes of row
    /// `i` of `before`: a player that can take the step has moved, every
    /// other actor is where it was.
    pub open spec fn row_steered(&self, before: &World, i: int, dx: int, dy: int) -> bool {
        if before.players@[i] is Some && before.move_target(i, dx, dy) is Some {
            self.row_moved(before, i, before.move_target(i, dx, dy).unwrap())
        } else {
            self.row_kept(before, i)
        }
    }

    /// The player's last known position after steering the first `n` actors
    /// by `(dx, dy)`: where the last player among them that moved has come
    /// to, or the position known before if none moved.
    pub open spec fn steered_player_pos(&self, dx: int, dy: int, n: int) -> Position
        decreases n,
    {
        if n <= 0 {
            self.player_pos
        } else if self.players@[n - 1] is Some && self.move_target(n - 1, dx, dy) is Some {
            Position {
                x: self.move_target(n - 1, dx, dy).unwrap().0 as i32,
                y: self.move_target(n - 1, dx, dy).unwrap().1 as i32,
            }
        } else {
            self.steered_player_pos(dx, dy, n - 1)
        }
    }

    /// What steering by `(dx, dy)` makes of `before`: every player that can
    /// take the step has moved and has its viewshed marked as out of date,
    /// the player's last known position follows, and nothing else differs.
    pub open spec fn player_steered(&self, before: &World, dx: int, dy: int) -> bool {
        &&& self.same_but_places(before)
        &&& self.player_pos == before.steered_player_pos(dx, dy, before.entity_count())
        &&& forall|i: int| 0 <= i < before.entity_count() ==> #[trigger] self.row_steered(before, i, dx, dy)
    }
}

/// Tries to move every player by `(delta_x, delta_y)`.
pub fn try_move_player(delta_x: i32, delta_y: i32, ecs: &mut World)
    requires
        old(ecs).wf(),
    ensures
        final(ecs).wf(),
        final(ecs).player_steered(old(ecs), delta_x as int, delta_y as int),
{
    let n: usize = ecs.positions.len();
    let mut i: usize = 0;
    while i < n
        invariant
            i <= n,
            n == old(ecs).entity_count(),
            ecs.wf(),
            ecs.same_but_places(old(ecs)),
            ecs.player_pos == old(ecs).steered_player_pos(delta_x as int, delta_y as int, i as int),
            forall|j: int|
                0 <= j < i ==> #[trigger] ecs.row_steered(old(ecs), j, delta_x as int, delta_y as int),
            forall|j: int| i <= j < n ==> #[trigger] ecs.row_kept(old(ecs), j),
        decreases n - i,
    {
        let ghost prev = *ecs;
        proof {
            assert(prev.row_kept(old(ecs), i as int));
            assert(prev.move_target(i as int, delta_x as int, delta_y as int) == old(ecs).move_target(
                i as int,
                delta_x as int,
                delta_y as int,
            ));
        }
        let ghost mut stepped = *ecs;
        if ecs.players[i].is_some() {
            let moved: bool = ecs.try_move(i, delta_x, delta_y);
            proof {
                stepped = *ecs;
            }
            if moved {
                let place: Option<Position> = ecs.positions[i];
                match place {
                    Some(pos) => {
                        ecs.player_pos = pos;
                    },
                    None => {},
                }
            }
        }
        proof {
            assert forall|j: int| 0 <= j < n && j != i implies ecs.row_kept(&prev, j) by {
                assert(stepped.row_kept(&prev, j));
            }
            assert forall|j: int| 0 <= j < i implies #[trigger] ecs.row_steered(
                old(ecs),
                j,
                delta_x as int,
                delta_y as int,
            ) by {
                assert(ecs.row_kept(&prev, j));
                assert(prev.row_steered(old(ecs), j, delta_x as int, delta_y as int));
            }
            assert forall|j: int| i < j < n implies #[trigger] ecs.row_kept(old(ecs), j) by {
                assert(ecs.row_kept(&prev, j));
                assert(prev.row_kept(old(ecs), j));
            }
            assert(ecs.row_steered(old(ecs), i as int, delta_x as int, delta_y as int));
        }
        i = i + 1;
    }
}

/// The step that `key` stands for, if any.
pub fn step_of(key: Option<Key>) -> (step: Option<(i32, i32)>)
    ensures
        match step {
            Some(s) => key_step(key) == Some((s.0 as int, s.1 as int)),
            None => key_step(key) is None,
        },
{
    match key {
        None => None,
        Some(key) => match key {
            Key::Left | Key::Numpad4 | Key::H | Key::A => Some((-1, 0)),
            Key::Right | Key::Numpad6 | Key::L | Key::D => Some((1, 0)),
            Key::Up | Key::Numpad8 | Key::K | Key::W => Some((0, -1)),
            Key::Down | Key::Numpad2 | Key::J | Key::S => Some((0, 1)),
            Key::Numpad9 | Key::Y => Some((1, -1)),
            Key::Numpad7 | Key::U => Some((-1, -1)),
            Key::Numpad3 | Key::N => Some((1, 1)),
            Key::Numpad1 | Key::B => Some((-1, 1)),
            Key::Other => None,
        },
    }
}

/// Handles the key that was pressed, if any. A key that stands for a step
/// steers the players by it and sets the simulation running; no key, or any
/// other key, changes nothing and leaves it paused.
pub fn player_input(gs: &mut State, key: Option<Key>) -> (next: RunState)
    requires
        old(gs).ecs.wf(),
    ensures
        final(gs).ecs.wf(),
        final(gs).runstate == old(gs).runstate,
        match key_step(key) {
            Some(step) => next == RunState::Running && final(gs).ecs.player_steered(
                &old(gs).ecs,
                step.0,
                step.1,
            ),
            None => next == RunState::Paused && final(gs).ecs == old(gs).ecs,
        },
{
    match step_of(key) {
        Some(step) => {
            try_move_player(step.0, step.1, &mut gs.ecs);
            RunState::Running
        },
        None => RunState::Paused,
    }
}

} // verus!
