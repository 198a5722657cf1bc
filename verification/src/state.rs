//! The simulation as a whole: the world, whether it is running, and the
//! step that advances it.

use crate::player::{key_step, player_input, Key};
use crate::world::World;
use vstd::prelude::*;

verus! {

/// Whether the simulation waits for the player or runs its systems.
#[derive(Clone, Copy, Debug, PartialEq, Eq, Structural)]
pub enum RunState {
    Paused,
    Running,
}

/// The world and the state of the turn.
pub struct State {
    pub ecs: World,
    pub runstate: RunState,
}

/// What one run of the systems makes of `before`: first the visibility
/// system, then pursuit, then the occupancy indexer, each on what the one
/// before it left.
pub open spec fn systems_run(after: &World, before: &World) -> bool {
    exists|seen: World, chased: World|
        #![trigger seen.visibility_run(before), chased.pursuit_run(&seen)]
        {
            &&& seen.wf()
            &&& chased.wf()
            &&& seen.visibility_run(before)
            &&& chased.pursuit_run(&seen)
            &&& after.same_but_index(&chased)
            &&& after.indexed()
        }
}

impl State {
    /// Runs the systems once, in their order: visibility, pursuit,
    /// occupancy.
    pub fn run_systems(&mut self)
        requires
            old(self).ecs.wf(),
        ensures
            final(self).ecs.wf(),
            final(self).runstate == old(self).runstate,
            systems_run(&final(self).ecs, &old(self).ecs),
    {
        self.ecs.run_visibility();
        let ghost seen = self.ecs;
        self.ecs.run_monster_ai();
        let ghost chased = self.ecs;
        self.ecs.run_map_indexing();
        proof {
            assert(seen.visibility_run(&old(self).ecs) && chased.pursuit_run(&seen));
        }
    }

    /// Advances the simulation by one step. While it is running, the
    /// systems run once and it pauses. While it is paused, the key that was
    /// pressed is handled: a key that stands for a step steers the player
    /// and sets it running, anything else leaves it paused.
    pub fn tick(&mut self, key: Option<Key>)
        requires
            old(self).ecs.wf(),
        ensures
            final(self).ecs.wf(),
            match old(self).runstate {
                RunState::Running => {
                    &&& final(self).runstate == RunState::Paused
                    &&& systems_run(&final(self).ecs, &old(self).ecs)
                },
                RunState::Paused => match key_step(key) {
                    Some(step) => {
                        &&& final(self).runstate == RunState::Running
                        &&& final(self).ecs.player_steered(&old(self).ecs, step.0, step.1)
                    },
                    None => {
                        &&& final(self).runstate == RunState::Paused
                        &&& final(self).ecs == old(self).ecs
                    },
                },
            },
    {
        if self.runstate == RunState::Running {
            self.run_systems();
            self.runstate = RunState::Paused;
        } else {
            let next: RunState = player_input(self, key);
            self.runstate = next;
        }
    }
}

} // verus!
