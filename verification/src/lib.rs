//! A turn-based dungeon simulation on a tile grid: dungeon generation,
//! per-actor field of view, occupancy indexing and monster pursuit.

pub mod components;
pub mod dungeon;
pub mod map;
pub mod map_indexing_system;
pub mod monster_ai_system;
pub mod movement;
pub mod paths;
pub mod player;
pub mod random;
pub mod rect;
pub mod sight;
pub mod spawner;
pub mod state;
pub mod visibility_system;
pub mod world;

pub use components::{BlocksTile, CombatStats, Monster, Name, Player, Position, Renderable, Viewshed};
pub use map::{GridMap, TileType};
pub use player::{player_input, try_move_player, Key};
pub use rect::Rect;
pub use state::{RunState, State};
pub use world::{Actor, World};
