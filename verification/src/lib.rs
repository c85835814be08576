//! Turn-based simulation core for a dungeon crawler.
//!
//! The crate decides, each game tick, what every non-player actor does, how
//! transient environmental hazards (fire, chill) evolve, how time-limited
//! status ailments gate the eligibility to act, and how new monsters and items
//! are probabilistically introduced into the world.  Dungeon layout beyond the
//! basic room-and-corridor generator, rendering, input handling and the
//! concrete monster/item catalog are left to external collaborators.

pub mod components;
pub mod entity_spawners;
pub mod hazards;
pub mod map;
pub mod monster_ai_system;
pub mod random_table;
pub mod rng;
pub mod routing;
pub mod status_system;
