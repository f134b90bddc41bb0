//! A turn-based dungeon core: room-and-corridor generation, line-of-sight
//! visibility with dirty flags, a monster reaction pass and the turn state machine.

pub mod rect;
pub mod map;
mod rng;
pub mod visibility;
pub mod world;
pub mod monster_ai;
pub mod state;
