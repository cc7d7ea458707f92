//! Rules engine for a multiplayer strategy board game: the turn-phase state
//! machine, the suspendable action-stack interpreter, and the network message
//! protocol that replicates coarse game-state transitions between a host and
//! its clients.

pub mod camera;
pub mod deck;
pub mod faction;
pub mod phase;
pub mod player;
pub mod protocol;
mod rng;
pub mod screen;
pub mod stack;
pub mod storm;

