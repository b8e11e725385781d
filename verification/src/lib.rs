//! Core of a minigame server network: a matchmaking queue that pairs waiting
//! players into matches, and the lifecycle state machine that drives each
//! match from creation through a countdown to active play and back to the
//! lobby.
//!
//! The surrounding process (networking, world data, player-visible output)
//! hands plain values in and carries the returned events out; everything that
//! decides what happens to the queue, the games and the players is here.

pub mod color;
pub mod game;
pub mod player;
mod rng;
pub mod server;
