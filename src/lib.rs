//! Authoritative game-state engine for a multiplayer minesweeper variant: a sparse
//! mine field, mine placement, the cascading reveal, fog-of-war projection of tiles
//! and the match phase machine; with the same field and placement serving a
//! single-player game and each player's own view of a match.

use vstd::prelude::*;

pub mod position;
pub mod shape;
pub mod grid;
pub mod server;
pub mod tiles;
pub mod visibility;
pub mod protocol;
pub mod game;
pub mod laws;
pub mod singleplayer;
pub mod client;

