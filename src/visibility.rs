//! What each player is told about a tile: only the player who revealed a tile learns
//! how many mines surround it.

use vstd::prelude::*;
use crate::server::{ServerField, ServerTile, SendTile, mine_count};

verus! {

/// A tile as a player sees it.
#[derive(Clone, Copy, Debug, PartialEq, Eq, Hash, Structural)]
pub enum ClientTile {
    /// Never revealed.
    Unknown,
    /// Revealed by `player`; `num_neighbors` is the mine count around it, told only to
    /// that player (everyone else sees 0).
    Owned { player: usize, num_neighbors: u8 },
    /// A local mark for a suspected mine.
    Flag,
    /// A mine known to be there.
    Mine,
    /// A mine that has been set off.
    HardMine,
    /// A cell destroyed at the end of a match.
    Destroyed,
}

/// The view that `receiver` gets of the changed tile `e` on a board.
pub open spec fn project_spec(board: Map<(int, int), ServerTile>, e: SendTile, receiver: usize) -> ClientTile {
    match e.tile {
        ServerTile::Empty | ServerTile::Mine => ClientTile::Unknown,
        ServerTile::Owned { player } => ClientTile::Owned {
            player,
            num_neighbors: if receiver == player {
                mine_count(board, e.position.key()) as u8
            } else {
                0
            },
        },
        ServerTile::HardMine => ClientTile::HardMine,
    }
}

/// The view that `receiver` gets of the changed tile `e`.
pub fn project_tile(field: &ServerField, e: &SendTile, receiver: usize) -> (r: ClientTile)
    requires
        field.wf(),
    ensures
        r == project_spec(field.board(), *e, receiver),
{
    match e.tile {
        ServerTile::Empty | ServerTile::Mine => ClientTile::Unknown,
        ServerTile::Owned { player } => {
            let num_neighbors = if receiver == player {
                field.count_mine_neighbors(&e.position)
            } else {
                0
            };
            ClientTile::Owned { player, num_neighbors }
        },
        ServerTile::HardMine => ClientTile::HardMine,
    }
}

} // verus!
