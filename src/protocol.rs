//! The logical messages between players and a match, and the colour palette.

use vstd::prelude::*;
use crate::position::Position;
use crate::visibility::ClientTile;

verus! {

/// The phase of a match.
#[derive(Clone, Copy, Debug, PartialEq, Eq, Hash, Structural)]
pub enum AreaAttackState {
    /// Players pick their starting tiles.
    Selecting,
    /// Mines are placed and players race to reveal.
    Stage1,
    /// The match is over.
    Finishing,
    /// No match is running.
    Inactive,
}

/// Whether a match takes new players.
#[derive(Clone, Copy, Debug, PartialEq, Eq, Hash, Structural)]
pub enum Access {
    Open,
    Full,
}

/// The colours players are told apart by, in the order they are handed out.
#[derive(Clone, Copy, Debug, PartialEq, Eq, Hash, Structural)]
pub enum PlayerColor {
    Red,
    Orange,
    Yellow,
    Green,
    Blue,
    Purple,
}

/// The number of colours in the palette.
pub const PALETTE_SIZE: usize = 6;

/// The palette, in the order colours are handed out.
pub open spec fn palette() -> Seq<PlayerColor> {
    seq![
        PlayerColor::Red,
        PlayerColor::Orange,
        PlayerColor::Yellow,
        PlayerColor::Green,
        PlayerColor::Blue,
        PlayerColor::Purple,
    ]
}

/// The first colour of the palette, from index `i` on, that `taken` does not hold.
pub open spec fn first_free_from(taken: Seq<PlayerColor>, i: int) -> Option<PlayerColor>
    decreases PALETTE_SIZE - i,
{
    if i < 0 || i >= PALETTE_SIZE {
        None
    } else if taken.contains(palette()[i]) {
        first_free_from(taken, i + 1)
    } else {
        Some(palette()[i])
    }
}

/// The `i`-th colour of the palette.
pub fn palette_color(i: usize) -> (r: PlayerColor)
    requires
        i < PALETTE_SIZE,
    ensures
        r == palette()[i as int],
{
    if i == 0 {
        PlayerColor::Red
    } else if i == 1 {
        PlayerColor::Orange
    } else if i == 2 {
        PlayerColor::Yellow
    } else if i == 3 {
        PlayerColor::Green
    } else if i == 4 {
        PlayerColor::Blue
    } else {
        PlayerColor::Purple
    }
}

/// The first colour of the palette that no one in `taken` has, if any is left.
pub fn assign_color(taken: &Vec<PlayerColor>) -> (r: Option<PlayerColor>)
    ensures
        r == first_free_from(taken@, 0),
{
    let mut i: usize = 0;
    while i < PALETTE_SIZE
        invariant
            i <= PALETTE_SIZE,
            first_free_from(taken@, 0) == first_free_from(taken@, i as int),
        decreases PALETTE_SIZE - i,
    {
        let c = palette_color(i);
        let mut found = false;
        let mut j: usize = 0;
        while j < taken.len()
            invariant
                j <= taken@.len(),
                found == (exists|t: int| 0 <= t < j && taken@[t] == c),
            decreases taken@.len() - j,
        {
            if taken[j] == c {
                found = true;
            }
            j = j + 1;
        }
        if !found {
            assert(!taken@.contains(c));
            return Some(c);
        }
        assert(taken@.contains(c));
        i = i + 1;
    }
    None
}

/// A request from a player to its match.
#[derive(Clone, Copy, Debug, PartialEq, Eq, Hash, Structural)]
pub enum AreaAttackRequest {
    /// Begin play; only the host may ask, and only while selecting.
    StartGame,
    /// Select a starting tile (while selecting) or reveal a tile (in play).
    Reveal(Position),
    /// The player's cursor moved.
    Position(Position),
}

/// A message from a match to one player.
#[derive(Clone, Copy, Debug, PartialEq, Eq, Hash, Structural)]
pub enum AreaAttackUpdate {
    /// The shape of the match's field; its template travels with the message.
    FieldShape,
    /// Another player's identity and cursor.
    PlayerProperties { id: usize, color: PlayerColor, position: Position },
    /// The receiving player's own identity and cursor.
    SelfChange { color: PlayerColor, position: Position },
    /// A tile changed, as the receiver sees it.
    TileChanged { position: Position, to: ClientTile },
    /// Another player's cursor moved.
    Reposition { id: usize, position: Position },
    /// The match entered a new phase.
    Transition(AreaAttackState),
}

/// A message and the player it goes to.
#[derive(Clone, Copy, Debug, PartialEq, Eq, Hash, Structural)]
pub struct Outgoing {
    pub receiver: usize,
    pub update: AreaAttackUpdate,
}

/// `update` for every player `0..n`, in order.
pub open spec fn broadcast(n: nat, update: AreaAttackUpdate) -> Seq<Outgoing> {
    Seq::new(n, |i: int| Outgoing { receiver: i as usize, update })
}

/// `update` for every player in `0..k` but `skip`, in order.
pub open spec fn broadcast_except(k: int, skip: usize, update: AreaAttackUpdate) -> Seq<Outgoing>
    decreases k,
{
    if k <= 0 {
        seq![]
    } else if k - 1 == skip {
        broadcast_except(k - 1, skip, update)
    } else {
        broadcast_except(k - 1, skip, update).push(Outgoing { receiver: (k - 1) as usize, update })
    }
}

/// Sends `update` to every player `0..n`.
pub fn broadcast_to(n: usize, update: &AreaAttackUpdate, out: &mut Vec<Outgoing>)
    ensures
        final(out)@ == old(out)@ + broadcast(n as nat, *update),
{
    let ghost start = out@;
    let mut i: usize = 0;
    while i < n
        invariant
            i <= n,
            out@ == start + broadcast(i as nat, *update),
        decreases n - i,
    {
        out.push(Outgoing { receiver: i, update: *update });
        i = i + 1;
        assert(out@ =~= start + broadcast(i as nat, *update));
    }
}

} // verus!
