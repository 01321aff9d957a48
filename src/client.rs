//! A player's own picture of the field: tiles as the match has told them, local flags,
//! and which requests a reveal key press sends.

use vstd::prelude::*;
use crate::position::{Position, neighbor_key, keys_of};
use crate::protocol::{AreaAttackRequest, AreaAttackState};
use crate::server::pos_of;
use crate::shape::FieldShape;
use crate::tiles::TileGrid;
use crate::visibility::ClientTile;

verus! {

/// Among the first `k` neighbours of `p`, the number that are flagged or known mines.
pub open spec fn marked_upto(board: Map<(int, int), ClientTile>, p: (int, int), k: int) -> nat
    decreases k,
{
    if k <= 0 {
        0
    } else {
        let q = neighbor_key(p, k - 1);
        marked_upto(board, p, k - 1) + (if board.contains_key(q) && (board[q] is Flag
            || board[q] is Mine) {
            1nat
        } else {
            0nat
        })
    }
}

pub proof fn lemma_marked_upto_bound(board: Map<(int, int), ClientTile>, p: (int, int), k: int)
    requires
        0 <= k,
    ensures
        marked_upto(board, p, k) <= k,
    decreases k,
{
    if k > 0 {
        lemma_marked_upto_bound(board, p, k - 1);
    }
}

/// Reveal requests for the first `k` neighbours of `p` on the field that carry no flag.
pub open spec fn unflagged_requests(board: Map<(int, int), ClientTile>, p: (int, int), k: int) -> Seq<
    AreaAttackRequest,
>
    decreases k,
{
    if k <= 0 {
        seq![]
    } else {
        let q = neighbor_key(p, k - 1);
        let rest = unflagged_requests(board, p, k - 1);
        if board.contains_key(q) && !(board[q] is Flag) {
            rest.push(AreaAttackRequest::Reveal(pos_of(q)))
        } else {
            rest
        }
    }
}

/// The requests a reveal key press on `pos` sends: an unknown tile is asked for; on a
/// tile of one's own (its owner is none of `remote`) whose count equals the flags and
/// known mines around it, every unflagged neighbour is asked for; otherwise nothing.
pub open spec fn reveal_requests(board: Map<(int, int), ClientTile>, pos: Position, remote: Seq<usize>) -> Seq<
    AreaAttackRequest,
> {
    let k = pos.key();
    if !board.contains_key(k) {
        seq![]
    } else {
        match board[k] {
            ClientTile::Unknown => seq![AreaAttackRequest::Reveal(pos)],
            ClientTile::Owned { player, num_neighbors } => if !remote.contains(player)
                && marked_upto(board, k, 8) == num_neighbors as nat {
                unflagged_requests(board, k, 8)
            } else {
                seq![]
            },
            _ => seq![],
        }
    }
}

/// Whether flags may be placed in a phase: only during play.
pub open spec fn flags_allowed(state: AreaAttackState) -> bool {
    !(state is Selecting || state is Finishing || state is Inactive)
}

/// The tiles one player knows of.
pub struct ClientField {
    field: TileGrid<ClientTile>,
}

impl ClientField {
    pub closed spec fn board(&self) -> Map<(int, int), ClientTile> {
        self.field.board()
    }

    pub closed spec fn wf(&self) -> bool {
        self.field.wf()
    }

    /// A field of `template` with every tile unknown.
    pub fn new(template: &FieldShape) -> (r: ClientField)
        ensures
            r.wf(),
            r.board().dom() == keys_of(template.cells_spec()).to_set(),
            forall|k: (int, int)| #[trigger] r.board().contains_key(k) ==> r.board()[k] is Unknown,
    {
        ClientField { field: TileGrid::new_shaped(template, ClientTile::Unknown) }
    }

    /// The tile at `pos`, if it is on the field.
    pub fn tile_at(&self, pos: &Position) -> (r: Option<ClientTile>)
        requires
            self.wf(),
        ensures
            r.is_some() == self.board().contains_key(pos.key()),
            r.is_some() ==> r.unwrap() == self.board()[pos.key()],
    {
        self.field.tile_at(pos)
    }

    /// Applies a tile change the match sent; returns whether `pos` is on the field.
    pub fn apply_tile_change(&mut self, pos: &Position, to: ClientTile) -> (r: bool)
        requires
            old(self).wf(),
        ensures
            final(self).wf(),
            r == old(self).board().contains_key(pos.key()),
            final(self).board() == (if r {
                old(self).board().insert(pos.key(), to)
            } else {
                old(self).board()
            }),
    {
        self.field.set_tile(pos, to)
    }

    /// Toggles a local flag on an unknown tile, during play only; any other tile, or
    /// any other phase, is left alone.
    pub fn toggle_flag(&mut self, pos: &Position, state: AreaAttackState)
        requires
            old(self).wf(),
        ensures
            final(self).wf(),
            final(self).board() == (if flags_allowed(state) && old(self).board().contains_key(
                pos.key(),
            ) {
                match old(self).board()[pos.key()] {
                    ClientTile::Unknown => old(self).board().insert(pos.key(), ClientTile::Flag),
                    ClientTile::Flag => old(self).board().insert(pos.key(), ClientTile::Unknown),
                    _ => old(self).board(),
                }
            } else {
                old(self).board()
            }),
    {
        if matches!(state, AreaAttackState::Selecting | AreaAttackState::Finishing | AreaAttackState::Inactive) {
            return;
        }
        match self.field.tile_at(pos) {
            Some(ClientTile::Unknown) => {
                self.field.set_tile(pos, ClientTile::Flag);
            },
            Some(ClientTile::Flag) => {
                self.field.set_tile(pos, ClientTile::Unknown);
            },
            _ => {},
        }
    }

    /// The requests a reveal key press on `pos` sends, as `reveal_requests` describes.
    pub fn request_reveal(&self, pos: Position, remote: &Vec<usize>) -> (r: Vec<AreaAttackRequest>)
        requires
            self.wf(),
        ensures
            r@ == reveal_requests(self.board(), pos, remote@),
    {
        let mut r: Vec<AreaAttackRequest> = Vec::new();
        match self.field.tile_at(&pos) {
            Some(ClientTile::Unknown) => {
                r.push(AreaAttackRequest::Reveal(pos));
                assert(r@ =~= seq![AreaAttackRequest::Reveal(pos)]);
            },
            Some(ClientTile::Owned { player, num_neighbors }) => {
                let mut is_remote = false;
                let mut i: usize = 0;
                while i < remote.len()
                    invariant
                        i <= remote@.len(),
                        is_remote == (exists|t: int| 0 <= t < i && remote@[t] == player),
                    decreases remote@.len() - i,
                {
                    if remote[i] == player {
                        is_remote = true;
                    }
                    i = i + 1;
                }
                if is_remote {
                    assert(remote@.contains(player));
                    return r;
                }
                let mut marked: u8 = 0;
                let mut k: usize = 0;
                while k < 8
                    invariant
                        k <= 8,
                        self.wf(),
                        marked as nat == marked_upto(self.board(), pos.key(), k as int),
                        r@ == unflagged_requests(self.board(), pos.key(), k as int),
                    decreases 8 - k,
                {
                    proof {
                        self.field.lemma_wf();
                        lemma_marked_upto_bound(self.board(), pos.key(), k as int);
                    }
                    if let Some(q) = pos.neighbor(k) {
                        if let Some(t) = self.field.tile_at(&q) {
                            if matches!(t, ClientTile::Flag | ClientTile::Mine) {
                                marked = marked + 1;
                            }
                            if !matches!(t, ClientTile::Flag) {
                                assert(pos_of(q.key()) == q);
                                r.push(AreaAttackRequest::Reveal(q));
                            }
                        }
                    }
                    k = k + 1;
                }
                if marked != num_neighbors {
                    return Vec::new();
                }
            },
            _ => {},
        }
        r
    }
}

} // verus!
