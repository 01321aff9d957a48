//! Properties of the engine that hold for every input, proved over the spec model.

use vstd::prelude::*;
use crate::game::{FREEZE_MILLIS, thaw, selection_allowed};
use crate::position::{Position, too_close_spec};
use crate::server::{RevealState, RevealTile, ServerTile, accepts, reveal_all, reveal_step};

verus! {

/// Revealing one position twice, by any two players at any times, settles its tile
/// once: when the first request is taken up the second changes nothing, the tile ends
/// as one of the two requests alone would leave it, and at most one blank cell is
/// counted in all.
pub proof fn lemma_reveal_idempotent(
    s: RevealState,
    pos: Position,
    a: usize,
    b: usize,
    t1: u64,
    t2: u64,
)
    ensures
        ({
            let r1 = RevealTile { position: pos, player: a };
            let r2 = RevealTile { position: pos, player: b };
            let s1 = reveal_step(s, r1, t1);
            let s2 = reveal_step(s1, r2, t2);
            &&& accepts(s, r1) ==> s2 == s1
            &&& s.remaining <= s2.remaining + 1
            &&& s2.board.contains_key(pos.key()) ==> s2.board[pos.key()] == s1.board[pos.key()]
                || s2.board[pos.key()] == reveal_step(s, r2, t2).board[pos.key()]
        }),
{
    let r1 = RevealTile { position: pos, player: a };
    let r2 = RevealTile { position: pos, player: b };
    let s1 = reveal_step(s, r1, t1);
    let k = pos.key();
    if accepts(s, r1) {
        match s.board[k] {
            ServerTile::Empty => {
                assert(s1.board[k] == ServerTile::Owned { player: a });
            },
            ServerTile::Mine => {
                assert(s1.board[k] == ServerTile::HardMine);
            },
            _ => {},
        }
    }
}

/// A settled tile (owned, or a set-off mine) keeps its state through any sequence of
/// requests, whatever their order, players or duplicates; and the blank count never
/// drops by more than one per request.
pub proof fn lemma_settled_tiles_stay(s: RevealState, reqs: Seq<RevealTile>, now: u64, k: (int, int))
    requires
        s.board.contains_key(k),
        s.board[k] is Owned || s.board[k] is HardMine,
    ensures
        reveal_all(s, reqs, now).board.contains_key(k),
        reveal_all(s, reqs, now).board[k] == s.board[k],
        s.remaining <= reveal_all(s, reqs, now).remaining + reqs.len(),
    decreases reqs.len(),
{
    if reqs.len() > 0 {
        lemma_settled_tiles_stay(s, reqs.drop_last(), now, k);
        let mid = reveal_all(s, reqs.drop_last(), now);
        let r = reqs.last();
        if accepts(mid, r) && r.position.key() != k {
            assert(reveal_step(mid, r, now).board[k] == mid.board[k]);
        }
    }
}

/// Setting off a mine turns it into a set-off mine and freezes the player from `now`;
/// while that freeze lasts, every reveal request from the player changes nothing.
pub proof fn lemma_detonation_freezes(s: RevealState, pos: Position, a: usize, now: u64, q: Position, later: u64)
    requires
        accepts(s, RevealTile { position: pos, player: a }),
        s.board[pos.key()] is Mine,
    ensures
        ({
            let s1 = reveal_step(s, RevealTile { position: pos, player: a }, now);
            &&& s1.board[pos.key()] is HardMine
            &&& s1.frozen[a as int] == Some(now)
            &&& reveal_step(s1, RevealTile { position: q, player: a }, later) == s1
        }),
{
}

/// Once `FREEZE_MILLIS` have passed since a player set off a mine, a tick of the
/// freeze timers lifts the freeze, and that player's requests on the field are taken
/// up again.
pub proof fn lemma_thaw_restores(s: RevealState, a: usize, since: u64, now: u64, q: Position)
    requires
        a < s.frozen.len(),
        s.frozen[a as int] == Some(since),
        now >= since + FREEZE_MILLIS,
        s.board.contains_key(q.key()),
    ensures
        accepts(
            RevealState {
                board: s.board,
                remaining: s.remaining,
                frozen: Seq::new(s.frozen.len(), |i: int| thaw(s.frozen[i], now)),
            },
            RevealTile { position: q, player: a },
        ),
{
}

/// With the selection of player `a` at `p` and no other selection but perhaps that of
/// `b`, a request of `b` for `q` is taken exactly when `q` lies at distance 10 or more
/// from `p`.
pub proof fn lemma_selection_distance(sel: Seq<Option<Position>>, a: int, b: int, p: Position, q: Position)
    requires
        0 <= a < sel.len(),
        a != b,
        sel[a] == Some(p),
        forall|o: int| 0 <= o < sel.len() && o != a && o != b ==> sel[o] is None,
    ensures
        selection_allowed(sel, b, q) == !too_close_spec(p.key(), q.key()),
{
    if !too_close_spec(p.key(), q.key()) {
        assert forall|o: int|
            #![trigger sel[o]]
            0 <= o < sel.len() && o != b && sel[o] is Some implies !too_close_spec(
            sel[o].unwrap().key(),
            q.key(),
        ) by {
            assert(o == a);
        }
    } else {
        assert(sel[a] is Some);
    }
}

} // verus!
