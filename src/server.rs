//! Server truth: the tile of every occupied cell, mine placement, and the reveal step
//! that the cascade engine applies.

use vstd::prelude::*;
use crate::grid::{Minefield, neighbors_in, eligible_count, listed, field_density_spec};
use crate::position::{Position, neighbor_key, key_fits, keys_of};
use crate::shape::FieldShape;
use crate::tiles::TileGrid;

verus! {

/// What the server knows of a cell.
#[derive(Clone, Copy, Debug, PartialEq, Eq, Hash, Structural)]
pub enum ServerTile {
    /// Unrevealed, no mine.
    Empty,
    /// Unrevealed, with a mine.
    Mine,
    /// Revealed by `player`.
    Owned { player: usize },
    /// A mine that has been set off.
    HardMine,
}

impl ServerTile {
    /// Whether the tile carries a mine, set off or not.
    pub open spec fn bears_mine(self) -> bool {
        self is Mine || self is HardMine
    }

    pub fn is_mine(&self) -> (r: bool)
        ensures
            r == self.bears_mine(),
    {
        match self {
            ServerTile::Mine | ServerTile::HardMine => true,
            _ => false,
        }
    }
}

/// A request to reveal `position` on behalf of `player`.
#[derive(Clone, Copy, Debug, PartialEq, Eq, Hash, Structural)]
pub struct RevealTile {
    pub position: Position,
    pub player: usize,
}

/// A tile whose server state changed, to be projected to each player.
#[derive(Clone, Copy, Debug, PartialEq, Eq, Hash, Structural)]
pub struct SendTile {
    pub tile: ServerTile,
    pub position: Position,
}

/// The part of a match that a reveal reads and writes: the tiles, the count of blank
/// cells still hidden, and each player's freeze timestamp.
pub struct RevealState {
    pub board: Map<(int, int), ServerTile>,
    pub remaining: nat,
    pub frozen: Seq<Option<u64>>,
}

/// The position whose key is `k`.
pub open spec fn pos_of(k: (int, int)) -> Position {
    Position { x: k.0 as i16, y: k.1 as i16 }
}

/// The number of mine-bearing tiles among the first `k` neighbours of `p`.
pub open spec fn mines_upto(board: Map<(int, int), ServerTile>, p: (int, int), k: int) -> nat
    decreases k,
{
    if k <= 0 {
        0
    } else {
        mines_upto(board, p, k - 1) + (if board.contains_key(neighbor_key(p, k - 1))
            && board[neighbor_key(p, k - 1)].bears_mine() {
            1nat
        } else {
            0nat
        })
    }
}

/// The number of mine-bearing neighbours of `p`.
pub open spec fn mine_count(board: Map<(int, int), ServerTile>, p: (int, int)) -> nat {
    mines_upto(board, p, 8)
}

pub proof fn lemma_mines_upto_bound(board: Map<(int, int), ServerTile>, p: (int, int), k: int)
    requires
        0 <= k,
    ensures
        mines_upto(board, p, k) <= k,
    decreases k,
{
    if k > 0 {
        lemma_mines_upto_bound(board, p, k - 1);
    }
}

/// Whether a reveal request is taken up: the player exists and is not frozen, and the
/// position is on the field.
pub open spec fn accepts(s: RevealState, req: RevealTile) -> bool {
    &&& req.player < s.frozen.len()
    &&& s.frozen[req.player as int].is_none()
    &&& s.board.contains_key(req.position.key())
}

/// The effect of one reveal request: an empty tile becomes owned by the requester and
/// one fewer blank cell remains (never below zero); a mine is set off and freezes the
/// requester from `now`; anything else, and any request that is not taken up, changes
/// nothing.
pub open spec fn reveal_step(s: RevealState, req: RevealTile, now: u64) -> RevealState {
    let k = req.position.key();
    if !accepts(s, req) {
        s
    } else {
        match s.board[k] {
            ServerTile::Empty => RevealState {
                board: s.board.insert(k, ServerTile::Owned { player: req.player }),
                remaining: if s.remaining > 0 {
                    (s.remaining - 1) as nat
                } else {
                    0
                },
                frozen: s.frozen,
            },
            ServerTile::Mine => RevealState {
                board: s.board.insert(k, ServerTile::HardMine),
                remaining: s.remaining,
                frozen: s.frozen.update(req.player as int, Some(now)),
            },
            _ => s,
        }
    }
}

/// The notification a reveal request gives rise to, if any.
pub open spec fn step_events(s: RevealState, req: RevealTile) -> Seq<SendTile> {
    let k = req.position.key();
    if !accepts(s, req) {
        seq![]
    } else {
        match s.board[k] {
            ServerTile::Empty => seq![
                SendTile { tile: ServerTile::Owned { player: req.player }, position: req.position },
            ],
            ServerTile::Mine => seq![SendTile { tile: ServerTile::HardMine, position: req.position }],
            _ => seq![],
        }
    }
}

/// The requests a reveal hands on to the next pass: where an empty tile with no
/// mine-bearing neighbour is revealed, every occupied neighbour, for the same player.
pub open spec fn step_expansion(s: RevealState, req: RevealTile) -> Seq<RevealTile> {
    let k = req.position.key();
    if accepts(s, req) && s.board[k] is Empty && mine_count(s.board, k) == 0 {
        neighbors_in(s.board.dom(), k).map_values(
            |q: (int, int)| RevealTile { position: pos_of(q), player: req.player },
        )
    } else {
        seq![]
    }
}

/// The state after handling `reqs` in order.
pub open spec fn reveal_all(s: RevealState, reqs: Seq<RevealTile>, now: u64) -> RevealState
    decreases reqs.len(),
{
    if reqs.len() == 0 {
        s
    } else {
        reveal_step(reveal_all(s, reqs.drop_last(), now), reqs.last(), now)
    }
}

/// The notifications given while handling `reqs` in order.
pub open spec fn events_all(s: RevealState, reqs: Seq<RevealTile>, now: u64) -> Seq<SendTile>
    decreases reqs.len(),
{
    if reqs.len() == 0 {
        seq![]
    } else {
        events_all(s, reqs.drop_last(), now) + step_events(
            reveal_all(s, reqs.drop_last(), now),
            reqs.last(),
        )
    }
}

/// The requests handed on while handling `reqs` in order.
pub open spec fn expansions_all(s: RevealState, reqs: Seq<RevealTile>, now: u64) -> Seq<RevealTile>
    decreases reqs.len(),
{
    if reqs.len() == 0 {
        seq![]
    } else {
        expansions_all(s, reqs.drop_last(), now) + step_expansion(
            reveal_all(s, reqs.drop_last(), now),
            reqs.last(),
        )
    }
}

/// The tiles of a match's field.
pub struct ServerField {
    tiles: TileGrid<ServerTile>,
}

impl ServerField {
    /// The tile of every occupied cell.
    pub closed spec fn board(&self) -> Map<(int, int), ServerTile> {
        self.tiles.board()
    }

    /// Blank cells still to be revealed.
    pub closed spec fn remaining(&self) -> nat {
        self.tiles.remaining()
    }

    /// The number of occupied cells.
    pub closed spec fn cell_count(&self) -> nat {
        self.tiles.cell_count()
    }

    pub closed spec fn wf(&self) -> bool {
        self.tiles.wf()
    }

    /// The state a reveal works on, with the players' freeze timestamps `frozen`.
    pub open spec fn state(&self, frozen: Seq<Option<u64>>) -> RevealState {
        RevealState { board: self.board(), remaining: self.remaining(), frozen }
    }

    pub proof fn lemma_wf(&self)
        requires
            self.wf(),
        ensures
            self.board().dom().finite(),
            self.board().dom().len() == self.cell_count(),
            self.remaining() <= self.cell_count(),
            forall|k: (int, int)| #[trigger] self.board().contains_key(k) ==> key_fits(k),
    {
        self.tiles.lemma_wf();
    }

    /// A field of `template` with every tile empty and no mine.
    pub fn new(template: &FieldShape) -> (r: ServerField)
        ensures
            r.wf(),
            r.board().dom() == keys_of(template.cells_spec()).to_set(),
            forall|k: (int, int)| #[trigger] r.board().contains_key(k) ==> r.board()[k] is Empty,
            r.remaining() == field_density_spec(r.cell_count()),
    {
        ServerField { tiles: TileGrid::new_shaped(template, ServerTile::Empty) }
    }

    /// The field's cells.
    pub fn minefield(&self) -> (r: &Minefield)
        ensures
            r.cells().dom() == self.board().dom(),
            self.wf() ==> r.wf(),
            r.remaining() == self.remaining(),
            r.len() == self.cell_count(),
    {
        self.tiles.minefield()
    }

    /// The tile at `pos`, if it is on the field.
    pub fn tile_at(&self, pos: &Position) -> (r: Option<ServerTile>)
        requires
            self.wf(),
        ensures
            r.is_some() == self.board().contains_key(pos.key()),
            r.is_some() ==> r.unwrap() == self.board()[pos.key()],
    {
        self.tiles.tile_at(pos)
    }

    /// Blank cells still to be revealed.
    pub fn remaining_blank(&self) -> (r: usize)
        ensures
            r == self.remaining(),
    {
        self.tiles.remaining_blank()
    }

    /// The number of mine-bearing neighbours of `pos`.
    pub fn count_mine_neighbors(&self, pos: &Position) -> (r: u8)
        requires
            self.wf(),
        ensures
            r as nat == mine_count(self.board(), pos.key()),
            r <= 8,
    {
        let mut count: u8 = 0;
        let mut k: usize = 0;
        while k < 8
            invariant
                k <= 8,
                self.wf(),
                count as nat == mines_upto(self.board(), pos.key(), k as int),
            decreases 8 - k,
        {
            proof {
                self.lemma_wf();
                lemma_mines_upto_bound(self.board(), pos.key(), k as int);
            }
            if let Some(q) = pos.neighbor(k) {
                if let Some(t) = self.tile_at(&q) {
                    if t.is_mine() {
                        count = count + 1;
                    }
                }
            }
            k = k + 1;
        }
        proof {
            lemma_mines_upto_bound(self.board(), pos.key(), 8);
        }
        count
    }

    /// Puts a mine on `pos`, whatever it held; returns whether `pos` is on the field.
    pub fn plant_mine(&mut self, pos: &Position) -> (r: bool)
        requires
            old(self).wf(),
        ensures
            final(self).wf(),
            r == old(self).board().contains_key(pos.key()),
            final(self).board() == (if r {
                old(self).board().insert(pos.key(), ServerTile::Mine)
            } else {
                old(self).board()
            }),
            final(self).remaining() == old(self).remaining(),
            final(self).cell_count() == old(self).cell_count(),
    {
        self.tiles.set_tile(pos, ServerTile::Mine)
    }

    /// Places mines on cells drawn at random among those not listed in `exclude`: as
    /// many as the field should hold (`cell_count() - remaining()`), or every such cell
    /// where there are fewer. Returns the cells that now hold the new mines; no other
    /// tile changes, so a listed cell never receives a mine.
    pub fn generate_mines(&mut self, exclude: &Vec<Position>) -> (r: Vec<Position>)
        requires
            old(self).wf(),
        ensures
            final(self).wf(),
            final(self).remaining() == old(self).remaining(),
            final(self).cell_count() == old(self).cell_count(),
            r@.len() == vstd::math::min(
                old(self).cell_count() - old(self).remaining(),
                eligible_count(old(self).board().dom(), exclude@) as int,
            ),
            keys_of(r@).no_duplicates(),
            forall|i: int|
                #![trigger r@[i]]
                0 <= i < r@.len() ==> old(self).board().contains_key(r@[i].key()) && !listed(
                    exclude@,
                    r@[i].key(),
                ),
            final(self).board().dom() == old(self).board().dom(),
            forall|k: (int, int)| #[trigger]
                final(self).board().contains_key(k) ==> final(self).board()[k] == (if keys_of(
                    r@,
                ).contains(k) {
                    ServerTile::Mine
                } else {
                    old(self).board()[k]
                }),
            forall|k: (int, int)|
                #![trigger final(self).board()[k]]
                final(self).board().contains_key(k) && listed(exclude@, k)
                    ==> final(self).board()[k] == old(self).board()[k],
    {
        let chosen = self.tiles.minefield().choose_multiple(exclude);
        let ghost b0 = self.board();
        let mut r: Vec<Position> = Vec::new();
        let mut i: usize = 0;
        while i < chosen.len()
            invariant
                self.wf(),
                i <= chosen@.len(),
                r@.len() == i,
                forall|j: int| 0 <= j < i ==> r@[j] == chosen@[j].0,
                self.remaining() == old(self).remaining(),
                self.cell_count() == old(self).cell_count(),
                forall|j: int|
                    #![trigger chosen@[j]]
                    0 <= j < chosen@.len() ==> b0.contains_key(chosen@[j].0.key()),
                self.board().dom() == b0.dom(),
                forall|k: (int, int)| #[trigger]
                    self.board().contains_key(k) ==> self.board()[k] == (if keys_of(
                        r@,
                    ).contains(k) {
                        ServerTile::Mine
                    } else {
                        b0[k]
                    }),
            decreases chosen@.len() - i,
        {
            let pos = chosen[i].0;
            let ghost before = r@;
            self.tiles.set_tile(&pos, ServerTile::Mine);
            assert(self.board().dom() =~= b0.dom());
            r.push(pos);
            assert(keys_of(r@) =~= keys_of(before).push(pos.key()));
            assert forall|k: (int, int)| #[trigger] self.board().contains_key(k) implies self.board()[k]
                == (if keys_of(r@).contains(k) {
                ServerTile::Mine
            } else {
                b0[k]
            }) by {
                if k == pos.key() {
                    assert(keys_of(r@)[i as int] == k);
                } else {
                    if keys_of(r@).contains(k) {
                        let j = choose|j: int| 0 <= j < keys_of(r@).len() && keys_of(r@)[j] == k;
                        assert(keys_of(before)[j] == k);
                    }
                    if keys_of(before).contains(k) {
                        let j = choose|j: int| 0 <= j < keys_of(before).len() && keys_of(before)[j] == k;
                        assert(keys_of(r@)[j] == k);
                    }
                }
            }
            i = i + 1;
        }
        proof {
            assert forall|a: int, b: int|
                0 <= a < keys_of(r@).len() && 0 <= b < keys_of(r@).len() && a != b implies keys_of(
                r@,
            )[a] != keys_of(r@)[b] by {
                if a < b {
                    assert(chosen@[a].0.key() != chosen@[b].0.key());
                } else {
                    assert(chosen@[b].0.key() != chosen@[a].0.key());
                }
            }
            assert forall|k: (int, int)|
                #![trigger self.board()[k]]
                self.board().contains_key(k) && listed(exclude@, k) implies self.board()[k]
                    == b0[k] by {
                if keys_of(r@).contains(k) {
                    let j = choose|j: int| 0 <= j < keys_of(r@).len() && keys_of(r@)[j] == k;
                    assert(chosen@[j].0.key() == k);
                }
            }
            assert forall|j: int|
                #![trigger r@[j]]
                0 <= j < r@.len() implies b0.contains_key(r@[j].key()) && !listed(exclude@, r@[j].key()) by {
                assert(chosen@[j].0 == r@[j]);
            }
        }
        r
    }

    /// Handles one reveal request, as `reveal_step` describes; returns the notification
    /// it gives rise to and the requests it hands on to the next pass.
    pub fn reveal_tile(&mut self, frozen: &mut Vec<Option<u64>>, req: RevealTile, now: u64) -> (r: (
        Option<SendTile>,
        Vec<RevealTile>,
    ))
        requires
            old(self).wf(),
        ensures
            final(self).wf(),
            final(self).cell_count() == old(self).cell_count(),
            final(self).state(final(frozen)@) == reveal_step(
                old(self).state(old(frozen)@),
                req,
                now,
            ),
            (match r.0 {
                Some(e) => seq![e],
                None => seq![],
            }) == step_events(old(self).state(old(frozen)@), req),
            r.1@ == step_expansion(old(self).state(old(frozen)@), req),
    {
        let ghost s0 = self.state(frozen@);
        if req.player >= frozen.len() {
            return (None, Vec::new());
        }
        if frozen[req.player].is_some() {
            return (None, Vec::new());
        }
        let tile = match self.tiles.tile_at(&req.position) {
            Some(t) => t,
            None => {
                return (None, Vec::new());
            },
        };
        proof {
            self.tiles.lemma_wf();
        }
        match tile {
            ServerTile::Empty => {
                let count = self.count_mine_neighbors(&req.position);
                let mut expansion: Vec<RevealTile> = Vec::new();
                if count == 0 {
                    let neighbors = self.tiles.minefield().iter_neighbor_positions(req.position);
                    let ghost ns = neighbors_in(s0.board.dom(), req.position.key());
                    proof {
                        crate::grid::lemma_present_neighbors_occupied(s0.board.dom(), req.position.key(), 8);
                    }
                    let mut i: usize = 0;
                    while i < neighbors.len()
                        invariant
                            self.wf(),
                            i <= neighbors@.len(),
                            keys_of(neighbors@) == ns,
                            expansion@.len() == i,
                            self.board() == s0.board,
                            forall|k: (int, int)| #[trigger]
                                self.board().contains_key(k) ==> key_fits(k),
                            forall|j: int| #![trigger ns[j]] 0 <= j < ns.len() ==> self.board().contains_key(ns[j]),
                            forall|j: int|
                                0 <= j < i ==> expansion@[j] == (RevealTile {
                                    position: pos_of(ns[j]),
                                    player: req.player,
                                }),
                        decreases neighbors@.len() - i,
                    {
                        assert(keys_of(neighbors@)[i as int] == neighbors@[i as int].key());
                        assert(self.board().contains_key(ns[i as int]));
                        assert(pos_of(ns[i as int]) == neighbors@[i as int]);
                        expansion.push(RevealTile { position: neighbors[i], player: req.player });
                        i = i + 1;
                    }
                    assert(expansion@ =~= ns.map_values(
                        |q: (int, int)| RevealTile { position: pos_of(q), player: req.player },
                    ));
                }
                self.tiles.set_tile(&req.position, ServerTile::Owned { player: req.player });
                self.tiles.count_revealed();
                assert(self.board() =~= s0.board.insert(req.position.key(), ServerTile::Owned { player: req.player }));
                (Some(SendTile { tile: ServerTile::Owned { player: req.player }, position: req.position }), expansion)
            },
            ServerTile::Mine => {
                self.tiles.set_tile(&req.position, ServerTile::HardMine);
                frozen.set(req.player, Some(now));
                (Some(SendTile { tile: ServerTile::HardMine, position: req.position }), Vec::new())
            },
            _ => (None, Vec::new()),
        }
    }
}

/// The reveal work queue. Requests discovered while one queue is drained go to the
/// other, so a large cascade spreads over several passes instead of one.
pub struct CascadeEngine {
    current: Vec<RevealTile>,
    next: Vec<RevealTile>,
}

impl CascadeEngine {
    /// The requests the next pass will handle, in order.
    pub closed spec fn pending(&self) -> Seq<RevealTile> {
        self.next@
    }

    /// Between passes the queue being drained is empty.
    pub closed spec fn wf(&self) -> bool {
        self.current@.len() == 0
    }

    pub fn new() -> (r: CascadeEngine)
        ensures
            r.wf(),
            r.pending() == Seq::<RevealTile>::empty(),
    {
        CascadeEngine { current: Vec::new(), next: Vec::new() }
    }

    /// Queues a request for the next pass.
    pub fn submit(&mut self, req: RevealTile)
        requires
            old(self).wf(),
        ensures
            final(self).wf(),
            final(self).pending() == old(self).pending().push(req),
    {
        self.next.push(req);
    }

    /// Whether no request waits.
    pub fn is_idle(&self) -> (r: bool)
        ensures
            r == (self.pending().len() == 0),
    {
        self.next.len() == 0
    }

    /// One pass: swaps the queues, handles every waiting request in order, and queues
    /// the requests they hand on for the next pass. Returns the notifications, in order,
    /// and whether no blank cell remains hidden.
    pub fn pass(&mut self, field: &mut ServerField, frozen: &mut Vec<Option<u64>>, now: u64) -> (r: (
        Vec<SendTile>,
        bool,
    ))
        requires
            old(self).wf(),
            old(field).wf(),
        ensures
            final(self).wf(),
            final(field).wf(),
            final(field).cell_count() == old(field).cell_count(),
            final(field).state(final(frozen)@) == reveal_all(
                old(field).state(old(frozen)@),
                old(self).pending(),
                now,
            ),
            r.0@ == events_all(old(field).state(old(frozen)@), old(self).pending(), now),
            final(self).pending() == expansions_all(
                old(field).state(old(frozen)@),
                old(self).pending(),
                now,
            ),
            r.1 == (final(field).remaining() == 0),
    {
        let ghost s0 = field.state(frozen@);
        std::mem::swap(&mut self.current, &mut self.next);
        let ghost reqs = self.current@;
        let mut events: Vec<SendTile> = Vec::new();
        let mut i: usize = 0;
        while i < self.current.len()
            invariant
                field.wf(),
                field.cell_count() == old(field).cell_count(),
                reqs == self.current@,
                i <= reqs.len(),
                field.state(frozen@) == reveal_all(s0, reqs.take(i as int), now),
                events@ == events_all(s0, reqs.take(i as int), now),
                self.next@ == expansions_all(s0, reqs.take(i as int), now),
            decreases reqs.len() - i,
        {
            let req = self.current[i];
            assert(reqs.take(i as int + 1).drop_last() =~= reqs.take(i as int));
            assert(reqs.take(i as int + 1).last() == req);
            let (event, mut expansion) = field.reveal_tile(frozen, req, now);
            match event {
                Some(e) => {
                    events.push(e);
                },
                None => {},
            }
            self.next.append(&mut expansion);
            i = i + 1;
            assert(events@ =~= events_all(s0, reqs.take(i as int), now));
        }
        assert(reqs.take(reqs.len() as int) =~= reqs);
        self.current.clear();
        let done = field.remaining_blank() == 0;
        (events, done)
    }
}

} // verus!
