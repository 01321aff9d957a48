//! The single-player game: one player, local flags, and reveals that also open the
//! neighbours of a satisfied number ("chording").

use vstd::prelude::*;
use crate::grid::{eligible_count, listed, field_density_spec};
use crate::position::{Position, neighbor_key, keys_of};
use crate::server::pos_of;
use crate::shape::FieldShape;
use crate::tiles::TileGrid;

verus! {

/// A cell of the single-player field.
#[derive(Clone, Copy, Debug, PartialEq, Eq, Hash, Structural)]
pub enum MineCellState {
    Empty,
    Mine,
    FlaggedEmpty,
    FlaggedMine,
    /// Revealed, with the number of mines around it.
    Revealed(u8),
}

impl MineCellState {
    pub open spec fn bears_mine(self) -> bool {
        self is Mine || self is FlaggedMine
    }

    pub open spec fn flagged(self) -> bool {
        self is FlaggedEmpty || self is FlaggedMine
    }

    /// Flagged or revealed: a cell a reveal should leave alone.
    pub open spec fn marked(self) -> bool {
        self.flagged() || self is Revealed
    }

    pub fn is_mine(&self) -> (r: bool)
        ensures
            r == self.bears_mine(),
    {
        matches!(self, MineCellState::Mine | MineCellState::FlaggedMine)
    }

    pub fn is_flagged(&self) -> (r: bool)
        ensures
            r == self.flagged(),
    {
        matches!(self, MineCellState::FlaggedEmpty | MineCellState::FlaggedMine)
    }

    pub fn is_marked(&self) -> (r: bool)
        ensures
            r == self.marked(),
    {
        matches!(self, MineCellState::FlaggedEmpty | MineCellState::FlaggedMine | MineCellState::Revealed(_))
    }
}

/// The phases of a single-player session.
#[derive(Clone, Copy, Debug, PartialEq, Eq, Hash, Structural)]
pub enum Singleplayer {
    Inactive,
    PreGame,
    Game,
    /// Reserved for returning to the menu.
    Reset,
    GameFailed,
    GameSuccess,
}

impl Singleplayer {
    /// The phase after a reveal pass reported `outcome`: during play, failure and
    /// success end the game; otherwise the phase stays.
    pub fn advance_to_end(self, outcome: Option<GameOutcome>) -> (r: Singleplayer)
        ensures
            r == (if self == Singleplayer::Game {
                match outcome {
                    Some(GameOutcome::Failed) => Singleplayer::GameFailed,
                    Some(GameOutcome::Succeeded) => Singleplayer::GameSuccess,
                    None => self,
                }
            } else {
                self
            }),
    {
        if self != Singleplayer::Game {
            return self;
        }
        match outcome {
            Some(GameOutcome::Failed) => Singleplayer::GameFailed,
            Some(GameOutcome::Succeeded) => Singleplayer::GameSuccess,
            None => self,
        }
    }
}

/// How a single-player game ended.
#[derive(Clone, Copy, Debug, PartialEq, Eq, Hash, Structural)]
pub enum GameOutcome {
    Failed,
    Succeeded,
}

/// The part of the game a reveal reads and writes.
pub struct SingleState {
    pub board: Map<(int, int), MineCellState>,
    pub remaining: nat,
}

/// Among the first `k` neighbours of `p`, the number of flagged cells (when `flags`) or
/// of cells with a mine (otherwise).
pub open spec fn count_upto(board: Map<(int, int), MineCellState>, p: (int, int), k: int, flags: bool) -> nat
    decreases k,
{
    if k <= 0 {
        0
    } else {
        let q = neighbor_key(p, k - 1);
        count_upto(board, p, k - 1, flags) + (if board.contains_key(q) && (if flags {
            board[q].flagged()
        } else {
            board[q].bears_mine()
        }) {
            1nat
        } else {
            0nat
        })
    }
}

pub proof fn lemma_count_upto_bound(board: Map<(int, int), MineCellState>, p: (int, int), k: int, flags: bool)
    requires
        0 <= k,
    ensures
        count_upto(board, p, k, flags) <= k,
    decreases k,
{
    if k > 0 {
        lemma_count_upto_bound(board, p, k - 1, flags);
    }
}

/// Among the first `k` neighbours of `p` on the field, in order, those not marked
/// (when `chord`) or not flagged (otherwise).
pub open spec fn select_upto(board: Map<(int, int), MineCellState>, p: (int, int), k: int, chord: bool) -> Seq<
    (int, int),
>
    decreases k,
{
    if k <= 0 {
        seq![]
    } else {
        let q = neighbor_key(p, k - 1);
        let rest = select_upto(board, p, k - 1, chord);
        if board.contains_key(q) && !(if chord {
            board[q].marked()
        } else {
            board[q].flagged()
        }) {
            rest.push(q)
        } else {
            rest
        }
    }
}

/// What revealing `pos` hands on: an empty cell with no mine around opens its
/// unflagged neighbours; a revealed number whose flags match it opens its unmarked
/// neighbours.
pub open spec fn single_expansion(s: SingleState, pos: Position) -> Seq<Position> {
    let k = pos.key();
    if !s.board.contains_key(k) {
        seq![]
    } else {
        match s.board[k] {
            MineCellState::Empty => if count_upto(s.board, k, 8, false) == 0 {
                select_upto(s.board, k, 8, false).map_values(|q: (int, int)| pos_of(q))
            } else {
                seq![]
            },
            MineCellState::Revealed(x) => if count_upto(s.board, k, 8, true) == x {
                select_upto(s.board, k, 8, true).map_values(|q: (int, int)| pos_of(q))
            } else {
                seq![]
            },
            _ => seq![],
        }
    }
}

/// The effect of revealing `pos`: an empty cell shows its mine count and one fewer
/// blank cell remains (never below zero); anything else stays as it is.
pub open spec fn single_step(s: SingleState, pos: Position) -> SingleState {
    let k = pos.key();
    if s.board.contains_key(k) && s.board[k] is Empty {
        SingleState {
            board: s.board.insert(k, MineCellState::Revealed(count_upto(s.board, k, 8, false) as u8)),
            remaining: if s.remaining > 0 {
                (s.remaining - 1) as nat
            } else {
                0
            },
        }
    } else {
        s
    }
}

/// The outcome a reveal reports: failure on a mine, else success once no blank cell
/// remains.
pub open spec fn single_outcome(s: SingleState, pos: Position) -> Option<GameOutcome> {
    let k = pos.key();
    if s.board.contains_key(k) && s.board[k] is Mine {
        Some(GameOutcome::Failed)
    } else if single_step(s, pos).remaining == 0 {
        Some(GameOutcome::Succeeded)
    } else {
        None
    }
}

/// The state after revealing each of `reqs` in order.
pub open spec fn single_all(s: SingleState, reqs: Seq<Position>) -> SingleState
    decreases reqs.len(),
{
    if reqs.len() == 0 {
        s
    } else {
        single_step(single_all(s, reqs.drop_last()), reqs.last())
    }
}

/// The cells handed on while revealing each of `reqs` in order.
pub open spec fn single_expansions(s: SingleState, reqs: Seq<Position>) -> Seq<Position>
    decreases reqs.len(),
{
    if reqs.len() == 0 {
        seq![]
    } else {
        single_expansions(s, reqs.drop_last()) + single_expansion(
            single_all(s, reqs.drop_last()),
            reqs.last(),
        )
    }
}

/// The first outcome reported while revealing each of `reqs` in order.
pub open spec fn single_first_outcome(s: SingleState, reqs: Seq<Position>) -> Option<GameOutcome>
    decreases reqs.len(),
{
    if reqs.len() == 0 {
        None
    } else {
        let before = single_first_outcome(s, reqs.drop_last());
        if before is Some {
            before
        } else {
            single_outcome(single_all(s, reqs.drop_last()), reqs.last())
        }
    }
}

/// A single-player game: the field and the reveal queues.
pub struct SingleplayerGame {
    field: TileGrid<MineCellState>,
    current: Vec<Position>,
    next: Vec<Position>,
}

impl SingleplayerGame {
    /// The cell states.
    pub closed spec fn board(&self) -> Map<(int, int), MineCellState> {
        self.field.board()
    }

    /// Blank cells still to be revealed.
    pub closed spec fn remaining(&self) -> nat {
        self.field.remaining()
    }

    /// The number of occupied cells.
    pub closed spec fn cell_count(&self) -> nat {
        self.field.cell_count()
    }

    /// The cell states and the count of blank cells still hidden.
    pub open spec fn state(&self) -> SingleState {
        SingleState { board: self.board(), remaining: self.remaining() }
    }

    /// The state of the cell at `pos`, if it is on the field.
    pub fn tile_at(&self, pos: &Position) -> (r: Option<MineCellState>)
        requires
            self.wf(),
        ensures
            r.is_some() == self.board().contains_key(pos.key()),
            r.is_some() ==> r.unwrap() == self.board()[pos.key()],
    {
        self.field.tile_at(pos)
    }

    /// Blank cells still to be revealed.
    pub fn remaining_blank(&self) -> (r: usize)
        ensures
            r == self.remaining(),
    {
        self.field.remaining_blank()
    }

    /// The cells the next pass will reveal, in order.
    pub closed spec fn pending(&self) -> Seq<Position> {
        self.next@
    }

    pub closed spec fn wf(&self) -> bool {
        &&& self.field.wf()
        &&& self.current@.len() == 0
    }

    /// A game on `template` with every cell empty and nothing queued.
    pub fn new(template: &FieldShape) -> (r: SingleplayerGame)
        ensures
            r.wf(),
            r.board().dom() == keys_of(template.cells_spec()).to_set(),
            forall|k: (int, int)| #[trigger]
                r.board().contains_key(k) ==> r.board()[k] is Empty,
            r.remaining() == field_density_spec(r.cell_count()),
            r.pending().len() == 0,
    {
        SingleplayerGame {
            field: TileGrid::new_shaped(template, MineCellState::Empty),
            current: Vec::new(),
            next: Vec::new(),
        }
    }

    /// Queues `pos` to be revealed on the next pass.
    pub fn check_cell(&mut self, pos: Position)
        requires
            old(self).wf(),
        ensures
            final(self).wf(),
            final(self).state() == old(self).state(),
            final(self).pending() == old(self).pending().push(pos),
    {
        self.next.push(pos);
    }

    /// Whether nothing is queued.
    pub fn is_idle(&self) -> (r: bool)
        ensures
            r == (self.pending().len() == 0),
    {
        self.next.len() == 0
    }

    /// The number of neighbours of `pos` that are flagged (when `flags`) or that hold a
    /// mine (otherwise).
    pub fn count_neighbors(&self, pos: &Position, flags: bool) -> (r: u8)
        requires
            self.wf(),
        ensures
            r as nat == count_upto(self.board(), pos.key(), 8, flags),
    {
        let mut count: u8 = 0;
        let mut k: usize = 0;
        while k < 8
            invariant
                k <= 8,
                self.wf(),
                count as nat == count_upto(self.field.board(), pos.key(), k as int, flags),
            decreases 8 - k,
        {
            proof {
                self.field.lemma_wf();
                lemma_count_upto_bound(self.field.board(), pos.key(), k as int, flags);
            }
            if let Some(q) = pos.neighbor(k) {
                if let Some(t) = self.field.tile_at(&q) {
                    let hit = if flags {
                        t.is_flagged()
                    } else {
                        t.is_mine()
                    };
                    if hit {
                        count = count + 1;
                    }
                }
            }
            k = k + 1;
        }
        count
    }

    /// The neighbours of `pos` on the field, in order, that are not marked (when
    /// `chord`) or not flagged (otherwise).
    pub fn select_neighbors(&self, pos: &Position, chord: bool) -> (r: Vec<Position>)
        requires
            self.wf(),
        ensures
            r@ == select_upto(self.board(), pos.key(), 8, chord).map_values(
                |q: (int, int)| pos_of(q),
            ),
    {
        let mut r: Vec<Position> = Vec::new();
        let mut k: usize = 0;
        while k < 8
            invariant
                k <= 8,
                self.wf(),
                r@ == select_upto(self.field.board(), pos.key(), k as int, chord).map_values(
                    |q: (int, int)| pos_of(q),
                ),
            decreases 8 - k,
        {
            proof {
                self.field.lemma_wf();
            }
            if let Some(q) = pos.neighbor(k) {
                if let Some(t) = self.field.tile_at(&q) {
                    let skip = if chord {
                        t.is_marked()
                    } else {
                        t.is_flagged()
                    };
                    if !skip {
                        assert(pos_of(q.key()) == q);
                        r.push(q);
                    }
                }
            }
            k = k + 1;
            assert(r@ =~= select_upto(self.field.board(), pos.key(), k as int, chord).map_values(
                |q: (int, int)| pos_of(q),
            ));
        }
        r
    }

    /// Reveals one cell, as `single_step` describes; returns the outcome it reports and
    /// the cells it hands on.
    pub fn reveal_one(&mut self, pos: Position) -> (r: (Option<GameOutcome>, Vec<Position>))
        requires
            old(self).wf(),
        ensures
            final(self).wf(),
            final(self).pending() == old(self).pending(),
            final(self).cell_count() == old(self).cell_count(),
            final(self).state() == single_step(old(self).state(), pos),
            r.0 == single_outcome(old(self).state(), pos),
            r.1@ == single_expansion(old(self).state(), pos),
    {
        let ghost s0 = self.state();
        let tile = match self.field.tile_at(&pos) {
            Some(t) => t,
            None => {
                let outcome = if self.field.remaining_blank() == 0 {
                    Some(GameOutcome::Succeeded)
                } else {
                    None
                };
                return (outcome, Vec::new());
            },
        };
        match tile {
            MineCellState::Empty => {
                let count = self.count_neighbors(&pos, false);
                proof {
                    lemma_count_upto_bound(self.field.board(), pos.key(), 8, false);
                }
                let expansion = if count == 0 {
                    self.select_neighbors(&pos, false)
                } else {
                    Vec::new()
                };
                self.field.set_tile(&pos, MineCellState::Revealed(count));
                self.field.count_revealed();
                let outcome = if self.field.remaining_blank() == 0 {
                    Some(GameOutcome::Succeeded)
                } else {
                    None
                };
                (outcome, expansion)
            },
            MineCellState::Mine => (Some(GameOutcome::Failed), Vec::new()),
            MineCellState::Revealed(x) => {
                let flags = self.count_neighbors(&pos, true);
                let expansion = if flags == x {
                    self.select_neighbors(&pos, true)
                } else {
                    Vec::new()
                };
                let outcome = if self.field.remaining_blank() == 0 {
                    Some(GameOutcome::Succeeded)
                } else {
                    None
                };
                (outcome, expansion)
            },
            _ => {
                let outcome = if self.field.remaining_blank() == 0 {
                    Some(GameOutcome::Succeeded)
                } else {
                    None
                };
                (outcome, Vec::new())
            },
        }
    }

    /// One pass: reveals every queued cell in order and queues what they hand on for
    /// the next pass. Returns the first outcome reported, if any.
    pub fn reveal_cell(&mut self) -> (r: Option<GameOutcome>)
        requires
            old(self).wf(),
        ensures
            final(self).wf(),
            final(self).cell_count() == old(self).cell_count(),
            final(self).state() == single_all(old(self).state(), old(self).pending()),
            final(self).pending() == single_expansions(old(self).state(), old(self).pending()),
            r == single_first_outcome(old(self).state(), old(self).pending()),
    {
        let ghost s0 = self.state();
        std::mem::swap(&mut self.current, &mut self.next);
        let ghost reqs = self.current@;
        let mut work: Vec<Position> = Vec::new();
        std::mem::swap(&mut self.current, &mut work);
        let mut outcome: Option<GameOutcome> = None;
        let mut i: usize = 0;
        while i < work.len()
            invariant
                self.field.wf(),
                self.current@.len() == 0,
                self.field.cell_count() == old(self).cell_count(),
                reqs == work@,
                i <= reqs.len(),
                self.state() == single_all(s0, reqs.take(i as int)),
                outcome == single_first_outcome(s0, reqs.take(i as int)),
                self.next@ == single_expansions(s0, reqs.take(i as int)),
            decreases reqs.len() - i,
        {
            let pos = work[i];
            assert(reqs.take(i as int + 1).drop_last() =~= reqs.take(i as int));
            assert(reqs.take(i as int + 1).last() == pos);
            let (found, mut expansion) = self.reveal_one(pos);
            if outcome.is_none() {
                outcome = found;
            }
            self.next.append(&mut expansion);
            i = i + 1;
        }
        assert(reqs.take(reqs.len() as int) =~= reqs);
        outcome
    }

    /// Toggles a flag on `pos`: an empty cell or a mine gains one, a flagged cell loses
    /// it; a revealed cell, or a position off the field, is left alone.
    pub fn flag_cell(&mut self, pos: &Position)
        requires
            old(self).wf(),
        ensures
            final(self).wf(),
            final(self).pending() == old(self).pending(),
            final(self).remaining() == old(self).remaining(),
            final(self).cell_count() == old(self).cell_count(),
            final(self).board() == (if old(self).board().contains_key(pos.key()) {
                match old(self).board()[pos.key()] {
                    MineCellState::Empty => old(self).board().insert(pos.key(), MineCellState::FlaggedEmpty),
                    MineCellState::FlaggedEmpty => old(self).board().insert(pos.key(), MineCellState::Empty),
                    MineCellState::Mine => old(self).board().insert(pos.key(), MineCellState::FlaggedMine),
                    MineCellState::FlaggedMine => old(self).board().insert(pos.key(), MineCellState::Mine),
                    MineCellState::Revealed(_) => old(self).board(),
                }
            } else {
                old(self).board()
            }),
    {
        let next = match self.field.tile_at(pos) {
            Some(MineCellState::Empty) => Some(MineCellState::FlaggedEmpty),
            Some(MineCellState::FlaggedEmpty) => Some(MineCellState::Empty),
            Some(MineCellState::Mine) => Some(MineCellState::FlaggedMine),
            Some(MineCellState::FlaggedMine) => Some(MineCellState::Mine),
            _ => None,
        };
        if let Some(t) = next {
            self.field.set_tile(pos, t);
        }
    }

    /// Places mines on cells drawn at random among those not listed in `exclude` (the
    /// first cell checked and its neighbours): as many as the field should hold, or
    /// every such cell where there are fewer. Returns the cells that now hold the new
    /// mines; no other cell changes.
    pub fn generate_minefield(&mut self, exclude: &Vec<Position>) -> (r: Vec<Position>)
        requires
            old(self).wf(),
        ensures
            final(self).wf(),
            final(self).pending() == old(self).pending(),
            final(self).remaining() == old(self).remaining(),
            final(self).cell_count() == old(self).cell_count(),
            r@.len() == vstd::math::min(
                old(self).cell_count() - old(self).remaining(),
                eligible_count(old(self).board().dom(), exclude@) as int,
            ),
            keys_of(r@).no_duplicates(),
            forall|i: int|
                #![trigger r@[i]]
                0 <= i < r@.len() ==> old(self).board().contains_key(r@[i].key()) && !listed(
                    exclude@,
                    r@[i].key(),
                ),
            final(self).board().dom() == old(self).board().dom(),
            forall|k: (int, int)| #[trigger]
                final(self).board().contains_key(k) ==> final(self).board()[k] == (if keys_of(
                    r@,
                ).contains(k) {
                    MineCellState::Mine
                } else {
                    old(self).board()[k]
                }),
    {
        let chosen = self.field.minefield().choose_multiple(exclude);
        let ghost b0 = self.board();
        let mut r: Vec<Position> = Vec::new();
        let mut i: usize = 0;
        while i < chosen.len()
            invariant
                self.wf(),
                self.next@ == old(self).next@,
                i <= chosen@.len(),
                r@.len() == i,
                forall|j: int| 0 <= j < i ==> r@[j] == chosen@[j].0,
                self.remaining() == old(self).remaining(),
                self.cell_count() == old(self).cell_count(),
                forall|j: int|
                    #![trigger chosen@[j]]
                    0 <= j < chosen@.len() ==> b0.contains_key(chosen@[j].0.key()),
                self.board().dom() == b0.dom(),
                forall|k: (int, int)| #[trigger]
                    self.board().contains_key(k) ==> self.board()[k] == (if keys_of(
                        r@,
                    ).contains(k) {
                        MineCellState::Mine
                    } else {
                        b0[k]
                    }),
            decreases chosen@.len() - i,
        {
            let pos = chosen[i].0;
            let ghost before = r@;
            self.field.set_tile(&pos, MineCellState::Mine);
            r.push(pos);
            assert(keys_of(r@) =~= keys_of(before).push(pos.key()));
            assert(self.board().dom() =~= b0.dom());
            assert forall|k: (int, int)| #[trigger] self.board().contains_key(k) implies self.board()[k]
                == (if keys_of(r@).contains(k) {
                MineCellState::Mine
            } else {
                b0[k]
            }) by {
                if k == pos.key() {
                    assert(keys_of(r@)[i as int] == k);
                } else {
                    if keys_of(r@).contains(k) {
                        let j = choose|j: int| 0 <= j < keys_of(r@).len() && keys_of(r@)[j] == k;
                        assert(keys_of(before)[j] == k);
                    }
                    if keys_of(before).contains(k) {
                        let j = choose|j: int| 0 <= j < keys_of(before).len() && keys_of(before)[j] == k;
                        assert(keys_of(r@)[j] == k);
                    }
                }
            }
            i = i + 1;
        }
        proof {
            assert forall|a: int, b: int|
                0 <= a < keys_of(r@).len() && 0 <= b < keys_of(r@).len() && a != b implies keys_of(
                r@,
            )[a] != keys_of(r@)[b] by {
                if a < b {
                    assert(chosen@[a].0.key() != chosen@[b].0.key());
                } else {
                    assert(chosen@[b].0.key() != chosen@[a].0.key());
                }
            }
            assert forall|j: int|
                #![trigger r@[j]]
                0 <= j < r@.len() implies b0.contains_key(r@[j].key()) && !listed(exclude@, r@[j].key()) by {
                assert(chosen@[j].0 == r@[j]);
            }
        }
        r
    }

    /// Where the player's cursor starts: the template's centre, or, where it names
    /// none, a cell of the field.
    pub fn start_position(&self, template: &FieldShape) -> (r: Position)
        requires
            self.wf(),
            self.cell_count() > 0 || template.center_spec() is Some,
        ensures
            template.center_spec() is Some ==> Some(r) == template.center_spec(),
            template.center_spec() is None ==> self.board().contains_key(r.key()),
    {
        proof {
            self.field.lemma_wf();
        }
        crate::grid::starting_position(template, self.field.minefield())
    }
}

} // verus!
