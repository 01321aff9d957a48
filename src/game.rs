//! A match: phases, starting selections, mine placement at the start of play, reveal
//! requests, freeze timers and the fan-out of tile changes to players.

use vstd::prelude::*;
use crate::grid::listed;
use crate::position::{Position, too_close_spec, local_group_keys, keys_of};
use crate::protocol::{
    Access, AreaAttackRequest, AreaAttackState, AreaAttackUpdate, Outgoing, PlayerColor,
    assign_color, broadcast, broadcast_except, broadcast_to, first_free_from,
};
use crate::server::{
    CascadeEngine, RevealTile, SendTile, ServerField, ServerTile, events_all, expansions_all,
    reveal_all,
};
use crate::shape::FieldShape;
use crate::visibility::{ClientTile, project_spec, project_tile};

verus! {

/// How long a player stays frozen after setting off a mine, in milliseconds.
pub const FREEZE_MILLIS: u64 = 5000;

/// A freeze timestamp after a tick at `now`: cleared once `FREEZE_MILLIS` have passed
/// since it was set.
pub open spec fn thaw(f: Option<u64>, now: u64) -> Option<u64> {
    match f {
        Some(t) => if now >= t && now - t >= FREEZE_MILLIS {
            None
        } else {
            f
        },
        None => None,
    }
}

/// Whether `p` keeps the minimum distance from every other player's selection.
pub open spec fn selection_allowed(sel: Seq<Option<Position>>, player: int, p: Position) -> bool {
    forall|o: int|
        #![trigger sel[o]]
        0 <= o < sel.len() && o != player && sel[o] is Some ==> !too_close_spec(
            sel[o].unwrap().key(),
            p.key(),
        )
}

/// One reveal request per player `0..k` that has a selection, in player order.
pub open spec fn selection_requests(sel: Seq<Option<Position>>, k: int) -> Seq<RevealTile>
    decreases k,
{
    if k <= 0 {
        seq![]
    } else {
        let rest = selection_requests(sel, k - 1);
        match sel[k - 1] {
            Some(p) => rest.push(RevealTile { position: p, player: (k - 1) as usize }),
            None => rest,
        }
    }
}

/// The messages telling players `0..n` of each changed tile in `events`, in order.
pub open spec fn tile_messages(board: Map<(int, int), ServerTile>, events: Seq<SendTile>, n: nat) -> Seq<
    Outgoing,
>
    decreases events.len(),
{
    if events.len() == 0 {
        seq![]
    } else {
        tile_messages(board, events.drop_last(), n) + Seq::new(
            n,
            |i: int|
                Outgoing {
                    receiver: i as usize,
                    update: AreaAttackUpdate::TileChanged {
                        position: events.last().position,
                        to: project_spec(board, events.last(), i as usize),
                    },
                },
        )
    }
}

/// Whether a tile has been revealed or set off, so that every player may know of it.
pub open spec fn revealed(t: ServerTile) -> bool {
    t is Owned || t is HardMine
}

/// Whether `m` tells player `n` of a revealed tile on `board` as that player may see it.
pub open spec fn backfill_entry(board: Map<(int, int), ServerTile>, m: Outgoing, n: nat) -> bool {
    &&& m.receiver == n
    &&& m.update matches AreaAttackUpdate::TileChanged { position, to }
    &&& board.contains_key(position.key())
    &&& revealed(board[position.key()])
    &&& to == project_spec(board, SendTile { tile: board[position.key()], position }, n as usize)
}

/// The position a tile message names.
pub open spec fn message_key(m: Outgoing) -> (int, int) {
    match m.update {
        AreaAttackUpdate::TileChanged { position, .. } => position.key(),
        _ => (0, 0),
    }
}

/// Whether every revealed tile of `board` is named by one of `msgs` from index `from` on.
pub open spec fn covers_revealed(board: Map<(int, int), ServerTile>, msgs: Seq<Outgoing>, from: int) -> bool {
    forall|k: (int, int)|
        #![trigger board[k]]
        board.contains_key(k) && revealed(board[k]) ==> exists|j: int|
            from <= j < msgs.len() && message_key(msgs[j]) == k
}

/// The messages of a join of player `players.len()` as `me`: the newcomer learns the
/// field's shape, every earlier player's properties and its own; every earlier player
/// learns the newcomer's; then the newcomer is told of each revealed tile of `board`
/// once, as it may see it.
pub open spec fn join_messages(
    board: Map<(int, int), ServerTile>,
    players: Seq<PlayerSlot>,
    me: PlayerSlot,
    msgs: Seq<Outgoing>,
) -> bool {
    let n = players.len();
    let m = n as int;
    &&& msgs.len() >= 2 * m + 2
    &&& msgs.take(m + 2) == seq![
        Outgoing { receiver: n as usize, update: AreaAttackUpdate::FieldShape },
    ] + peer_properties(players, n) + seq![
        Outgoing {
            receiver: n as usize,
            update: AreaAttackUpdate::SelfChange { color: me.color, position: me.position },
        },
    ]
    &&& msgs.subrange(m + 2, 2 * m + 2) == broadcast(
        n,
        AreaAttackUpdate::PlayerProperties { id: n as usize, color: me.color, position: me.position },
    )
    &&& forall|j: int| #![trigger msgs[j]] 2 * m + 2 <= j < msgs.len() ==> backfill_entry(board, msgs[j], n)
    &&& forall|j1: int, j2: int|
        2 * m + 2 <= j1 < j2 < msgs.len() ==> message_key(msgs[j1]) != message_key(msgs[j2])
    &&& covers_revealed(board, msgs, 2 * m + 2)
}

/// The properties of each of `players`, addressed to player `n`.
pub open spec fn peer_properties(players: Seq<PlayerSlot>, n: nat) -> Seq<Outgoing> {
    Seq::new(
        players.len(),
        |i: int|
            Outgoing {
                receiver: n as usize,
                update: AreaAttackUpdate::PlayerProperties {
                    id: i as usize,
                    color: players[i].color,
                    position: players[i].position,
                },
            },
    )
}

/// What a match knows of one player.
#[derive(Clone, Copy, Debug, PartialEq, Eq, Hash, Structural)]
pub struct PlayerSlot {
    pub color: PlayerColor,
    pub position: Position,
}

/// One match. Players are numbered from 0 in the order they joined; player 0 is the
/// host.
pub struct Match {
    pub state: AreaAttackState,
    pub field: ServerField,
    pub shape: FieldShape,
    pub access: Access,
    pub players: Vec<PlayerSlot>,
    pub selections: Vec<Option<Position>>,
    pub frozen: Vec<Option<u64>>,
    pub engine: CascadeEngine,
}

impl Match {
    pub open spec fn wf(&self) -> bool {
        &&& self.field.wf()
        &&& self.engine.wf()
        &&& self.selections@.len() == self.players@.len()
        &&& self.frozen@.len() == self.players@.len()
    }

    /// The number of players.
    pub open spec fn count(&self) -> nat {
        self.players@.len()
    }

    /// A match on `shape` with no players yet, open to join and selecting.
    pub fn new(shape: FieldShape) -> (r: Match)
        ensures
            r.wf(),
            r.state == AreaAttackState::Selecting,
            r.access == Access::Open,
            r.count() == 0,
            r.field.board().dom() == keys_of(shape.cells_spec()).to_set(),
            forall|k: (int, int)| #[trigger]
                r.field.board().contains_key(k) ==> r.field.board()[k] is Empty,
            r.engine.pending().len() == 0,
            r.shape == shape,
    {
        let field = ServerField::new(&shape);
        Match {
            state: AreaAttackState::Selecting,
            field,
            shape,
            access: Access::Open,
            players: Vec::new(),
            selections: Vec::new(),
            frozen: Vec::new(),
            engine: CascadeEngine::new(),
        }
    }

    /// Whether `p` keeps the minimum distance from every other player's selection.
    pub fn selection_allowed(&self, player: usize, p: &Position) -> (r: bool)
        ensures
            r == selection_allowed(self.selections@, player as int, *p),
    {
        let mut o: usize = 0;
        while o < self.selections.len()
            invariant
                o <= self.selections@.len(),
                forall|q: int|
                    #![trigger self.selections@[q]]
                    0 <= q < o && q != player && self.selections@[q] is Some ==> !too_close_spec(
                        self.selections@[q].unwrap().key(),
                        p.key(),
                    ),
            decreases self.selections@.len() - o,
        {
            if o != player {
                if let Some(s) = self.selections[o] {
                    if s.too_close(p) {
                        assert(self.selections@[o as int] is Some);
                        return false;
                    }
                }
            }
            o = o + 1;
        }
        true
    }

    /// A player picks `requested` as starting tile. Taken only while selecting, from a
    /// known player, on the field, and at distance 10 or more from every other
    /// player's selection; otherwise nothing changes. A taken selection replaces the
    /// player's earlier one, which every player is told is unknown again, and every
    /// player is told the new one is owned (with no count, as no mine is placed yet).
    pub fn update_selecting_tile(&mut self, player: usize, requested: Position) -> (r: Vec<Outgoing>)
        requires
            old(self).wf(),
        ensures
            final(self).wf(),
            final(self).state == old(self).state,
            final(self).field == old(self).field,
            final(self).players == old(self).players,
            final(self).frozen == old(self).frozen,
            final(self).engine == old(self).engine,
            ({
                let ok = old(self).state == AreaAttackState::Selecting && player < old(self).count()
                    && old(self).field.board().contains_key(requested.key()) && selection_allowed(
                    old(self).selections@,
                    player as int,
                    requested,
                );
                &&& ok ==> final(self).selections@ == old(self).selections@.update(
                    player as int,
                    Some(requested),
                )
                &&& ok ==> r@ == (match old(self).selections@[player as int] {
                    Some(prev) => broadcast(
                        old(self).count(),
                        AreaAttackUpdate::TileChanged { position: prev, to: ClientTile::Unknown },
                    ),
                    None => seq![],
                }) + broadcast(
                    old(self).count(),
                    AreaAttackUpdate::TileChanged {
                        position: requested,
                        to: ClientTile::Owned { player, num_neighbors: 0 },
                    },
                )
                &&& !ok ==> final(self).selections == old(self).selections && r@.len() == 0
            }),
    {
        let mut out: Vec<Outgoing> = Vec::new();
        if self.state != AreaAttackState::Selecting || player >= self.players.len() {
            return out;
        }
        if self.field.tile_at(&requested).is_none() {
            return out;
        }
        if !self.selection_allowed(player, &requested) {
            return out;
        }
        let n = self.players.len();
        if let Some(prev) = self.selections[player] {
            broadcast_to(n, &AreaAttackUpdate::TileChanged { position: prev, to: ClientTile::Unknown }, &mut out);
        }
        broadcast_to(
            n,
            &AreaAttackUpdate::TileChanged {
                position: requested,
                to: ClientTile::Owned { player, num_neighbors: 0 },
            },
            &mut out,
        );
        self.selections.set(player, Some(requested));
        out
    }

    /// The host (player 0) starts play while selecting; anyone else, or any other
    /// phase, changes nothing. Mines are placed away from every selection's local
    /// group, each selection is queued as a reveal for its player, and every player is
    /// told of the new phase.
    pub fn selection_transition(&mut self, player: usize) -> (r: Vec<Outgoing>)
        requires
            old(self).wf(),
        ensures
            final(self).wf(),
            final(self).players == old(self).players,
            final(self).selections == old(self).selections,
            final(self).frozen == old(self).frozen,
            ({
                let ok = player == 0 && player < old(self).count() && old(self).state
                    == AreaAttackState::Selecting;
                &&& !ok ==> *final(self) == *old(self) && r@.len() == 0
                &&& ok ==> final(self).state == AreaAttackState::Stage1
                &&& ok ==> r@ == broadcast(
                    old(self).count(),
                    AreaAttackUpdate::Transition(AreaAttackState::Stage1),
                )
                &&& ok ==> final(self).engine.pending() == old(self).engine.pending()
                    + selection_requests(old(self).selections@, old(self).count() as int)
                &&& ok ==> final(self).field.board().dom() == old(self).field.board().dom()
                &&& ok ==> final(self).field.remaining() == old(self).field.remaining()
                &&& ok ==> forall|k: (int, int)| #[trigger]
                    final(self).field.board().contains_key(k) ==> final(self).field.board()[k]
                        == old(self).field.board()[k] || final(self).field.board()[k] is Mine
                &&& ok ==> forall|o: int, k: (int, int)|
                    0 <= o < old(self).count() && old(self).selections@[o] is Some
                        && #[trigger] local_group_keys(old(self).selections@[o].unwrap().key()).contains(k)
                        && final(self).field.board().contains_key(k) ==> final(self).field.board()[k]
                        == old(self).field.board()[k]
                &&& ok && (forall|k: (int, int)| #[trigger]
                    old(self).field.board().contains_key(k) ==> !(old(self).field.board()[k] is Mine))
                    ==> forall|o: int, k: (int, int)|
                    0 <= o < old(self).count() && old(self).selections@[o] is Some
                        && #[trigger] local_group_keys(old(self).selections@[o].unwrap().key()).contains(k)
                        && final(self).field.board().contains_key(k) ==> !(final(self).field.board()[k] is Mine)
            }),
    {
        let mut out: Vec<Outgoing> = Vec::new();
        if player != 0 || player >= self.players.len() || self.state != AreaAttackState::Selecting {
            return out;
        }
        self.state = AreaAttackState::Stage1;
        let n = self.players.len();
        let mut exclude: Vec<Position> = Vec::new();
        let mut o: usize = 0;
        while o < n
            invariant
                o <= n,
                n == self.selections@.len(),
                self.field == old(self).field,
                self.engine == old(self).engine,
                self.players == old(self).players,
                self.selections == old(self).selections,
                self.frozen == old(self).frozen,
                self.state == AreaAttackState::Stage1,
                forall|q: int, k: (int, int)|
                    0 <= q < o && self.selections@[q] is Some && #[trigger] local_group_keys(
                        self.selections@[q].unwrap().key(),
                    ).contains(k) ==> listed(exclude@, k),
            decreases n - o,
        {
            if let Some(s) = self.selections[o] {
                let mut group = s.local_group();
                let ghost before = exclude@;
                let ghost g = group@;
                exclude.append(&mut group);
                proof {
                    crate::grid::lemma_listed_concat(before, g);
                    assert(exclude@ == before + g);
                }
            }
            o = o + 1;
        }
        let ghost b0 = self.field.board();
        let _placed = self.field.generate_mines(&exclude);
        let ghost f1 = self.field;
        let mut q: usize = 0;
        while q < n
            invariant
                q <= n,
                n == self.selections@.len(),
                self.field == f1,
                self.players == old(self).players,
                self.selections == old(self).selections,
                self.frozen == old(self).frozen,
                self.state == AreaAttackState::Stage1,
                self.engine.wf(),
                self.engine.pending() == old(self).engine.pending() + selection_requests(
                    self.selections@,
                    q as int,
                ),
            decreases n - q,
        {
            if let Some(s) = self.selections[q] {
                self.engine.submit(RevealTile { position: s, player: q });
            }
            q = q + 1;
            assert(self.engine.pending() =~= old(self).engine.pending() + selection_requests(
                self.selections@,
                q as int,
            ));
        }
        broadcast_to(n, &AreaAttackUpdate::Transition(AreaAttackState::Stage1), &mut out);
        out
    }

    /// A reveal request in play: queued for the next pass when it comes from a known
    /// player who is not frozen; otherwise dropped.
    pub fn update_stage1_tile(&mut self, player: usize, pos: Position)
        requires
            old(self).wf(),
        ensures
            final(self).wf(),
            final(self).state == old(self).state,
            final(self).field == old(self).field,
            final(self).players == old(self).players,
            final(self).selections == old(self).selections,
            final(self).frozen == old(self).frozen,
            final(self).engine.pending() == (if old(self).state == AreaAttackState::Stage1
                && player < old(self).count() && old(self).frozen@[player as int] is None {
                old(self).engine.pending().push(RevealTile { position: pos, player })
            } else {
                old(self).engine.pending()
            }),
    {
        if self.state == AreaAttackState::Stage1 && player < self.frozen.len()
            && self.frozen[player].is_none() {
            self.engine.submit(RevealTile { position: pos, player });
        }
    }

    /// A tick of the freeze timers at time `now` (milliseconds): each freeze that has
    /// lasted `FREEZE_MILLIS` or more is lifted.
    pub fn unfreeze_players(&mut self, now: u64)
        requires
            old(self).wf(),
        ensures
            final(self).wf(),
            final(self).state == old(self).state,
            final(self).field == old(self).field,
            final(self).players == old(self).players,
            final(self).selections == old(self).selections,
            final(self).engine == old(self).engine,
            final(self).frozen@ == Seq::new(
                old(self).frozen@.len(),
                |i: int| thaw(old(self).frozen@[i], now),
            ),
    {
        let mut i: usize = 0;
        while i < self.frozen.len()
            invariant
                i <= self.frozen@.len(),
                self.frozen@.len() == old(self).frozen@.len(),
                self.state == old(self).state,
                self.field == old(self).field,
                self.players == old(self).players,
                self.selections == old(self).selections,
                self.engine == old(self).engine,
                forall|j: int| 0 <= j < i ==> self.frozen@[j] == thaw(old(self).frozen@[j], now),
                forall|j: int| i <= j < self.frozen@.len() ==> self.frozen@[j] == old(self).frozen@[j],
            decreases self.frozen@.len() - i,
        {
            if let Some(start) = self.frozen[i] {
                if now >= start && now - start >= FREEZE_MILLIS {
                    self.frozen.set(i, None);
                }
            }
            i = i + 1;
        }
        assert(self.frozen@ =~= Seq::new(old(self).frozen@.len(), |i: int| thaw(old(self).frozen@[i], now)));
    }

    /// One pass of the cascade at time `now`. Returns the changed tiles, in order, and
    /// whether no blank cell remains hidden.
    pub fn reveal_tiles(&mut self, now: u64) -> (r: (Vec<SendTile>, bool))
        requires
            old(self).wf(),
        ensures
            final(self).wf(),
            final(self).state == old(self).state,
            final(self).players == old(self).players,
            final(self).selections == old(self).selections,
            final(self).field.state(final(self).frozen@) == reveal_all(
                old(self).field.state(old(self).frozen@),
                old(self).engine.pending(),
                now,
            ),
            final(self).engine.pending() == expansions_all(
                old(self).field.state(old(self).frozen@),
                old(self).engine.pending(),
                now,
            ),
            r.0@ == events_all(old(self).field.state(old(self).frozen@), old(self).engine.pending(), now),
            r.1 == (final(self).field.remaining() == 0),
    {
        let r = self.engine.pass(&mut self.field, &mut self.frozen, now);
        proof {
            lemma_reveal_all_keeps_players(old(self).field.state(old(self).frozen@), old(self).engine.pending(), now);
        }
        r
    }

    /// The messages that tell every player of each changed tile in `events`, as that
    /// player may see it.
    pub fn send_tiles(&self, events: &Vec<SendTile>) -> (r: Vec<Outgoing>)
        requires
            self.wf(),
        ensures
            r@ == tile_messages(self.field.board(), events@, self.count()),
    {
        let n = self.players.len();
        let mut out: Vec<Outgoing> = Vec::new();
        let mut i: usize = 0;
        while i < events.len()
            invariant
                self.field.wf(),
                i <= events@.len(),
                n == self.players@.len(),
                out@ == tile_messages(self.field.board(), events@.take(i as int), n as nat),
            decreases events@.len() - i,
        {
            let e = events[i];
            let ghost start = out@;
            let mut j: usize = 0;
            while j < n
                invariant
                    self.field.wf(),
                    j <= n,
                    out@ == start + Seq::new(
                        j as nat,
                        |t: int|
                            Outgoing {
                                receiver: t as usize,
                                update: AreaAttackUpdate::TileChanged {
                                    position: e.position,
                                    to: project_spec(self.field.board(), e, t as usize),
                                },
                            },
                    ),
                decreases n - j,
            {
                let to = project_tile(&self.field, &e, j);
                out.push(Outgoing { receiver: j, update: AreaAttackUpdate::TileChanged { position: e.position, to } });
                j = j + 1;
                assert(out@ =~= start + Seq::new(
                    j as nat,
                    |t: int|
                        Outgoing {
                            receiver: t as usize,
                            update: AreaAttackUpdate::TileChanged {
                                position: e.position,
                                to: project_spec(self.field.board(), e, t as usize),
                            },
                        },
                ));
            }
            assert(events@.take(i as int + 1).drop_last() =~= events@.take(i as int));
            i = i + 1;
        }
        assert(events@.take(events@.len() as int) =~= events@);
        out
    }

    /// A player's cursor moved: recorded, and every other player is told.
    pub fn broadcast_positions(&mut self, player: usize, pos: Position) -> (r: Vec<Outgoing>)
        requires
            old(self).wf(),
        ensures
            final(self).wf(),
            final(self).state == old(self).state,
            final(self).field == old(self).field,
            final(self).selections == old(self).selections,
            final(self).frozen == old(self).frozen,
            final(self).engine == old(self).engine,
            player < old(self).count() ==> final(self).players@ == old(self).players@.update(
                player as int,
                PlayerSlot { color: old(self).players@[player as int].color, position: pos },
            ),
            player < old(self).count() ==> r@ == broadcast_except(
                old(self).count() as int,
                player,
                AreaAttackUpdate::Reposition { id: player, position: pos },
            ),
            player >= old(self).count() ==> final(self).players == old(self).players && r@.len() == 0,
    {
        let mut out: Vec<Outgoing> = Vec::new();
        if player >= self.players.len() {
            return out;
        }
        let color = self.players[player].color;
        self.players.set(player, PlayerSlot { color, position: pos });
        let n = self.players.len();
        let update = AreaAttackUpdate::Reposition { id: player, position: pos };
        let mut i: usize = 0;
        while i < n
            invariant
                i <= n,
                out@ == broadcast_except(i as int, player, update),
            decreases n - i,
        {
            if i != player {
                out.push(Outgoing { receiver: i, update });
            }
            i = i + 1;
        }
        out
    }

    /// The colours that players hold.
    pub fn taken_colors(&self) -> (r: Vec<PlayerColor>)
        ensures
            r@ == self.players@.map_values(|p: PlayerSlot| p.color),
    {
        let mut r: Vec<PlayerColor> = Vec::new();
        let mut i: usize = 0;
        while i < self.players.len()
            invariant
                i <= self.players@.len(),
                r@ == self.players@.take(i as int).map_values(|p: PlayerSlot| p.color),
            decreases self.players@.len() - i,
        {
            r.push(self.players[i].color);
            i = i + 1;
            assert(r@ =~= self.players@.take(i as int).map_values(|p: PlayerSlot| p.color));
        }
        assert(self.players@.take(self.players@.len() as int) =~= self.players@);
        r
    }

    /// A player joins and gets the next number, the first free colour of the palette,
    /// and the field's centre as cursor (any occupied cell where the template names no
    /// centre). With no colour left the match refuses the player and nothing changes.
    /// From the fifth player on, the match is marked full.
    /// The messages: the newcomer learns the field's shape, every other player's
    /// properties and its own, in that order; every other player learns the
    /// newcomer's properties; then the newcomer is told of every revealed tile, as it
    /// may see it.
    pub fn prepare_player(&mut self) -> (r: Option<(usize, Vec<Outgoing>)>)
        requires
            old(self).wf(),
            old(self).field.board().dom().len() > 0 || old(self).shape.center_spec() is Some,
        ensures
            final(self).wf(),
            final(self).state == old(self).state,
            final(self).field == old(self).field,
            final(self).engine == old(self).engine,
            final(self).shape == old(self).shape,
            first_free_from(old(self).players@.map_values(|p: PlayerSlot| p.color), 0) is None
                ==> *final(self) == *old(self) && r is None,
            first_free_from(old(self).players@.map_values(|p: PlayerSlot| p.color), 0) is Some
                ==> ({
                let n = old(self).count();
                let me = final(self).players@[n as int];
                &&& r is Some
                &&& r.unwrap().0 == n
                &&& final(self).players@ == old(self).players@.push(me)
                &&& Some(me.color) == first_free_from(
                    old(self).players@.map_values(|p: PlayerSlot| p.color),
                    0,
                )
                &&& old(self).shape.center_spec() is Some ==> Some(me.position)
                    == old(self).shape.center_spec()
                &&& old(self).shape.center_spec() is None ==> old(self).field.board().contains_key(
                    me.position.key(),
                )
                &&& final(self).selections@ == old(self).selections@.push(None)
                &&& final(self).frozen@ == old(self).frozen@.push(None)
                &&& final(self).access == (if n >= 4 {
                    Access::Full
                } else {
                    old(self).access
                })
                &&& join_messages(old(self).field.board(), old(self).players@, me, r.unwrap().1@)
            }),
    {
        let taken = self.taken_colors();
        let color = match assign_color(&taken) {
            Some(c) => c,
            None => {
                return None;
            },
        };
        let n = self.players.len();
        proof {
            self.field.lemma_wf();
        }
        let position = crate::grid::starting_position(&self.shape, self.field.minefield());
        let mut out: Vec<Outgoing> = Vec::new();
        out.push(Outgoing { receiver: n, update: AreaAttackUpdate::FieldShape });
        let mut i: usize = 0;
        while i < n
            invariant
                i <= n,
                n == self.players@.len(),
                out@ == seq![Outgoing { receiver: n, update: AreaAttackUpdate::FieldShape }]
                    + peer_properties(self.players@.take(i as int), n as nat),
            decreases n - i,
        {
            let peer = self.players[i];
            out.push(Outgoing {
                receiver: n,
                update: AreaAttackUpdate::PlayerProperties { id: i, color: peer.color, position: peer.position },
            });
            i = i + 1;
            assert(out@ =~= seq![Outgoing { receiver: n, update: AreaAttackUpdate::FieldShape }]
                + peer_properties(self.players@.take(i as int), n as nat));
        }
        assert(self.players@.take(n as int) =~= self.players@);
        out.push(Outgoing { receiver: n, update: AreaAttackUpdate::SelfChange { color, position } });
        let ghost head = out@;
        broadcast_to(
            n,
            &AreaAttackUpdate::PlayerProperties { id: n, color, position },
            &mut out,
        );
        let ghost head2 = out@;
        let ghost board = self.field.board();
        proof {
            self.field.lemma_wf();
        }
        let cells = self.field.minefield().iter_positions();
        let mut c: usize = 0;
        while c < cells.len()
            invariant
                self.field.wf(),
                board == self.field.board(),
                c <= cells@.len(),
                crate::position::keys_of(cells@).to_set() == board.dom(),
                crate::position::keys_of(cells@).no_duplicates(),
                out@.len() >= head2.len(),
                out@.take(head2.len() as int) == head2,
                head2.len() == 2 * n + 2,
                forall|j: int|
                    #![trigger out@[j]]
                    head2.len() <= j < out@.len() ==> backfill_entry(board, out@[j], n as nat)
                        && exists|m: int| 0 <= m < c && cells@[m].key() == message_key(out@[j]),
                forall|j1: int, j2: int|
                    head2.len() <= j1 < j2 < out@.len() ==> message_key(out@[j1]) != message_key(
                        out@[j2],
                    ),
                forall|m: int|
                    #![trigger cells@[m]]
                    0 <= m < c && revealed(board[cells@[m].key()]) ==> exists|j: int|
                        head2.len() <= j < out@.len() && message_key(out@[j]) == cells@[m].key(),
            decreases cells@.len() - c,
        {
            let p = cells[c];
            assert(crate::position::keys_of(cells@)[c as int] == p.key());
            assert(board.dom().contains(p.key()));
            let tile = self.field.tile_at(&p).unwrap();
            let ghost before = out@;
            match tile {
                ServerTile::Owned { .. } | ServerTile::HardMine => {
                    let to = project_tile(&self.field, &SendTile { tile, position: p }, n);
                    out.push(Outgoing { receiver: n, update: AreaAttackUpdate::TileChanged { position: p, to } });
                    assert(out@.take(head2.len() as int) =~= before.take(head2.len() as int));
                    assert forall|j1: int, j2: int|
                        head2.len() <= j1 < j2 < out@.len() implies message_key(out@[j1]) != message_key(
                            out@[j2],
                        ) by {
                        if j2 == out@.len() - 1 {
                            assert(before[j1] == out@[j1]);
                            let m = choose|m: int| 0 <= m < c && cells@[m].key() == message_key(before[j1]);
                            assert(crate::position::keys_of(cells@)[m] == cells@[m].key());
                            assert(crate::position::keys_of(cells@)[c as int] == cells@[c as int].key());
                        } else {
                            assert(before[j1] == out@[j1]);
                            assert(before[j2] == out@[j2]);
                        }
                    }
                    assert forall|j: int|
                        #![trigger out@[j]]
                        head2.len() <= j < out@.len() implies backfill_entry(board, out@[j], n as nat)
                            && exists|m: int| 0 <= m < c + 1 && cells@[m].key() == message_key(out@[j]) by {
                        if j < before.len() {
                            assert(before[j] == out@[j]);
                            let m = choose|m: int| 0 <= m < c && cells@[m].key() == message_key(before[j]);
                        } else {
                            assert(cells@[c as int].key() == message_key(out@[j]));
                        }
                    }
                    assert forall|m: int|
                        #![trigger cells@[m]]
                        0 <= m < c + 1 && revealed(board[cells@[m].key()]) implies exists|j: int|
                            head2.len() <= j < out@.len() && message_key(out@[j]) == cells@[m].key() by {
                        if m < c {
                            let j = choose|j: int|
                                head2.len() <= j < before.len() && message_key(before[j]) == cells@[m].key();
                            assert(before[j] == out@[j]);
                        } else {
                            assert(message_key(out@[out@.len() - 1]) == cells@[m].key());
                        }
                    }
                },
                _ => {
                    assert forall|j: int|
                        #![trigger out@[j]]
                        head2.len() <= j < out@.len() implies backfill_entry(board, out@[j], n as nat)
                            && exists|m: int| 0 <= m < c + 1 && cells@[m].key() == message_key(out@[j]) by {
                        let m = choose|m: int| 0 <= m < c && cells@[m].key() == message_key(out@[j]);
                    }
                },
            }
            c = c + 1;
        }
        proof {
            assert forall|k: (int, int)|
                #![trigger board[k]]
                board.contains_key(k) && revealed(board[k]) implies exists|j: int|
                    2 * n + 2 <= j < out@.len() && message_key(out@[j]) == k by {
                assert(crate::position::keys_of(cells@).contains(k));
                let m = choose|m: int|
                    0 <= m < crate::position::keys_of(cells@).len() && crate::position::keys_of(cells@)[m] == k;
                assert(cells@[m].key() == k);
            }
            assert(out@.subrange(n as int + 2, 2 * n + 2) =~= head2.subrange(n as int + 2, 2 * n + 2));
            assert(head2.subrange(n as int + 2, 2 * n + 2) =~= broadcast(
                n as nat,
                AreaAttackUpdate::PlayerProperties { id: n, color, position },
            ));
            assert(out@.take(n as int + 2) =~= head);
        }
        if n >= 4 {
            self.access = Access::Full;
        }
        self.players.push(PlayerSlot { color, position });
        self.selections.push(None);
        self.frozen.push(None);
        proof {
            let me = PlayerSlot { color, position };
            assert(out@.take(n as int + 2) == seq![
                Outgoing { receiver: n as usize, update: AreaAttackUpdate::FieldShape },
            ] + peer_properties(old(self).players@, n as nat) + seq![
                Outgoing {
                    receiver: n as usize,
                    update: AreaAttackUpdate::SelfChange { color: me.color, position: me.position },
                },
            ]);
            assert(out@.subrange(n as int + 2, 2 * n as int + 2) == broadcast(
                n as nat,
                AreaAttackUpdate::PlayerProperties { id: n, color: me.color, position: me.position },
            ));
            assert(forall|j: int|
                #![trigger out@[j]]
                2 * n + 2 <= j < out@.len() ==> backfill_entry(old(self).field.board(), out@[j], n as nat));
            assert(forall|j1: int, j2: int|
                2 * n + 2 <= j1 < j2 < out@.len() ==> message_key(out@[j1]) != message_key(out@[j2]));
            assert(covers_revealed(old(self).field.board(), out@, 2 * n as int + 2));
            assert(join_messages(
                old(self).field.board(),
                old(self).players@,
                PlayerSlot { color, position },
                out@,
            ));
        }
        Some((n, out))
    }

    /// Routes a player's request to its handler. A start request, or a reveal while
    /// selecting, answers with messages; a reveal in play is queued; a cursor move is
    /// passed on to the other players.
    pub fn handle_request(&mut self, player: usize, req: AreaAttackRequest) -> (r: Vec<Outgoing>)
        requires
            old(self).wf(),
        ensures
            final(self).wf(),
            final(self).frozen == old(self).frozen,
            match req {
                AreaAttackRequest::StartGame => {
                    &&& final(self).players == old(self).players
                    &&& final(self).selections == old(self).selections
                    &&& final(self).state == (if player == 0 && player < old(self).count()
                        && old(self).state == AreaAttackState::Selecting {
                        AreaAttackState::Stage1
                    } else {
                        old(self).state
                    })
                },
                AreaAttackRequest::Reveal(pos) => {
                    &&& final(self).state == old(self).state
                    &&& final(self).field == old(self).field
                    &&& final(self).players == old(self).players
                    &&& old(self).state == AreaAttackState::Selecting ==> final(self).engine
                        == old(self).engine && final(self).selections@ == (if player < old(
                        self,
                    ).count() && old(self).field.board().contains_key(pos.key())
                        && selection_allowed(old(self).selections@, player as int, pos) {
                        old(self).selections@.update(player as int, Some(pos))
                    } else {
                        old(self).selections@
                    })
                    &&& old(self).state != AreaAttackState::Selecting ==> r@.len() == 0
                        && final(self).selections == old(self).selections
                        && final(self).engine.pending() == (if old(self).state
                        == AreaAttackState::Stage1 && player < old(self).count()
                        && old(self).frozen@[player as int] is None {
                        old(self).engine.pending().push(RevealTile { position: pos, player })
                    } else {
                        old(self).engine.pending()
                    })
                },
                AreaAttackRequest::Position(pos) => {
                    &&& final(self).state == old(self).state
                    &&& final(self).field == old(self).field
                    &&& final(self).selections == old(self).selections
                    &&& final(self).engine == old(self).engine
                    &&& player < old(self).count() ==> r@ == broadcast_except(
                        old(self).count() as int,
                        player,
                        AreaAttackUpdate::Reposition { id: player, position: pos },
                    )
                    &&& player >= old(self).count() ==> r@.len() == 0
                },
            },
    {
        match req {
            AreaAttackRequest::StartGame => self.selection_transition(player),
            AreaAttackRequest::Reveal(pos) => {
                if self.state == AreaAttackState::Selecting {
                    self.update_selecting_tile(player, pos)
                } else {
                    self.update_stage1_tile(player, pos);
                    Vec::new()
                }
            },
            AreaAttackRequest::Position(pos) => self.broadcast_positions(player, pos),
        }
    }

}

/// Handling requests never changes the number of players.
pub proof fn lemma_reveal_all_keeps_players(s: crate::server::RevealState, reqs: Seq<RevealTile>, now: u64)
    ensures
        reveal_all(s, reqs, now).frozen.len() == s.frozen.len(),
        reveal_all(s, reqs, now).board.dom() == s.board.dom(),
    decreases reqs.len(),
{
    if reqs.len() > 0 {
        lemma_reveal_all_keeps_players(s, reqs.drop_last(), now);
        let mid = reveal_all(s, reqs.drop_last(), now);
        let k = reqs.last().position.key();
        if crate::server::accepts(mid, reqs.last()) {
            assert(mid.board.insert(k, ServerTile::HardMine).dom() =~= mid.board.dom());
            assert(mid.board.insert(k, ServerTile::Owned { player: reqs.last().player }).dom() =~= mid.board.dom());
        }
    }
}

} // verus!
