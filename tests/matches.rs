use quicksweeper::game::{Match, FREEZE_MILLIS};
use quicksweeper::position::Position;
use quicksweeper::protocol::{
    assign_color, Access, AreaAttackRequest, AreaAttackState, AreaAttackUpdate, Outgoing,
    PlayerColor,
};
use quicksweeper::server::{CascadeEngine, RevealTile, SendTile, ServerField, ServerTile};
use quicksweeper::shape::FieldShape;
use quicksweeper::visibility::{project_tile, ClientTile};

fn square(w: i16, h: i16) -> FieldShape {
    let mut cells = Vec::new();
    for y in 0..h {
        for x in 0..w {
            cells.push(Position::new(x, y));
        }
    }
    FieldShape::new(cells, Some(Position::new(w / 2, h / 2)))
}

fn join(m: &mut Match, n: usize) {
    for _ in 0..n {
        m.prepare_player().unwrap();
    }
}

fn run_until_idle(m: &mut Match, now: u64) -> Vec<Outgoing> {
    let mut all = Vec::new();
    let mut guard = 0;
    loop {
        let (events, _) = m.reveal_tiles(now);
        all.extend(m.send_tiles(&events));
        guard += 1;
        if m.engine.is_idle() || guard > 1000 {
            break;
        }
    }
    all
}

#[test]
fn zero_neighbor_cascade_reveals_whole_five_by_five() {
    for y in 0..5 {
        for x in 0..5 {
            let mut field = ServerField::new(&square(5, 5));
            let mut frozen = vec![None];
            let mut engine = CascadeEngine::new();
            engine.submit(RevealTile { position: Position::new(x, y), player: 0 });
            let mut passes = 0;
            let mut done = false;
            while !engine.is_idle() {
                let (_, d) = engine.pass(&mut field, &mut frozen, 0);
                done = done || d;
                passes += 1;
                assert!(passes < 100);
            }
            assert!(done);
            assert_eq!(field.remaining_blank(), 0);
            for yy in 0..5 {
                for xx in 0..5 {
                    assert_eq!(
                        field.tile_at(&Position::new(xx, yy)),
                        Some(ServerTile::Owned { player: 0 })
                    );
                }
            }
        }
    }
}

#[test]
fn cascade_spreads_one_ring_per_pass() {
    let mut field = ServerField::new(&square(5, 5));
    let mut frozen = vec![None];
    let mut engine = CascadeEngine::new();
    engine.submit(RevealTile { position: Position::new(0, 0), player: 0 });
    let (events, _) = engine.pass(&mut field, &mut frozen, 0);
    assert_eq!(events.len(), 1);
    assert!(!engine.is_idle());
    assert_eq!(field.tile_at(&Position::new(1, 1)), Some(ServerTile::Empty));
    let (events, _) = engine.pass(&mut field, &mut frozen, 0);
    assert_eq!(events.len(), 3);
    assert_eq!(field.tile_at(&Position::new(1, 1)), Some(ServerTile::Owned { player: 0 }));
}

#[test]
fn end_to_end_three_by_three() {
    let mut m = Match::new(square(3, 3));
    assert_eq!(m.field.remaining_blank(), 7);
    join(&mut m, 1);
    let sel = m.handle_request(0, AreaAttackRequest::Reveal(Position::new(1, 1)));
    assert_eq!(sel.len(), 1);
    let start = m.handle_request(0, AreaAttackRequest::StartGame);
    assert_eq!(start.len(), 1);
    assert_eq!(start[0].update, AreaAttackUpdate::Transition(AreaAttackState::Stage1));
    assert_eq!(m.state, AreaAttackState::Stage1);
    let out = run_until_idle(&mut m, 0);
    assert_eq!(m.field.remaining_blank(), 0);
    assert_eq!(out.len(), 9);
    let mut seen = Vec::new();
    for o in &out {
        match o.update {
            AreaAttackUpdate::TileChanged { position, to } => {
                assert_eq!(o.receiver, 0);
                assert_eq!(to, ClientTile::Owned { player: 0, num_neighbors: 0 });
                assert!(!seen.contains(&position));
                seen.push(position);
            }
            _ => panic!("unexpected message"),
        }
    }
}

#[test]
fn end_to_end_reports_success() {
    let mut m = Match::new(square(3, 3));
    join(&mut m, 1);
    m.handle_request(0, AreaAttackRequest::Reveal(Position::new(1, 1)));
    m.handle_request(0, AreaAttackRequest::StartGame);
    let mut succeeded = false;
    for _ in 0..10 {
        let (_, done) = m.reveal_tiles(0);
        succeeded = succeeded || done;
    }
    assert!(succeeded);
}

#[test]
fn idempotent_reveal_counts_once() {
    let mut field = ServerField::new(&square(3, 1));
    field.plant_mine(&Position::new(2, 0));
    let mut frozen = vec![None, None];
    let before = field.remaining_blank();
    let mut engine = CascadeEngine::new();
    engine.submit(RevealTile { position: Position::new(0, 0), player: 0 });
    engine.submit(RevealTile { position: Position::new(0, 0), player: 1 });
    engine.submit(RevealTile { position: Position::new(0, 0), player: 0 });
    let (events, _) = engine.pass(&mut field, &mut frozen, 0);
    assert_eq!(events.len(), 1);
    assert_eq!(field.remaining_blank(), before - 1);
    assert_eq!(field.tile_at(&Position::new(0, 0)), Some(ServerTile::Owned { player: 0 }));
}

#[test]
fn mine_exclusion_keeps_local_groups_clear() {
    for _ in 0..30 {
        let mut m = Match::new(square(12, 12));
        join(&mut m, 2);
        m.handle_request(0, AreaAttackRequest::Reveal(Position::new(1, 1)));
        m.handle_request(1, AreaAttackRequest::Reveal(Position::new(10, 10)));
        assert_eq!(m.selections, vec![Some(Position::new(1, 1)), Some(Position::new(10, 10))]);
        m.handle_request(0, AreaAttackRequest::StartGame);
        let mut mines = 0;
        for y in 0..12 {
            for x in 0..12 {
                if m.field.tile_at(&Position::new(x, y)) == Some(ServerTile::Mine) {
                    mines += 1;
                }
            }
        }
        assert_eq!(mines, 144 - 115);
        for s in [Position::new(1, 1), Position::new(10, 10)] {
            for p in s.local_group() {
                assert_ne!(m.field.tile_at(&p), Some(ServerTile::Mine));
            }
        }
    }
}

#[test]
fn generate_mines_returns_placed_cells() {
    let mut field = ServerField::new(&square(10, 10));
    let exclude = Position::new(0, 0).local_group();
    let placed = field.generate_mines(&exclude);
    assert_eq!(placed.len(), 20);
    for p in &placed {
        assert_eq!(field.tile_at(p), Some(ServerTile::Mine));
        assert!(!exclude.contains(p));
    }
    assert_eq!(field.remaining_blank(), 80);
}

#[test]
fn detonation_freezes_until_five_seconds() {
    let mut m = Match::new(square(5, 5));
    join(&mut m, 1);
    m.state = AreaAttackState::Stage1;
    assert!(m.field.plant_mine(&Position::new(0, 0)));
    m.handle_request(0, AreaAttackRequest::Reveal(Position::new(0, 0)));
    let (events, _) = m.reveal_tiles(1000);
    let out = m.send_tiles(&events);
    assert_eq!(m.field.tile_at(&Position::new(0, 0)), Some(ServerTile::HardMine));
    assert_eq!(m.frozen[0], Some(1000));
    assert_eq!(out.len(), 1);
    assert_eq!(
        out[0].update,
        AreaAttackUpdate::TileChanged { position: Position::new(0, 0), to: ClientTile::HardMine }
    );
    m.handle_request(0, AreaAttackRequest::Reveal(Position::new(4, 4)));
    assert!(m.engine.is_idle());
    m.unfreeze_players(1000 + FREEZE_MILLIS - 1);
    assert_eq!(m.frozen[0], Some(1000));
    m.unfreeze_players(1000 + FREEZE_MILLIS);
    assert_eq!(m.frozen[0], None);
    m.handle_request(0, AreaAttackRequest::Reveal(Position::new(4, 4)));
    assert!(!m.engine.is_idle());
    m.reveal_tiles(7000);
    assert_eq!(m.field.tile_at(&Position::new(4, 4)), Some(ServerTile::Owned { player: 0 }));
}

#[test]
fn frozen_player_requests_already_queued_are_dropped() {
    let mut field = ServerField::new(&square(3, 1));
    field.plant_mine(&Position::new(0, 0));
    let mut frozen = vec![None];
    let mut engine = CascadeEngine::new();
    engine.submit(RevealTile { position: Position::new(0, 0), player: 0 });
    engine.submit(RevealTile { position: Position::new(2, 0), player: 0 });
    let (events, _) = engine.pass(&mut field, &mut frozen, 42);
    assert_eq!(events, vec![SendTile { tile: ServerTile::HardMine, position: Position::new(0, 0) }]);
    assert_eq!(frozen[0], Some(42));
    assert_eq!(field.tile_at(&Position::new(2, 0)), Some(ServerTile::Empty));
}

#[test]
fn visibility_hides_count_from_other_players() {
    let mut field = ServerField::new(&square(3, 3));
    for p in [Position::new(0, 0), Position::new(2, 0), Position::new(0, 2)] {
        field.plant_mine(&p);
    }
    let mut frozen = vec![None, None];
    let mut engine = CascadeEngine::new();
    engine.submit(RevealTile { position: Position::new(1, 1), player: 0 });
    let (events, _) = engine.pass(&mut field, &mut frozen, 0);
    assert_eq!(events.len(), 1);
    assert_eq!(field.count_mine_neighbors(&Position::new(1, 1)), 3);
    assert_eq!(
        project_tile(&field, &events[0], 0),
        ClientTile::Owned { player: 0, num_neighbors: 3 }
    );
    assert_eq!(
        project_tile(&field, &events[0], 1),
        ClientTile::Owned { player: 0, num_neighbors: 0 }
    );
}

#[test]
fn visibility_through_match_messages() {
    let mut m = Match::new(square(3, 3));
    join(&mut m, 2);
    m.state = AreaAttackState::Stage1;
    for p in [Position::new(0, 0), Position::new(2, 0), Position::new(0, 2)] {
        m.field.plant_mine(&p);
    }
    m.handle_request(1, AreaAttackRequest::Reveal(Position::new(1, 1)));
    let (events, _) = m.reveal_tiles(0);
    let out = m.send_tiles(&events);
    assert_eq!(out.len(), 2);
    let tile_for = |r: usize| match out.iter().find(|o| o.receiver == r).unwrap().update {
        AreaAttackUpdate::TileChanged { to, .. } => to,
        _ => panic!("unexpected message"),
    };
    assert_eq!(tile_for(1), ClientTile::Owned { player: 1, num_neighbors: 3 });
    assert_eq!(tile_for(0), ClientTile::Owned { player: 1, num_neighbors: 0 });
}

#[test]
fn hidden_tiles_project_as_unknown() {
    let field = ServerField::new(&square(2, 2));
    let e = SendTile { tile: ServerTile::Mine, position: Position::new(0, 0) };
    assert_eq!(project_tile(&field, &e, 0), ClientTile::Unknown);
    let e = SendTile { tile: ServerTile::Empty, position: Position::new(0, 0) };
    assert_eq!(project_tile(&field, &e, 3), ClientTile::Unknown);
}

#[test]
fn selection_distance_rule() {
    let mut m = Match::new(square(30, 30));
    join(&mut m, 2);
    let first = m.handle_request(0, AreaAttackRequest::Reveal(Position::new(0, 0)));
    assert_eq!(first.len(), 2);
    let rejected = m.handle_request(1, AreaAttackRequest::Reveal(Position::new(9, 0)));
    assert!(rejected.is_empty());
    assert_eq!(m.selections[1], None);
    let rejected = m.handle_request(1, AreaAttackRequest::Reveal(Position::new(6, 7)));
    assert!(rejected.is_empty());
    let accepted = m.handle_request(1, AreaAttackRequest::Reveal(Position::new(6, 8)));
    assert_eq!(accepted.len(), 2);
    assert_eq!(m.selections, vec![Some(Position::new(0, 0)), Some(Position::new(6, 8))]);
    let accepted = m.handle_request(1, AreaAttackRequest::Reveal(Position::new(10, 0)));
    assert_eq!(accepted.len(), 4);
    assert_eq!(m.selections[1], Some(Position::new(10, 0)));
}

#[test]
fn reselection_releases_previous_tile() {
    let mut m = Match::new(square(30, 30));
    join(&mut m, 2);
    m.handle_request(0, AreaAttackRequest::Reveal(Position::new(3, 3)));
    let out = m.handle_request(0, AreaAttackRequest::Reveal(Position::new(4, 4)));
    assert_eq!(out.len(), 4);
    for o in &out[..2] {
        assert_eq!(
            o.update,
            AreaAttackUpdate::TileChanged { position: Position::new(3, 3), to: ClientTile::Unknown }
        );
    }
    for (i, o) in out[2..].iter().enumerate() {
        assert_eq!(o.receiver, i);
        assert_eq!(
            o.update,
            AreaAttackUpdate::TileChanged {
                position: Position::new(4, 4),
                to: ClientTile::Owned { player: 0, num_neighbors: 0 }
            }
        );
    }
}

#[test]
fn selection_off_field_or_out_of_phase_is_ignored() {
    let mut m = Match::new(square(5, 5));
    join(&mut m, 1);
    assert!(m.handle_request(0, AreaAttackRequest::Reveal(Position::new(7, 7))).is_empty());
    assert!(m.handle_request(3, AreaAttackRequest::Reveal(Position::new(1, 1))).is_empty());
    m.state = AreaAttackState::Stage1;
    assert!(m.update_selecting_tile(0, Position::new(1, 1)).is_empty());
    assert_eq!(m.selections, vec![None]);
}

#[test]
fn only_host_starts_and_only_while_selecting() {
    let mut m = Match::new(square(5, 5));
    join(&mut m, 2);
    assert!(m.handle_request(1, AreaAttackRequest::StartGame).is_empty());
    assert_eq!(m.state, AreaAttackState::Selecting);
    assert_eq!(m.handle_request(0, AreaAttackRequest::StartGame).len(), 2);
    assert_eq!(m.state, AreaAttackState::Stage1);
    assert!(m.handle_request(0, AreaAttackRequest::StartGame).is_empty());
}

#[test]
fn start_queues_one_reveal_per_selection() {
    let mut m = Match::new(square(30, 30));
    join(&mut m, 3);
    m.handle_request(0, AreaAttackRequest::Reveal(Position::new(2, 2)));
    m.handle_request(2, AreaAttackRequest::Reveal(Position::new(20, 20)));
    m.handle_request(0, AreaAttackRequest::StartGame);
    m.reveal_tiles(0);
    assert_eq!(m.field.tile_at(&Position::new(2, 2)), Some(ServerTile::Owned { player: 0 }));
    assert_eq!(m.field.tile_at(&Position::new(20, 20)), Some(ServerTile::Owned { player: 2 }));
}

#[test]
fn colors_are_assigned_in_palette_order_and_run_out() {
    let mut m = Match::new(square(5, 5));
    let want = [
        PlayerColor::Red,
        PlayerColor::Orange,
        PlayerColor::Yellow,
        PlayerColor::Green,
        PlayerColor::Blue,
        PlayerColor::Purple,
    ];
    for (i, c) in want.iter().enumerate() {
        let (id, _) = m.prepare_player().unwrap();
        assert_eq!(id, i);
        assert_eq!(m.players[i].color, *c);
        assert_eq!(m.access, if i >= 4 { Access::Full } else { Access::Open });
    }
    assert!(m.prepare_player().is_none());
    assert_eq!(m.players.len(), 6);
    assert_eq!(assign_color(&vec![PlayerColor::Orange, PlayerColor::Red]), Some(PlayerColor::Yellow));
}

#[test]
fn joining_player_gets_identity_and_backfill() {
    let mut m = Match::new(square(5, 5));
    join(&mut m, 1);
    m.state = AreaAttackState::Stage1;
    m.field.plant_mine(&Position::new(0, 0));
    m.handle_request(0, AreaAttackRequest::Reveal(Position::new(1, 0)));
    m.handle_request(0, AreaAttackRequest::Reveal(Position::new(0, 0)));
    m.reveal_tiles(0);
    let (id, out) = m.prepare_player().unwrap();
    assert_eq!(id, 1);
    assert_eq!(out[0], Outgoing { receiver: 1, update: AreaAttackUpdate::FieldShape });
    assert_eq!(
        out[1].update,
        AreaAttackUpdate::PlayerProperties {
            id: 0,
            color: PlayerColor::Red,
            position: Position::new(2, 2)
        }
    );
    assert_eq!(
        out[2].update,
        AreaAttackUpdate::SelfChange { color: PlayerColor::Orange, position: Position::new(2, 2) }
    );
    assert_eq!(out[3].receiver, 0);
    let backfill = &out[4..];
    assert_eq!(backfill.len(), 2);
    assert!(backfill.contains(&Outgoing {
        receiver: 1,
        update: AreaAttackUpdate::TileChanged {
            position: Position::new(1, 0),
            to: ClientTile::Owned { player: 0, num_neighbors: 0 }
        }
    }));
    assert!(backfill.contains(&Outgoing {
        receiver: 1,
        update: AreaAttackUpdate::TileChanged {
            position: Position::new(0, 0),
            to: ClientTile::HardMine
        }
    }));
}

#[test]
fn starting_cursor_falls_back_to_a_field_cell() {
    let cells = vec![Position::new(7, 3), Position::new(8, 3)];
    let mut m = Match::new(FieldShape::new(cells, None));
    m.prepare_player().unwrap();
    let p = m.players[0].position;
    assert!(p == Position::new(7, 3) || p == Position::new(8, 3));
}

#[test]
fn cursor_moves_are_sent_to_others() {
    let mut m = Match::new(square(5, 5));
    join(&mut m, 3);
    let out = m.handle_request(1, AreaAttackRequest::Position(Position::new(3, 4)));
    let receivers: Vec<usize> = out.iter().map(|o| o.receiver).collect();
    assert_eq!(receivers, vec![0, 2]);
    assert_eq!(
        out[0].update,
        AreaAttackUpdate::Reposition { id: 1, position: Position::new(3, 4) }
    );
    assert_eq!(m.players[1].position, Position::new(3, 4));
    assert!(m.handle_request(9, AreaAttackRequest::Position(Position::new(0, 0))).is_empty());
}

#[test]
fn empty_field_has_nothing_to_reveal() {
    let mut field = ServerField::new(&FieldShape::new(vec![], None));
    assert_eq!(field.remaining_blank(), 0);
    let mut frozen = vec![None];
    let mut engine = CascadeEngine::new();
    engine.submit(RevealTile { position: Position::new(0, 0), player: 0 });
    let (events, done) = engine.pass(&mut field, &mut frozen, 0);
    assert!(events.is_empty());
    assert!(done);
    assert!(engine.is_idle());
}

#[test]
fn requests_off_field_or_from_strangers_change_nothing() {
    let mut field = ServerField::new(&square(3, 3));
    let mut frozen = vec![None];
    let mut engine = CascadeEngine::new();
    engine.submit(RevealTile { position: Position::new(3, 0), player: 0 });
    engine.submit(RevealTile { position: Position::new(1, 1), player: 5 });
    let (events, done) = engine.pass(&mut field, &mut frozen, 0);
    assert!(events.is_empty());
    assert!(!done);
    assert_eq!(field.remaining_blank(), 7);
    assert_eq!(field.tile_at(&Position::new(1, 1)), Some(ServerTile::Empty));
}

#[test]
fn blank_count_saturates_at_zero() {
    let mut field = ServerField::new(&square(2, 1));
    assert_eq!(field.remaining_blank(), 1);
    let mut frozen = vec![None];
    let mut engine = CascadeEngine::new();
    engine.submit(RevealTile { position: Position::new(0, 0), player: 0 });
    engine.submit(RevealTile { position: Position::new(1, 0), player: 0 });
    let (events, done) = engine.pass(&mut field, &mut frozen, 0);
    assert_eq!(events.len(), 2);
    assert!(done);
    assert_eq!(field.remaining_blank(), 0);
}
