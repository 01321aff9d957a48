use quicksweeper::client::ClientField;
use quicksweeper::position::Position;
use quicksweeper::protocol::{AreaAttackRequest, AreaAttackState};
use quicksweeper::shape::FieldShape;
use quicksweeper::singleplayer::{GameOutcome, MineCellState, Singleplayer, SingleplayerGame};
use quicksweeper::visibility::ClientTile;

fn square(w: i16, h: i16) -> FieldShape {
    let mut cells = Vec::new();
    for y in 0..h {
        for x in 0..w {
            cells.push(Position::new(x, y));
        }
    }
    FieldShape::new(cells, Some(Position::new(w / 2, h / 2)))
}

#[test]
fn single_cascade_clears_mine_free_field() {
    let mut game = SingleplayerGame::new(&square(4, 4));
    game.check_cell(Position::new(0, 0));
    let mut outcome = None;
    while !game.is_idle() {
        let o = game.reveal_cell();
        if outcome.is_none() {
            outcome = o;
        }
    }
    assert_eq!(outcome, Some(GameOutcome::Succeeded));
    assert_eq!(game.remaining_blank(), 0);
    assert_eq!(game.tile_at(&Position::new(3, 3)), Some(MineCellState::Revealed(0)));
}

#[test]
fn single_generation_keeps_first_cell_safe() {
    let mut game = SingleplayerGame::new(&square(10, 10));
    let exclude = Position::new(4, 4).local_group();
    let placed = game.generate_minefield(&exclude);
    assert_eq!(placed.len(), 20);
    for p in &exclude {
        assert_eq!(game.tile_at(p), Some(MineCellState::Empty));
    }
    for p in &placed {
        assert_eq!(game.tile_at(p), Some(MineCellState::Mine));
    }
    game.check_cell(Position::new(4, 4));
    let outcome = game.reveal_cell();
    assert_ne!(outcome, Some(GameOutcome::Failed));
    assert!(matches!(game.tile_at(&Position::new(4, 4)), Some(MineCellState::Revealed(_))));
}

#[test]
fn single_mine_fails_and_flags_toggle() {
    let mut game = SingleplayerGame::new(&square(2, 1));
    let placed = game.generate_minefield(&vec![Position::new(0, 0)]);
    assert_eq!(placed, vec![Position::new(1, 0)]);
    game.flag_cell(&Position::new(1, 0));
    assert_eq!(game.tile_at(&Position::new(1, 0)), Some(MineCellState::FlaggedMine));
    game.check_cell(Position::new(1, 0));
    assert_eq!(game.reveal_cell(), None);
    game.flag_cell(&Position::new(1, 0));
    assert_eq!(game.tile_at(&Position::new(1, 0)), Some(MineCellState::Mine));
    game.check_cell(Position::new(1, 0));
    assert_eq!(game.reveal_cell(), Some(GameOutcome::Failed));
    game.flag_cell(&Position::new(0, 0));
    assert_eq!(game.tile_at(&Position::new(0, 0)), Some(MineCellState::FlaggedEmpty));
    game.flag_cell(&Position::new(0, 0));
    assert_eq!(game.tile_at(&Position::new(0, 0)), Some(MineCellState::Empty));
}

#[test]
fn single_chord_opens_neighbors_when_flags_match() {
    // a 3x1 strip: mine on the right; 0.8 * 3 = 2 blank cells, so one mine
    let mut game = SingleplayerGame::new(&square(3, 1));
    let placed = game.generate_minefield(&vec![Position::new(0, 0), Position::new(1, 0)]);
    assert_eq!(placed, vec![Position::new(2, 0)]);
    game.check_cell(Position::new(1, 0));
    assert_eq!(game.reveal_cell(), None);
    assert_eq!(game.tile_at(&Position::new(1, 0)), Some(MineCellState::Revealed(1)));
    assert!(game.is_idle());
    game.flag_cell(&Position::new(2, 0));
    game.check_cell(Position::new(1, 0));
    assert_eq!(game.reveal_cell(), None);
    assert!(!game.is_idle());
    assert_eq!(game.reveal_cell(), Some(GameOutcome::Succeeded));
    assert_eq!(game.tile_at(&Position::new(0, 0)), Some(MineCellState::Revealed(0)));
    assert_eq!(game.tile_at(&Position::new(2, 0)), Some(MineCellState::FlaggedMine));
}

#[test]
fn client_reveal_requests() {
    let mut field = ClientField::new(&square(3, 3));
    let remote = vec![7];
    assert_eq!(
        field.request_reveal(Position::new(1, 1), &remote),
        vec![AreaAttackRequest::Reveal(Position::new(1, 1))]
    );
    assert!(field.request_reveal(Position::new(5, 5), &remote).is_empty());
    field.apply_tile_change(&Position::new(1, 1), ClientTile::Owned { player: 0, num_neighbors: 1 });
    assert!(field.request_reveal(Position::new(1, 1), &remote).is_empty());
    field.toggle_flag(&Position::new(0, 0), AreaAttackState::Stage1);
    assert_eq!(field.tile_at(&Position::new(0, 0)), Some(ClientTile::Flag));
    let chord = field.request_reveal(Position::new(1, 1), &remote);
    assert_eq!(chord.len(), 7);
    assert!(!chord.contains(&AreaAttackRequest::Reveal(Position::new(0, 0))));
    assert!(chord.contains(&AreaAttackRequest::Reveal(Position::new(2, 2))));
    field.apply_tile_change(&Position::new(2, 2), ClientTile::Owned { player: 7, num_neighbors: 0 });
    assert!(field.request_reveal(Position::new(2, 2), &remote).is_empty());
}

#[test]
fn client_flags_only_during_play() {
    let mut field = ClientField::new(&square(2, 2));
    field.toggle_flag(&Position::new(0, 0), AreaAttackState::Selecting);
    assert_eq!(field.tile_at(&Position::new(0, 0)), Some(ClientTile::Unknown));
    field.toggle_flag(&Position::new(0, 0), AreaAttackState::Stage1);
    assert_eq!(field.tile_at(&Position::new(0, 0)), Some(ClientTile::Flag));
    field.toggle_flag(&Position::new(0, 0), AreaAttackState::Stage1);
    assert_eq!(field.tile_at(&Position::new(0, 0)), Some(ClientTile::Unknown));
    assert!(!field.apply_tile_change(&Position::new(9, 9), ClientTile::HardMine));
    field.apply_tile_change(&Position::new(1, 1), ClientTile::HardMine);
    field.toggle_flag(&Position::new(1, 1), AreaAttackState::Stage1);
    assert_eq!(field.tile_at(&Position::new(1, 1)), Some(ClientTile::HardMine));
}

#[test]
fn single_phase_ends_on_outcome() {
    assert_eq!(
        Singleplayer::Game.advance_to_end(Some(GameOutcome::Failed)),
        Singleplayer::GameFailed
    );
    assert_eq!(
        Singleplayer::Game.advance_to_end(Some(GameOutcome::Succeeded)),
        Singleplayer::GameSuccess
    );
    assert_eq!(Singleplayer::Game.advance_to_end(None), Singleplayer::Game);
    assert_eq!(
        Singleplayer::PreGame.advance_to_end(Some(GameOutcome::Failed)),
        Singleplayer::PreGame
    );
}

#[test]
fn single_start_position_prefers_center() {
    let shape = square(5, 3);
    let game = SingleplayerGame::new(&shape);
    assert_eq!(game.start_position(&shape), Position::new(2, 1));
    let bare = FieldShape::new(vec![Position::new(-4, 9)], None);
    let game = SingleplayerGame::new(&bare);
    assert_eq!(game.start_position(&bare), Position::new(-4, 9));
}
