use quicksweeper::grid::{field_density, Minefield};
use quicksweeper::position::Position;
use quicksweeper::shape::FieldShape;

fn square(w: i16, h: i16) -> FieldShape {
    let mut cells = Vec::new();
    for y in 0..h {
        for x in 0..w {
            cells.push(Position::new(x, y));
        }
    }
    FieldShape::new(cells, Some(Position::new(w / 2, h / 2)))
}

#[test]
fn density_is_floor_of_eighty_percent() {
    assert_eq!(field_density(0), 0);
    assert_eq!(field_density(1), 0);
    assert_eq!(field_density(9), 7);
    assert_eq!(field_density(10), 8);
    assert_eq!(field_density(25), 20);
    assert_eq!(field_density(100), 80);
    assert_eq!(field_density(usize::MAX), usize::MAX / 10 * 8 + (usize::MAX % 10) * 8 / 10);
}

#[test]
fn three_by_three_starts_with_seven_blank() {
    let field = Minefield::new_shaped(&square(3, 3));
    assert_eq!(field.occupied_count(), 9);
    assert_eq!(field.remaining_blank(), 7);
}

#[test]
fn duplicate_template_cells_are_occupied_once() {
    let cells = vec![Position::new(0, 0), Position::new(1, 0), Position::new(0, 0)];
    let field = Minefield::new_shaped(&FieldShape::new(cells, None));
    assert_eq!(field.occupied_count(), 2);
    assert_eq!(field.get(&Position::new(0, 0)), Some(0));
    assert_eq!(field.get(&Position::new(1, 0)), Some(1));
}

#[test]
fn handles_follow_first_appearance() {
    let cells = vec![Position::new(5, -3), Position::new(-20, 40), Position::new(0, 0)];
    let field = Minefield::new_shaped(&FieldShape::new(cells, None));
    assert_eq!(field.get(&Position::new(5, -3)), Some(0));
    assert_eq!(field.get(&Position::new(-20, 40)), Some(1));
    assert_eq!(field.get(&Position::new(0, 0)), Some(2));
    assert_eq!(field.get(&Position::new(1, 1)), None);
    assert!(field.is_contained(&Position::new(-20, 40)));
    assert!(!field.is_contained(&Position::new(-21, 40)));
}

#[test]
fn iter_positions_lists_every_cell_once() {
    let field = Minefield::new_shaped(&square(4, 3));
    let mut got = field.iter_positions();
    got.sort_by_key(|p| (p.y, p.x));
    let mut want = square(4, 3).decode();
    want.sort_by_key(|p| (p.y, p.x));
    assert_eq!(got, want);
}

#[test]
fn neighbors_skip_cells_off_the_field() {
    let field = Minefield::new_shaped(&square(3, 3));
    let corner = field.iter_neighbor_positions(Position::new(0, 0));
    assert_eq!(corner, vec![Position::new(1, 0), Position::new(0, 1), Position::new(1, 1)]);
    let center = field.iter_neighbors_enumerated(Position::new(1, 1));
    assert_eq!(center.len(), 8);
    for (p, h) in center {
        assert_eq!(field.get(&p), Some(h));
    }
}

#[test]
fn irregular_field_neighbors() {
    let cells = vec![Position::new(0, 0), Position::new(2, 2), Position::new(1, 0)];
    let field = Minefield::new_shaped(&FieldShape::new(cells, None));
    assert_eq!(field.iter_neighbor_positions(Position::new(1, 1)).len(), 3);
    assert_eq!(field.iter_neighbor_positions(Position::new(2, 2)), Vec::<Position>::new());
}

#[test]
fn choose_multiple_draws_target_count_outside_exclusion() {
    let field = Minefield::new_shaped(&square(10, 10));
    let exclude = Position::new(5, 5).local_group();
    for _ in 0..20 {
        let chosen = field.choose_multiple(&exclude);
        assert_eq!(chosen.len(), 20);
        for (i, (p, h)) in chosen.iter().enumerate() {
            assert!(!exclude.contains(p));
            assert_eq!(field.get(p), Some(*h));
            for (q, _) in chosen.iter().skip(i + 1) {
                assert_ne!(p, q);
            }
        }
    }
}

#[test]
fn choose_multiple_degrades_to_all_eligible() {
    let field = Minefield::new_shaped(&square(3, 3));
    let mut exclude = Position::new(1, 1).local_group();
    exclude.retain(|p| *p != Position::new(0, 0));
    let chosen = field.choose_multiple(&exclude);
    assert_eq!(chosen.len(), 1);
    assert_eq!(chosen[0].0, Position::new(0, 0));
    let none = field.choose_multiple(&Position::new(1, 1).local_group());
    assert!(none.is_empty());
}

#[test]
fn local_group_is_position_then_neighbors() {
    let g = Position::new(0, 0).local_group();
    assert_eq!(g.len(), 9);
    assert_eq!(g[0], Position::new(0, 0));
    assert_eq!(g[1], Position::new(-1, -1));
    assert_eq!(g[8], Position::new(1, 1));
    let edge = Position::new(i16::MAX, 0).local_group();
    assert_eq!(edge.len(), 6);
    assert!(edge.iter().all(|p| p.x >= i16::MAX - 1));
}

#[test]
fn distance_rule_is_euclidean() {
    let a = Position::new(0, 0);
    assert!(a.too_close(&Position::new(9, 0)));
    assert!(!a.too_close(&Position::new(10, 0)));
    assert!(!a.too_close(&Position::new(6, 8)));
    assert!(a.too_close(&Position::new(6, 7)));
    assert!(a.too_close(&Position::new(7, 7)));
    assert!(!a.too_close(&Position::new(-8, -8)));
    assert!(!Position::new(i16::MIN, i16::MIN).too_close(&Position::new(i16::MAX, i16::MAX)));
}

#[test]
fn shape_keeps_cells_and_center() {
    let s = square(2, 2);
    assert_eq!(s.decode().len(), 4);
    assert_eq!(s.center(), Some(Position::new(1, 1)));
    assert_eq!(FieldShape::new(vec![], None).center(), None);
}
