use chess_core::coordinate::{Coordinate, Direction};
use chess_core::error::ChessError;

fn at(x: u8, y: u8) -> Coordinate {
    Coordinate::new(x, y).unwrap()
}

fn pairs(v: &[Coordinate]) -> Vec<(u8, u8)> {
    v.iter().map(|c| (c.file(), c.rank())).collect()
}

fn pair(r: Result<Coordinate, ChessError>) -> (u8, u8) {
    let c = r.unwrap();
    (c.file(), c.rank())
}

#[test]
fn new_round_trips_every_square() {
    for x in 0..8u8 {
        for y in 0..8u8 {
            let c = Coordinate::new(x, y).unwrap();
            assert_eq!((c.file(), c.rank()), (x, y));
        }
    }
}

#[test]
fn new_rejects_squares_off_the_grid() {
    assert_eq!(Coordinate::new(8, 0).unwrap_err(), ChessError::OutOfBounds);
    assert_eq!(Coordinate::new(0, 8).unwrap_err(), ChessError::OutOfBounds);
    assert_eq!(Coordinate::new(255, 255).unwrap_err(), ChessError::OutOfBounds);
}

#[test]
fn neighbors_step_one_square() {
    let c = at(3, 4);
    assert_eq!(pair(c.create_right()), (4, 4));
    assert_eq!(pair(c.create_left()), (2, 4));
    assert_eq!(pair(c.create_top()), (3, 5));
    assert_eq!(pair(c.create_bottom()), (3, 3));
    assert_eq!(pair(c.create_top_right()), (4, 5));
    assert_eq!(pair(c.create_top_left()), (2, 5));
    assert_eq!(pair(c.create_bottom_right()), (4, 3));
    assert_eq!(pair(c.create_bottom_left()), (2, 3));
    assert_eq!(pair(c.neighbor(Direction::DownLeft)), (2, 3));
    assert_eq!(pair(c.shifted(-2, 1)), (1, 5));
}

#[test]
fn neighbors_fail_at_the_edges() {
    let low = at(0, 0);
    let high = at(7, 7);
    assert_eq!(low.create_left().unwrap_err(), ChessError::OutOfBounds);
    assert_eq!(low.create_bottom().unwrap_err(), ChessError::OutOfBounds);
    assert_eq!(low.create_bottom_left().unwrap_err(), ChessError::OutOfBounds);
    assert_eq!(low.create_top_left().unwrap_err(), ChessError::OutOfBounds);
    assert_eq!(low.create_bottom_right().unwrap_err(), ChessError::OutOfBounds);
    assert_eq!(high.create_right().unwrap_err(), ChessError::OutOfBounds);
    assert_eq!(high.create_top().unwrap_err(), ChessError::OutOfBounds);
    assert_eq!(high.create_top_right().unwrap_err(), ChessError::OutOfBounds);
    assert_eq!(high.create_top_left().unwrap_err(), ChessError::OutOfBounds);
    assert_eq!(high.create_bottom_right().unwrap_err(), ChessError::OutOfBounds);
    assert_eq!(at(7, 3).shifted(1, 0).unwrap_err(), ChessError::OutOfBounds);
}

#[test]
fn edge_predicates() {
    let c = at(0, 7);
    assert!(!c.can_advance_left());
    assert!(c.can_advance_right());
    assert!(!c.can_advance_up());
    assert!(c.can_advance_down());
}

#[test]
fn rays_are_empty_at_the_edges() {
    assert!(at(0, 4).line_x_left().is_empty());
    assert!(at(7, 4).line_x_right().is_empty());
    assert!(at(4, 7).line_y_top().is_empty());
    assert!(at(4, 0).line_y_bottom().is_empty());
    assert!(at(7, 2).line_p45_top().is_empty());
    assert!(at(0, 2).line_p45_bottom().is_empty());
    assert!(at(0, 2).line_n45_top().is_empty());
    assert!(at(3, 0).line_n45_bottom().is_empty());
}

#[test]
fn rays_run_to_the_edge_without_the_origin() {
    let c = at(2, 5);
    assert_eq!(pairs(&c.line_x_left()), vec![(1, 5), (0, 5)]);
    assert_eq!(pairs(&c.line_x_right()), vec![(3, 5), (4, 5), (5, 5), (6, 5), (7, 5)]);
    assert_eq!(pairs(&c.line_y_top()), vec![(2, 6), (2, 7)]);
    assert_eq!(pairs(&c.line_y_bottom()), vec![(2, 4), (2, 3), (2, 2), (2, 1), (2, 0)]);
    assert_eq!(pairs(&c.line_p45_top()), vec![(3, 6), (4, 7)]);
    assert_eq!(pairs(&c.line_p45_bottom()), vec![(1, 4), (0, 3)]);
    assert_eq!(pairs(&c.line_n45_top()), vec![(1, 6), (0, 7)]);
    assert_eq!(pairs(&c.line_n45_bottom()), vec![(3, 4), (4, 3), (5, 2), (6, 1), (7, 0)]);
    assert_eq!(pairs(&c.ray(Direction::Up)), vec![(2, 6), (2, 7)]);
}

#[test]
fn whole_diagonals() {
    let c = at(2, 5);
    assert_eq!(pairs(&c.line_p45()), vec![(3, 6), (4, 7), (1, 4), (0, 3)]);
    assert_eq!(
        pairs(&c.line_n45()),
        vec![(1, 6), (0, 7), (3, 4), (4, 3), (5, 2), (6, 1), (7, 0)]
    );
}

#[test]
fn whole_rank_and_file() {
    let c = at(2, 5);
    let rank: Vec<(u8, u8)> = (0..8).map(|x| (x, 5)).collect();
    let file: Vec<(u8, u8)> = (0..8).map(|y| (2, y)).collect();
    assert_eq!(pairs(&c.line_x()), rank);
    assert_eq!(pairs(&c.line_y()), file);
}
