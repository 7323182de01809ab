use chess_core::coordinate::Coordinate;
use chess_core::moves::candidate_destinations;
use chess_core::piece::{ChessPiece, ChessPlayer, Color, PieceType};

fn at(x: u8, y: u8) -> Coordinate {
    Coordinate::new(x, y).unwrap()
}

fn sorted(v: &[Coordinate]) -> Vec<(u8, u8)> {
    let mut out: Vec<(u8, u8)> = v.iter().map(|c| (c.file(), c.rank())).collect();
    out.sort();
    out
}

#[test]
fn knight_in_the_corner_has_two_jumps() {
    let r = candidate_destinations(PieceType::Knight, Color::White, at(0, 0));
    assert_eq!(sorted(&r), vec![(1, 2), (2, 1)]);
}

#[test]
fn knight_in_the_middle_has_eight_jumps() {
    let r = candidate_destinations(PieceType::Knight, Color::Black, at(4, 4));
    assert_eq!(
        sorted(&r),
        vec![(2, 3), (2, 5), (3, 2), (3, 6), (5, 2), (5, 6), (6, 3), (6, 5)]
    );
}

#[test]
fn rook_covers_its_file_and_rank() {
    let r = candidate_destinations(PieceType::Rook, Color::White, at(3, 3));
    assert_eq!(r.len(), 14);
    let mut want: Vec<(u8, u8)> = Vec::new();
    for i in 0..8u8 {
        if i != 3 {
            want.push((3, i));
            want.push((i, 3));
        }
    }
    want.sort();
    assert_eq!(sorted(&r), want);
}

#[test]
fn bishop_in_the_corner_covers_the_long_diagonal() {
    let r = candidate_destinations(PieceType::Bishop, Color::White, at(0, 0));
    assert_eq!(sorted(&r), (1..8u8).map(|i| (i, i)).collect::<Vec<_>>());
}

#[test]
fn queen_in_the_middle() {
    let r = candidate_destinations(PieceType::Queen, Color::White, at(3, 3));
    assert_eq!(r.len(), 27);
    let s = sorted(&r);
    assert!(s.contains(&(0, 0)));
    assert!(s.contains(&(7, 7)));
    assert!(s.contains(&(0, 6)));
    assert!(s.contains(&(6, 0)));
    assert!(s.contains(&(3, 7)));
    assert!(!s.contains(&(3, 3)));
    assert!(!s.contains(&(4, 5)));
}

#[test]
fn king_steps_one_square() {
    let corner = candidate_destinations(PieceType::King, Color::White, at(0, 0));
    assert_eq!(sorted(&corner), vec![(0, 1), (1, 0), (1, 1)]);
    let middle = candidate_destinations(PieceType::King, Color::White, at(4, 4));
    assert_eq!(
        sorted(&middle),
        vec![(3, 3), (3, 4), (3, 5), (4, 3), (4, 5), (5, 3), (5, 4), (5, 5)]
    );
}

#[test]
fn pawns_advance_by_color() {
    let white = candidate_destinations(PieceType::Pawn, Color::White, at(4, 1));
    assert_eq!(sorted(&white), vec![(3, 2), (4, 2), (5, 2)]);
    let black = candidate_destinations(PieceType::Pawn, Color::Black, at(4, 6));
    assert_eq!(sorted(&black), vec![(3, 5), (4, 5), (5, 5)]);
    let edge = candidate_destinations(PieceType::Pawn, Color::White, at(0, 1));
    assert_eq!(sorted(&edge), vec![(0, 2), (1, 2)]);
    let last = candidate_destinations(PieceType::Pawn, Color::White, at(5, 7));
    assert!(last.is_empty());
}

#[test]
fn piece_uses_its_owner_and_square() {
    let p = ChessPlayer { id: "b".to_string(), color: Color::Black };
    let pawn = ChessPiece::new(2, 6, &p, PieceType::Pawn).unwrap();
    assert_eq!(pawn.id(), 2 + 8 * 6);
    assert_eq!(pawn.piece_type(), PieceType::Pawn);
    assert_eq!(pawn.player().id, "b");
    assert_eq!(sorted(&pawn.next_moves()), vec![(1, 5), (2, 5), (3, 5)]);
    assert!(ChessPiece::new(8, 0, &p, PieceType::King).is_err());
}
