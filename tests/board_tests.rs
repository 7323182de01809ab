use chess_core::board::ChessBoard;
use chess_core::coordinate::Coordinate;
use chess_core::error::ChessError;
use chess_core::history::{GameHistory, GameState};
use chess_core::piece::{ChessPlayer, Color, PieceType};

fn at(x: u8, y: u8) -> Coordinate {
    Coordinate::new(x, y).unwrap()
}

#[test]
fn game_board_has_64_tails() {
    let player_1: ChessPlayer = ChessPlayer {
        id: "one".to_string(),
        color: Color::Black,
    };
    let player_2: ChessPlayer = ChessPlayer {
        id: "two".to_string(),
        color: Color::White,
    };

    let game = ChessBoard::new(&player_1, &player_2);

    assert_eq!(game.tiles().len() as u64, 64 as u64);
    println!("{:?} {:?}", &player_1, &player_2);
}

#[test]
fn tiles_alternate_in_color() {
    let a = ChessPlayer::new("a".to_string(), Color::White);
    let b = ChessPlayer::new("b".to_string(), Color::Black);
    let game = ChessBoard::new(&a, &b);
    let tiles = game.tiles();
    for x in 0..8u8 {
        for y in 0..8u8 {
            let t = &tiles[(8 * x + y) as usize];
            assert_eq!((t.coordinate().file(), t.coordinate().rank()), (x, y));
            let want = if (x + y) % 2 == 0 { Color::Black } else { Color::White };
            assert_eq!(t.color(), want);
        }
    }
    assert_ne!(tiles[0].color(), tiles[8].color());
}

#[test]
fn each_side_starts_with_sixteen_pieces() {
    let a = ChessPlayer::new("a".to_string(), Color::Black);
    let b = ChessPlayer::new("b".to_string(), Color::White);
    let game = ChessBoard::new(&a, &b);
    let pieces = game.pieces();
    assert_eq!(pieces.len(), 32);
    assert_eq!(pieces.iter().filter(|p| p.player().id == "a").count(), 16);
    assert_eq!(pieces.iter().filter(|p| p.player().id == "b").count(), 16);
    let back = [
        PieceType::Rook,
        PieceType::Knight,
        PieceType::Bishop,
        PieceType::Queen,
        PieceType::King,
        PieceType::Bishop,
        PieceType::Knight,
        PieceType::Rook,
    ];
    for i in 0..8usize {
        assert_eq!(pieces[i].piece_type(), back[i]);
        assert_eq!(pieces[i].coordinate().rank(), 7);
        assert_eq!(pieces[8 + i].piece_type(), PieceType::Pawn);
        assert_eq!(pieces[8 + i].coordinate().rank(), 6);
        assert_eq!(pieces[16 + i].piece_type(), back[i]);
        assert_eq!(pieces[16 + i].coordinate().rank(), 0);
        assert_eq!(pieces[24 + i].coordinate().rank(), 1);
    }
    assert_eq!(game.current_player().id, "a");
    assert_eq!(game.active_history().unwrap().moves().len(), 0);
    assert_eq!(game.active_history().unwrap().start_date(), "now");
    assert!(game.completed_histories().is_empty());
}

#[test]
fn pseudo_legal_moves_of_a_starting_knight() {
    let a = ChessPlayer::new("a".to_string(), Color::Black);
    let b = ChessPlayer::new("b".to_string(), Color::White);
    let game = ChessBoard::new(&a, &b);
    let moves = game.pseudo_legal_moves(1 + 8 * 7).unwrap();
    let got: Vec<(u8, u8)> = moves.iter().map(|c| (c.file(), c.rank())).collect();
    assert_eq!(got, vec![(3, 6), (2, 5), (0, 5)]);
    assert_eq!(game.pseudo_legal_moves(30).unwrap_err(), ChessError::InvalidPieceReference);
}

#[test]
fn move_then_conclude_keeps_the_plies() {
    let a = ChessPlayer::new("a".to_string(), Color::White);
    let b = ChessPlayer::new("b".to_string(), Color::Black);
    let mut game = ChessBoard::new(&a, &b);
    let pawn_id: u8 = 4 + 8 * 6;
    game.apply_move(pawn_id, at(4, 4)).unwrap();
    let moved = game.pieces().iter().find(|p| p.id() == pawn_id).unwrap();
    assert_eq!((moved.coordinate().file(), moved.coordinate().rank()), (4, 4));
    assert_eq!(game.active_history().unwrap().moves().len(), 1);
    game.conclude_game("later".to_string()).unwrap();
    assert!(game.active_history().is_none());
    let done = game.completed_histories();
    assert_eq!(done.len(), 1);
    assert!(done[0].is_closed());
    assert_eq!(done[0].end_date().unwrap(), "later");
    assert_eq!(done[0].moves().len(), 1);
    assert_eq!(done[0].moves()[0].piece_id(), pawn_id);
    assert_eq!(done[0].moves()[0].coordinate().rank(), 4);
}

#[test]
fn moves_after_the_game_is_concluded_are_refused() {
    let a = ChessPlayer::new("a".to_string(), Color::White);
    let b = ChessPlayer::new("b".to_string(), Color::Black);
    let mut game = ChessBoard::new(&a, &b);
    game.conclude_game("end".to_string()).unwrap();
    assert_eq!(game.apply_move(0, at(0, 5)).unwrap_err(), ChessError::HistoryClosedError);
    assert_eq!(game.conclude_game("again".to_string()).unwrap_err(), ChessError::HistoryClosedError);
    assert_eq!(game.completed_histories().len(), 1);
    let rook = game.pieces().iter().find(|p| p.id() == 0).unwrap();
    assert_eq!(rook.coordinate().rank(), 0);
}

#[test]
fn moving_an_unknown_piece_is_refused() {
    let a = ChessPlayer::new("a".to_string(), Color::White);
    let b = ChessPlayer::new("b".to_string(), Color::Black);
    let mut game = ChessBoard::new(&a, &b);
    assert_eq!(game.apply_move(30, at(3, 3)).unwrap_err(), ChessError::InvalidPieceReference);
    assert_eq!(game.active_history().unwrap().moves().len(), 0);
}

#[test]
fn closed_history_refuses_plies() {
    let mut h = GameHistory::new();
    h.append_to_history(GameState::new(at(1, 2), 9)).unwrap();
    h.close("end".to_string()).unwrap();
    let r = h.append_to_history(GameState::new(at(3, 4), 9));
    assert_eq!(r.unwrap_err(), ChessError::HistoryClosedError);
    assert_eq!(h.moves().len(), 1);
    assert_eq!(h.moves()[0].coordinate().file(), 1);
    assert_eq!(h.close("again".to_string()).unwrap_err(), ChessError::HistoryClosedError);
    assert_eq!(h.end_date().unwrap(), "end");
}
