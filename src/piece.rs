use vstd::prelude::*;

use crate::coordinate::{views, Coordinate};
use crate::error::ChessError;
use crate::moves::{candidate_destinations, destinations};

verus! {

/// The two sides of a game.
#[derive(Clone, Copy, Debug, PartialEq, Eq, Structural)]
pub enum Color {
    Black,
    White,
}

/// The kinds of chess pieces.
#[derive(Clone, Copy, Debug, PartialEq, Eq, Structural)]
pub enum PieceType {
    King,
    Queen,
    Bishop,
    Knight,
    Rook,
    Pawn,
}

/// A participant: an identifier and the side they play.
#[derive(Clone, Debug)]
pub struct ChessPlayer {
    pub id: String,
    pub color: Color,
}

impl ChessPlayer {
    /// A player with the given identifier and side.
    pub fn new(id: String, color: Color) -> (r: ChessPlayer)
        ensures
            r.id@ == id@,
            r.color == color,
    {
        ChessPlayer { id, color }
    }
}

/// What a piece is, seen as plain values.
pub struct PieceView {
    /// The identifier: `file + 8 * rank` of the square the piece started on.
    pub id: int,
    /// The square it stands on.
    pub at: (int, int),
    pub kind: PieceType,
    pub owner: ChessPlayer,
}

/// A piece on the board; it borrows the player who owns it.
#[derive(Clone, Copy, Debug)]
pub struct ChessPiece<'player> {
    id: u8,
    coordinate: Coordinate,
    player: &'player ChessPlayer,
    piece_type: PieceType,
}

impl<'player> View for ChessPiece<'player> {
    type V = PieceView;

    closed spec fn view(&self) -> PieceView {
        PieceView {
            id: self.id as int,
            at: self.coordinate@,
            kind: self.piece_type,
            owner: *self.player,
        }
    }
}

impl<'player> ChessPiece<'player> {
    /// A piece of `player` standing on `(x, y)`, identified by that starting square;
    /// fails with `OutOfBounds` where the square is off the grid.
    pub fn new(x: u8, y: u8, player: &'player ChessPlayer, piece_type: PieceType) -> (r: Result<
        ChessPiece<'player>,
        ChessError,
    >)
        ensures
            r is Ok <==> x < 8 && y < 8,
            r matches Ok(p) ==> p@ == (PieceView {
                id: x + 8 * y,
                at: (x as int, y as int),
                kind: piece_type,
                owner: *player,
            }),
            r matches Err(e) ==> e == ChessError::OutOfBounds,
    {
        match Coordinate::new(x, y) {
            Ok(coordinate) => Ok(ChessPiece { id: x + 8 * y, coordinate, player, piece_type }),
            Err(e) => Err(e),
        }
    }

    /// The identifier.
    pub fn id(&self) -> (r: u8)
        ensures
            r as int == self@.id,
    {
        self.id
    }

    /// The square the piece stands on.
    pub fn coordinate(&self) -> (r: Coordinate)
        ensures
            r@ == self@.at,
    {
        self.coordinate
    }

    /// The kind of piece.
    pub fn piece_type(&self) -> (r: PieceType)
        ensures
            r == self@.kind,
    {
        self.piece_type
    }

    /// The player who owns it.
    pub fn player(&self) -> (r: &'player ChessPlayer)
        ensures
            *r == self@.owner,
    {
        self.player
    }

    /// Moves the piece to `to`; identity, kind and owner stay.
    pub(crate) fn move_to(&mut self, to: Coordinate)
        ensures
            final(self)@ == (PieceView { at: to@, ..old(self)@ }),
    {
        self.coordinate = to;
    }

    /// The pseudo-legal destinations of this piece from where it stands.
    pub fn next_moves(&self) -> (r: Vec<Coordinate>)
        ensures
            views(r@) == destinations(self@.kind, self@.owner.color, self@.at),
    {
        candidate_destinations(self.piece_type, self.player.color, self.coordinate)
    }
}

} // verus!
