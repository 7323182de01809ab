use vstd::prelude::*;

use crate::coordinate::Coordinate;
use crate::error::ChessError;

verus! {

broadcast use vstd::string::to_string_from_display_ensures_for_str;

/// One ply: the identifier of the piece that moved and the square it moved to.
#[derive(Clone, Copy, Debug)]
pub struct GameState {
    piece_id: u8,
    coordinate: Coordinate,
}

impl View for GameState {
    type V = (int, (int, int));

    closed spec fn view(&self) -> (int, (int, int)) {
        (self.piece_id as int, self.coordinate@)
    }
}

impl GameState {
    /// The ply that moved piece `piece_id` to `coordinate`.
    pub fn new(coordinate: Coordinate, piece_id: u8) -> (r: GameState)
        ensures
            r@ == (piece_id as int, coordinate@),
    {
        GameState { coordinate, piece_id }
    }

    /// The identifier of the piece that moved.
    pub fn piece_id(&self) -> (r: u8)
        ensures
            r as int == self@.0,
    {
        self.piece_id
    }

    /// The square the piece moved to.
    pub fn coordinate(&self) -> (r: Coordinate)
        ensures
            r@ == self@.1,
    {
        self.coordinate
    }
}

/// The plies of a sequence of game states.
pub open spec fn plies(s: Seq<GameState>) -> Seq<(int, (int, int))> {
    s.map_values(|g: GameState| g@)
}

/// What a game's record holds, as plain values.
pub struct HistoryView {
    pub start: Seq<char>,
    /// `None` while the game is open; the end timestamp once it is closed.
    pub end: Option<Seq<char>>,
    pub moves: Seq<(int, (int, int))>,
}

/// The record of one game: the plies in the order played, a start timestamp and, once the game
/// is closed, an end timestamp. An open record accepts plies; a closed one never changes.
pub struct GameHistory {
    start_date: String,
    end_date: Option<String>,
    moves: Vec<GameState>,
}

impl View for GameHistory {
    type V = HistoryView;

    closed spec fn view(&self) -> HistoryView {
        HistoryView {
            start: self.start_date@,
            end: match self.end_date {
                Some(e) => Some(e@),
                None => None,
            },
            moves: plies(self.moves@),
        }
    }
}

impl GameHistory {
    /// An open record with no plies, started "now".
    pub fn new() -> (r: GameHistory)
        ensures
            r@.start == "now"@,
            r@.end is None,
            r@.moves.len() == 0,
    {
        let h = GameHistory { end_date: None, start_date: "now".to_string(), moves: Vec::new() };
        assert(plies(h.moves@) =~= seq![]);
        h
    }

    /// Records `game_state` as the next ply; fails with `HistoryClosedError`, changing
    /// nothing, where the record is closed.
    pub fn append_to_history(&mut self, game_state: GameState) -> (r: Result<(), ChessError>)
        ensures
            r is Ok <==> old(self)@.end is None,
            r is Ok ==> final(self)@ == (HistoryView {
                moves: old(self)@.moves.push(game_state@),
                ..old(self)@
            }),
            r matches Err(e) ==> e == ChessError::HistoryClosedError && final(self)@ == old(self)@,
    {
        if self.end_date.is_some() {
            return Err(ChessError::HistoryClosedError);
        }
        let ghost before = self.moves@;
        self.moves.push(game_state);
        assert(plies(self.moves@) =~= plies(before).push(game_state@));
        Ok(())
    }

    /// Closes the record at `end_date`; fails with `HistoryClosedError`, changing nothing,
    /// where it is closed already.
    pub fn close(&mut self, end_date: String) -> (r: Result<(), ChessError>)
        ensures
            r is Ok <==> old(self)@.end is None,
            r is Ok ==> final(self)@ == (HistoryView { end: Some(end_date@), ..old(self)@ }),
            r matches Err(e) ==> e == ChessError::HistoryClosedError && final(self)@ == old(self)@,
    {
        if self.end_date.is_some() {
            return Err(ChessError::HistoryClosedError);
        }
        self.end_date = Some(end_date);
        Ok(())
    }

    /// Whether the record is closed.
    pub fn is_closed(&self) -> (r: bool)
        ensures
            r == (self@.end is Some),
    {
        self.end_date.is_some()
    }

    /// The plies in the order played.
    pub fn moves(&self) -> (r: &Vec<GameState>)
        ensures
            plies(r@) == self@.moves,
    {
        &self.moves
    }

    /// The start timestamp.
    pub fn start_date(&self) -> (r: &String)
        ensures
            r@ == self@.start,
    {
        &self.start_date
    }

    /// The end timestamp, once the record is closed.
    pub fn end_date(&self) -> (r: Option<&String>)
        ensures
            self@.end is None <==> r is None,
            r matches Some(e) ==> self@.end == Some(e@),
    {
        match &self.end_date {
            Some(e) => Some(e),
            None => None,
        }
    }
}

} // verus!
