use vstd::prelude::*;

use crate::coordinate::{views, Coordinate};
use crate::error::ChessError;
use crate::history::{GameHistory, GameState, HistoryView};
use crate::moves::destinations;
use crate::piece::{ChessPiece, ChessPlayer, Color, PieceType, PieceView};

verus! {

/// The display color of square `(file, rank)`: dark where `file + rank` is even.
pub open spec fn tile_color(file: int, rank: int) -> Color {
    if (file + rank) % 2 == 0 {
        Color::Black
    } else {
        Color::White
    }
}

/// The pieces of the back rank, from file 0 to file 7.
pub open spec fn back_rank() -> Seq<PieceType> {
    seq![
        PieceType::Rook,
        PieceType::Knight,
        PieceType::Bishop,
        PieceType::Queen,
        PieceType::King,
        PieceType::Bishop,
        PieceType::Knight,
        PieceType::Rook,
    ]
}

/// The sixteen pieces that `owner` starts with: the back rank on rank `back`, from file 0 to 7,
/// then eight pawns on rank `front`. Each is identified by its starting square.
pub open spec fn starting_pieces(owner: ChessPlayer, back: int, front: int) -> Seq<PieceView> {
    Seq::new(
        16,
        |i: int|
            if i < 8 {
                PieceView { id: i + 8 * back, at: (i, back), kind: back_rank()[i], owner }
            } else {
                PieceView { id: (i - 8) + 8 * front, at: (i - 8, front), kind: PieceType::Pawn, owner }
            },
    )
}

/// The views of a sequence of pieces.
pub open spec fn pieces_view<'a>(s: Seq<ChessPiece<'a>>) -> Seq<PieceView> {
    s.map_values(|p: ChessPiece<'a>| p@)
}

/// The square and display color of a tile.
#[derive(Clone, Copy, Debug)]
pub struct Tile {
    coordinate: Coordinate,
    color: Color,
}

impl View for Tile {
    type V = ((int, int), Color);

    closed spec fn view(&self) -> ((int, int), Color) {
        (self.coordinate@, self.color)
    }
}

impl Tile {
    /// The square.
    pub fn coordinate(&self) -> (r: Coordinate)
        ensures
            r@ == self@.0,
    {
        self.coordinate
    }

    /// The display color.
    pub fn color(&self) -> (r: Color)
        ensures
            r == self@.1,
    {
        self.color
    }
}

/// The views of a sequence of tiles.
pub open spec fn tiles_view(s: Seq<Tile>) -> Seq<((int, int), Color)> {
    s.map_values(|t: Tile| t@)
}

/// What a board holds, as plain values.
pub struct BoardView {
    /// The 64 tiles, the square `(f, r)` at index `8 * f + r`.
    pub tiles: Seq<((int, int), Color)>,
    pub pieces: Seq<PieceView>,
    /// The record of the game in play; `None` once it has been concluded.
    pub active: Option<HistoryView>,
    /// The records of concluded games, oldest first.
    pub completed: Seq<HistoryView>,
    pub to_move: ChessPlayer,
}

/// Whether some piece of `ps` has identifier `id`.
pub open spec fn holds_id(ps: Seq<PieceView>, id: int) -> bool {
    exists|i: int| 0 <= i < ps.len() && ps[i].id == id
}

/// The first index of `ps` at which a piece has identifier `id`.
pub open spec fn index_of(ps: Seq<PieceView>, id: int) -> int {
    choose|i: int|
        0 <= i < ps.len() && ps[i].id == id && forall|j: int| 0 <= j < i ==> ps[j].id != id
}

/// Whether `b` has a game in play that accepts plies.
pub open spec fn game_open(b: BoardView) -> bool {
    b.active matches Some(h) && h.end is None
}

/// What `apply_move` of piece `id` returns on board `b`.
pub open spec fn apply_outcome(b: BoardView, id: int) -> Result<(), ChessError> {
    if !holds_id(b.pieces, id) {
        Err(ChessError::InvalidPieceReference)
    } else if !game_open(b) {
        Err(ChessError::HistoryClosedError)
    } else {
        Ok(())
    }
}

/// Board `b` after piece `id` moved to `to`: the piece stands on `to` and the ply is recorded.
pub open spec fn after_move(b: BoardView, id: int, to: (int, int)) -> BoardView {
    let i = index_of(b.pieces, id);
    let h = b.active->Some_0;
    BoardView {
        pieces: b.pieces.update(i, PieceView { at: to, ..b.pieces[i] }),
        active: Some(HistoryView { moves: h.moves.push((id, to)), ..h }),
        ..b
    }
}

/// What `conclude_game` returns on board `b`.
pub open spec fn conclude_outcome(b: BoardView) -> Result<(), ChessError> {
    if game_open(b) {
        Ok(())
    } else {
        Err(ChessError::HistoryClosedError)
    }
}

/// Board `b` after its game was concluded at `end`: the record, closed, joins the completed ones.
pub open spec fn after_conclude(b: BoardView, end: Seq<char>) -> BoardView {
    let h = b.active->Some_0;
    BoardView {
        active: None,
        completed: b.completed.push(HistoryView { end: Some(end), ..h }),
        ..b
    }
}

/// Squares next to each other along a rank or along a file have different colors.
pub proof fn lemma_tile_colors_alternate(file: int, rank: int)
    ensures
        tile_color(file, rank) != tile_color(file + 1, rank),
        tile_color(file, rank) != tile_color(file, rank + 1),
{
}

/// Moving a piece and then concluding the game closes the record of the game in play and puts
/// it, once, at the end of the completed records, with the plies it held before it was closed;
/// the earlier records stay as they were and no game is left in play.
pub proof fn lemma_move_then_conclude(b: BoardView, id: int, to: (int, int), end: Seq<char>)
    requires
        game_open(b),
    ensures
        ({
            let moved = if apply_outcome(b, id) is Ok {
                after_move(b, id, to)
            } else {
                b
            };
            let done = after_conclude(moved, end);
            &&& conclude_outcome(moved) is Ok
            &&& done.active is None
            &&& done.completed.len() == b.completed.len() + 1
            &&& done.completed.subrange(0, b.completed.len() as int) == b.completed
            &&& done.completed.last() == (HistoryView { end: Some(end), ..moved.active->Some_0 })
            &&& done.completed.last().moves.len() == moved.active->Some_0.moves.len()
        }),
{
    let moved = if apply_outcome(b, id) is Ok {
        after_move(b, id, to)
    } else {
        b
    };
    let done = after_conclude(moved, end);
    assert(done.completed.subrange(0, b.completed.len() as int) =~= b.completed);
}

/// A board: its tiles, the pieces in play, the record of the game in play, the records of the
/// games concluded on it, and the player to move. It borrows the players.
pub struct ChessBoard<'player> {
    history: Vec<GameHistory>,
    current_state: Option<GameHistory>,
    pieces: Vec<ChessPiece<'player>>,
    tiles: Vec<Tile>,
    current_player: &'player ChessPlayer,
}

impl<'player> View for ChessBoard<'player> {
    type V = BoardView;

    closed spec fn view(&self) -> BoardView {
        BoardView {
            tiles: tiles_view(self.tiles@),
            pieces: pieces_view(self.pieces@),
            active: match self.current_state {
                Some(h) => Some(h@),
                None => None,
            },
            completed: self.history@.map_values(|h: GameHistory| h@),
            to_move: *self.current_player,
        }
    }
}

fn init_tiles() -> (r: Vec<Tile>)
    ensures
        r@.len() == 64,
        forall|f: int, k: int|
            0 <= f < 8 && 0 <= k < 8 ==> #[trigger] tiles_view(r@)[8 * f + k] == ((f, k), tile_color(f, k)),
{
    let mut tiles: Vec<Tile> = Vec::with_capacity(64);
    for x in 0..8u8
        invariant
            tiles@.len() == 8 * x,
            forall|f: int, k: int|
                0 <= f < x && 0 <= k < 8 ==> #[trigger] tiles_view(tiles@)[8 * f + k] == ((f, k), tile_color(f, k)),
    {
        for y in 0..8u8
            invariant
                x < 8,
                tiles@.len() == 8 * x + y,
                forall|f: int, k: int|
                    0 <= f < 8 && 0 <= k < 8 && 8 * f + k < tiles@.len() ==> #[trigger] tiles_view(tiles@)[8 * f + k] == ((f, k), tile_color(f, k)),
        {
            let coordinate = Coordinate::new(x, y).unwrap();
            let color = if (x + y) % 2 == 0 {
                Color::Black
            } else {
                Color::White
            };
            let t = Tile { coordinate, color };
            let ghost before = tiles@;
            tiles.push(t);
            assert(tiles_view(tiles@) =~= tiles_view(before).push(t@));
        }
    }
    tiles
}

fn init_pieces<'a>(player: &'a ChessPlayer, top: bool) -> (r: Vec<ChessPiece<'a>>)
    ensures
        pieces_view(r@) == (if top {
            starting_pieces(*player, 7, 6)
        } else {
            starting_pieces(*player, 0, 1)
        }),
{
    let first_row_y: u8 = if top { 7 } else { 0 };
    let second_row_y: u8 = if top { 6 } else { 1 };
    let ghost want = starting_pieces(*player, first_row_y as int, second_row_y as int);
    let kinds = vec![
        PieceType::Rook,
        PieceType::Knight,
        PieceType::Bishop,
        PieceType::Queen,
        PieceType::King,
        PieceType::Bishop,
        PieceType::Knight,
        PieceType::Rook,
    ];
    assert(kinds@ =~= back_rank());
    let mut pieces: Vec<ChessPiece<'a>> = Vec::new();
    for x in 0..8u8
        invariant
            first_row_y < 8,
            kinds@ == back_rank(),
            want == starting_pieces(*player, first_row_y as int, second_row_y as int),
            pieces_view(pieces@) == want.take(x as int),
    {
        let p = ChessPiece::new(x, first_row_y, player, kinds[x as usize]).unwrap();
        let ghost before = pieces@;
        pieces.push(p);
        assert(pieces_view(pieces@) =~= pieces_view(before).push(p@));
        assert(pieces_view(pieces@) =~= want.take(x + 1));
    }
    for x in 0..8u8
        invariant
            second_row_y < 8,
            want == starting_pieces(*player, first_row_y as int, second_row_y as int),
            pieces_view(pieces@) == want.take(8 + x),
    {
        let p = ChessPiece::new(x, second_row_y, player, PieceType::Pawn).unwrap();
        let ghost before = pieces@;
        pieces.push(p);
        assert(pieces_view(pieces@) =~= pieces_view(before).push(p@));
        assert(pieces_view(pieces@) =~= want.take(8 + x + 1));
    }
    assert(want.take(16) =~= want);
    pieces
}

impl<'player> ChessBoard<'player> {
    /// A new game between `player_a`, who moves first and starts on ranks 7 and 6, and
    /// `player_b`, who starts on ranks 0 and 1.
    pub fn new(player_a: &'player ChessPlayer, player_b: &'player ChessPlayer) -> (r: ChessBoard<
        'player,
    >)
        ensures
            r@.tiles.len() == 64,
            forall|f: int, k: int|
                0 <= f < 8 && 0 <= k < 8 ==> #[trigger] r@.tiles[8 * f + k] == ((f, k), tile_color(f, k)),
            r@.tiles[0].1 != r@.tiles[8].1,
            r@.pieces == starting_pieces(*player_a, 7, 6) + starting_pieces(*player_b, 0, 1),
            r@.pieces.len() == 32,
            forall|i: int| 0 <= i < 16 ==> #[trigger] r@.pieces[i].owner == *player_a,
            forall|i: int| 16 <= i < 32 ==> #[trigger] r@.pieces[i].owner == *player_b,
            r@.active == Some(HistoryView { start: "now"@, end: None, moves: seq![] }),
            r@.completed.len() == 0,
            r@.to_move == *player_a,
    {
        let tiles = init_tiles();
        let mut pieces = init_pieces(player_a, true);
        let mut others = init_pieces(player_b, false);
        let ghost a = pieces@;
        let ghost b = others@;
        pieces.append(&mut others);
        assert(pieces_view(pieces@) =~= pieces_view(a) + pieces_view(b));
        let history: Vec<GameHistory> = Vec::new();
        let current = GameHistory::new();
        assert(current@.moves =~= seq![]);
        let board = ChessBoard {
            current_player: player_a,
            current_state: Some(current),
            tiles,
            history,
            pieces,
        };
        assert(board@.tiles[8 * (0 as int) + 0] == ((0int, 0int), tile_color(0, 0)));
        assert(board@.tiles[8 * (1 as int) + 0] == ((1int, 0int), tile_color(1, 0)));
        assert(board@.completed =~= seq![]);
        board
    }

    /// The index of the first piece with identifier `id`, if any.
    fn find_piece(&self, id: u8) -> (r: Option<usize>)
        ensures
            r is Some <==> holds_id(self@.pieces, id as int),
            r matches Some(i) ==> i as int == index_of(self@.pieces, id as int) && i
                < self.pieces@.len(),
    {
        let ghost ps = self@.pieces;
        for i in 0..self.pieces.len()
            invariant
                ps == pieces_view(self.pieces@),
                forall|j: int| 0 <= j < i ==> ps[j].id != id as int,
        {
            if self.pieces[i].id() == id {
                proof {
                    let n = i as int;
                    assert(0 <= n < ps.len() && ps[n].id == id as int && forall|j: int|
                        0 <= j < n ==> ps[j].id != id as int);
                    let k = index_of(ps, id as int);
                    if k < n {
                        assert(ps[k].id != id as int);
                    } else if k > n {
                        assert(ps[n].id != id as int);
                    }
                }
                return Some(i);
            }
        }
        None
    }

    /// The pseudo-legal destinations of the piece with identifier `piece_id`, from where it
    /// stands; fails with `InvalidPieceReference` where no such piece is on the board.
    pub fn pseudo_legal_moves(&self, piece_id: u8) -> (r: Result<Vec<Coordinate>, ChessError>)
        ensures
            r is Ok <==> holds_id(self@.pieces, piece_id as int),
            r matches Ok(v) ==> ({
                let p = self@.pieces[index_of(self@.pieces, piece_id as int)];
                views(v@) == destinations(p.kind, p.owner.color, p.at)
            }),
            r matches Err(e) ==> e == ChessError::InvalidPieceReference,
    {
        match self.find_piece(piece_id) {
            Some(i) => Ok(self.pieces[i].next_moves()),
            None => Err(ChessError::InvalidPieceReference),
        }
    }

    /// Moves the piece with identifier `piece_id` to `destination` and records the ply in the
    /// game in play. Legality, turn order and captures are left to the caller. Fails, changing
    /// nothing, with `InvalidPieceReference` where no such piece is on the board, else with
    /// `HistoryClosedError` where no game is in play.
    pub fn apply_move(&mut self, piece_id: u8, destination: Coordinate) -> (r: Result<(), ChessError>)
        ensures
            r == apply_outcome(old(self)@, piece_id as int),
            r is Ok ==> final(self)@ == after_move(old(self)@, piece_id as int, destination@),
            r is Err ==> final(self)@ == old(self)@,
    {
        let i = match self.find_piece(piece_id) {
            Some(i) => i,
            None => return Err(ChessError::InvalidPieceReference),
        };
        let ghost before = self@;
        let ghost hist = self.history@;
        match &mut self.current_state {
            Some(h) => {
                match h.append_to_history(GameState::new(destination, piece_id)) {
                    Ok(()) => {},
                    Err(e) => return Err(e),
                }
            },
            None => return Err(ChessError::HistoryClosedError),
        }
        assert(self.history@ == hist);
        let mut p = self.pieces[i];
        p.move_to(destination);
        let ghost ps = self.pieces@;
        self.pieces.set(i, p);
        assert(pieces_view(self.pieces@) =~= pieces_view(ps).update(i as int, p@));
        assert(self@ == after_move(before, piece_id as int, destination@));
        Ok(())
    }

    /// Closes the game in play at `end_date` and moves its record to the completed ones; no
    /// new game is opened. Fails with `HistoryClosedError`, changing nothing, where no game is
    /// in play.
    pub fn conclude_game(&mut self, end_date: String) -> (r: Result<(), ChessError>)
        ensures
            r == conclude_outcome(old(self)@),
            r is Ok ==> final(self)@ == after_conclude(old(self)@, end_date@),
            r is Err ==> final(self)@ == old(self)@,
    {
        let ghost before = self@;
        match self.current_state.take() {
            Some(mut h) => {
                match h.close(end_date) {
                    Ok(()) => {
                        let ghost hist = self.history@;
                        self.history.push(h);
                        assert(self.history@.map_values(|g: GameHistory| g@) =~= hist.map_values(
                            |g: GameHistory| g@,
                        ).push(h@));
                        assert(self@ == after_conclude(before, end_date@));
                        Ok(())
                    },
                    Err(e) => {
                        self.current_state = Some(h);
                        Err(e)
                    },
                }
            },
            None => Err(ChessError::HistoryClosedError),
        }
    }

    /// The tiles, the square `(f, r)` at index `8 * f + r`.
    pub fn tiles(&self) -> (r: &Vec<Tile>)
        ensures
            tiles_view(r@) == self@.tiles,
    {
        &self.tiles
    }

    /// The pieces in play.
    pub fn pieces(&self) -> (r: &Vec<ChessPiece<'player>>)
        ensures
            pieces_view(r@) == self@.pieces,
    {
        &self.pieces
    }

    /// The record of the game in play, if any.
    pub fn active_history(&self) -> (r: Option<&GameHistory>)
        ensures
            self@.active is None <==> r is None,
            r matches Some(h) ==> self@.active == Some(h@),
    {
        match &self.current_state {
            Some(h) => Some(h),
            None => None,
        }
    }

    /// The records of the concluded games, oldest first.
    pub fn completed_histories(&self) -> (r: &Vec<GameHistory>)
        ensures
            r@.map_values(|h: GameHistory| h@) == self@.completed,
    {
        &self.history
    }

    /// The player to move.
    pub fn current_player(&self) -> (r: &'player ChessPlayer)
        ensures
            *r == self@.to_move,
    {
        self.current_player
    }
}

} // verus!
