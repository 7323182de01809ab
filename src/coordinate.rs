use vstd::prelude::*;

use crate::error::ChessError;

verus! {

/// Whether `(file, rank)` lies on the 8x8 grid.
pub open spec fn on_board(file: int, rank: int) -> bool {
    0 <= file < 8 && 0 <= rank < 8
}

/// `v` moved `n` steps along the sign of `delta`.
pub open spec fn offset(v: int, delta: int, n: int) -> int {
    if delta > 0 {
        v + n
    } else if delta < 0 {
        v - n
    } else {
        v
    }
}

/// How many steps fit between `v` and the grid's edge when moving along the sign of `delta`.
pub open spec fn room(v: int, delta: int) -> int {
    if delta > 0 {
        7 - v
    } else if delta < 0 {
        v
    } else {
        7
    }
}

/// The number of squares on the ray from `(file, rank)` in direction `d`.
pub open spec fn ray_len(file: int, rank: int, d: Direction) -> int {
    let a = room(file, d.df());
    let b = room(rank, d.dr());
    if a < b {
        a
    } else {
        b
    }
}

/// The ray from `(file, rank)` in direction `d`: one step from the origin up to the grid's edge.
pub open spec fn ray_view(file: int, rank: int, d: Direction) -> Seq<(int, int)> {
    Seq::new(
        ray_len(file, rank, d) as nat,
        |k: int| (offset(file, d.df(), k + 1), offset(rank, d.dr(), k + 1)),
    )
}

/// The `(file, rank)` pairs of a sequence of coordinates.
pub open spec fn views(s: Seq<Coordinate>) -> Seq<(int, int)> {
    s.map_values(|c: Coordinate| c@)
}

/// The eight compass directions; "up" is toward increasing rank, "right" toward increasing file.
#[derive(Clone, Copy, Debug, PartialEq, Eq, Structural)]
pub enum Direction {
    Up,
    Down,
    Left,
    Right,
    UpLeft,
    UpRight,
    DownLeft,
    DownRight,
}

impl Direction {
    /// The change of file of one step.
    pub open spec fn df(self) -> int {
        match self {
            Direction::Left | Direction::UpLeft | Direction::DownLeft => -1,
            Direction::Right | Direction::UpRight | Direction::DownRight => 1,
            _ => 0,
        }
    }

    /// The change of rank of one step.
    pub open spec fn dr(self) -> int {
        match self {
            Direction::Down | Direction::DownLeft | Direction::DownRight => -1,
            Direction::Up | Direction::UpLeft | Direction::UpRight => 1,
            _ => 0,
        }
    }

    /// The change of file and rank of one step.
    pub fn delta(&self) -> (r: (i8, i8))
        ensures
            r.0 as int == self.df(),
            r.1 as int == self.dr(),
    {
        match self {
            Direction::Up => (0, 1),
            Direction::Down => (0, -1),
            Direction::Left => (-1, 0),
            Direction::Right => (1, 0),
            Direction::UpLeft => (-1, 1),
            Direction::UpRight => (1, 1),
            Direction::DownLeft => (-1, -1),
            Direction::DownRight => (1, -1),
        }
    }
}

/// The squares reached from `(file, rank)` by `k` steps in direction `d` stay on the grid
/// exactly as long as `k` does not exceed the ray's length.
pub proof fn lemma_ray_step(file: int, rank: int, d: Direction, k: int)
    requires
        on_board(file, rank),
        0 <= k,
    ensures
        on_board(offset(file, d.df(), k), offset(rank, d.dr(), k)) <==> k <= ray_len(file, rank, d),
        0 <= ray_len(file, rank, d) <= 7,
        offset(file, d.df(), k) + d.df() == offset(file, d.df(), k + 1),
        offset(rank, d.dr(), k) + d.dr() == offset(rank, d.dr(), k + 1),
{
}

/// A ray from a square at the grid's edge, pointing off the grid, is empty.
pub proof fn lemma_ray_empty_at_edge(file: int, rank: int, d: Direction)
    requires
        on_board(file, rank),
        !on_board(file + d.df(), rank + d.dr()),
    ensures
        ray_view(file, rank, d).len() == 0,
{
    lemma_ray_step(file, rank, d, 1);
}

/// A square of the 8x8 grid: `x` is the file, `y` the rank, both in `0..8`.
#[derive(Clone, Copy, Debug)]
pub struct Coordinate {
    x: u8,
    y: u8,
}

impl View for Coordinate {
    type V = (int, int);

    closed spec fn view(&self) -> (int, int) {
        (self.x as int, self.y as int)
    }
}

impl Coordinate {
    #[verifier::type_invariant]
    spec fn in_bounds(&self) -> bool {
        self.x < 8 && self.y < 8
    }

    /// The square `(x, y)`; fails where either axis lies outside `0..8`.
    pub fn new(x: u8, y: u8) -> (r: Result<Coordinate, ChessError>)
        ensures
            r is Ok <==> x < 8 && y < 8,
            r matches Ok(c) ==> c@ == (x as int, y as int),
            r matches Err(e) ==> e == ChessError::OutOfBounds,
    {
        if x < 8 && y < 8 {
            Ok(Coordinate { x, y })
        } else {
            Err(ChessError::OutOfBounds)
        }
    }

    /// The file (column).
    pub fn file(&self) -> (r: u8)
        ensures
            r as int == self@.0,
            r < 8,
    {
        proof {
            use_type_invariant(self);
        }
        self.x
    }

    /// The rank (row).
    pub fn rank(&self) -> (r: u8)
        ensures
            r as int == self@.1,
            r < 8,
    {
        proof {
            use_type_invariant(self);
        }
        self.y
    }

    /// The square `df` files and `dr` ranks away; fails where it would leave the grid.
    pub fn shifted(&self, df: i8, dr: i8) -> (r: Result<Coordinate, ChessError>)
        ensures
            r is Ok <==> on_board(self@.0 + df, self@.1 + dr),
            r matches Ok(c) ==> c@ == (self@.0 + df, self@.1 + dr),
            r matches Err(e) ==> e == ChessError::OutOfBounds,
    {
        proof {
            use_type_invariant(self);
        }
        let nx: i16 = self.x as i16 + df as i16;
        let ny: i16 = self.y as i16 + dr as i16;
        if 0 <= nx && nx < 8 && 0 <= ny && ny < 8 {
            Ok(Coordinate { x: nx as u8, y: ny as u8 })
        } else {
            Err(ChessError::OutOfBounds)
        }
    }

    /// The adjacent square in direction `d`; fails at the grid's edge.
    pub fn neighbor(&self, d: Direction) -> (r: Result<Coordinate, ChessError>)
        ensures
            r is Ok <==> on_board(self@.0 + d.df(), self@.1 + d.dr()),
            r matches Ok(c) ==> c@ == (self@.0 + d.df(), self@.1 + d.dr()),
            r matches Err(e) ==> e == ChessError::OutOfBounds,
    {
        let (df, dr) = d.delta();
        self.shifted(df, dr)
    }

    /// Whether a step toward increasing rank stays on the grid.
    pub fn can_advance_up(&self) -> (r: bool)
        ensures
            r == (self@.1 < 7),
    {
        self.y < 7
    }

    /// Whether a step toward decreasing rank stays on the grid.
    pub fn can_advance_down(&self) -> (r: bool)
        ensures
            r == (self@.1 > 0),
    {
        self.y != 0
    }

    /// Whether a step toward decreasing file stays on the grid.
    pub fn can_advance_left(&self) -> (r: bool)
        ensures
            r == (self@.0 > 0),
    {
        self.x != 0
    }

    /// Whether a step toward increasing file stays on the grid.
    pub fn can_advance_right(&self) -> (r: bool)
        ensures
            r == (self@.0 < 7),
    {
        self.x < 7
    }

    /// The squares from one step away from `self` in direction `d` up to the grid's edge.
    pub fn ray(&self, d: Direction) -> (r: Vec<Coordinate>)
        ensures
            views(r@) == ray_view(self@.0, self@.1, d),
    {
        proof {
            use_type_invariant(self);
        }
        let ghost file = self@.0;
        let ghost rank = self@.1;
        let mut line: Vec<Coordinate> = Vec::new();
        let mut cur = *self;
        proof {
            lemma_ray_step(file, rank, d, 0);
        }
        loop
            invariant_except_break
                on_board(file, rank),
                line.len() <= ray_len(file, rank, d),
                views(line@) == ray_view(file, rank, d).take(line.len() as int),
                cur@ == (
                    offset(file, d.df(), line.len() as int),
                    offset(rank, d.dr(), line.len() as int),
                ),
            ensures
                views(line@) == ray_view(file, rank, d),
            decreases ray_len(file, rank, d) - line.len(),
        {
            let ghost k = line.len() as int;
            proof {
                lemma_ray_step(file, rank, d, k);
                lemma_ray_step(file, rank, d, k + 1);
            }
            match cur.neighbor(d) {
                Ok(next) => {
                    let ghost before = line@;
                    line.push(next);
                    cur = next;
                    assert(views(line@) =~= views(before).push(next@));
                    assert(views(line@) =~= ray_view(file, rank, d).take(line.len() as int));
                },
                Err(_) => {
                    assert(views(line@) =~= ray_view(file, rank, d));
                    break ;
                },
            }
        }
        line
    }

    /// The square right; fails with `OutOfBounds` at the grid's edge.
    pub fn create_right(&self) -> (r: Result<Coordinate, ChessError>)
        ensures
            r is Err <==> self@.0 == 7,
            r matches Ok(c) ==> c@ == (self@.0 + 1, self@.1),
            r matches Err(e) ==> e == ChessError::OutOfBounds,
    {
        proof {
            use_type_invariant(self);
        }
        self.neighbor(Direction::Right)
    }

    /// The square left; fails with `OutOfBounds` at the grid's edge.
    pub fn create_left(&self) -> (r: Result<Coordinate, ChessError>)
        ensures
            r is Err <==> self@.0 == 0,
            r matches Ok(c) ==> c@ == (self@.0 - 1, self@.1),
            r matches Err(e) ==> e == ChessError::OutOfBounds,
    {
        proof {
            use_type_invariant(self);
        }
        self.neighbor(Direction::Left)
    }

    /// The square above; fails with `OutOfBounds` at the grid's edge.
    pub fn create_top(&self) -> (r: Result<Coordinate, ChessError>)
        ensures
            r is Err <==> self@.1 == 7,
            r matches Ok(c) ==> c@ == (self@.0, self@.1 + 1),
            r matches Err(e) ==> e == ChessError::OutOfBounds,
    {
        proof {
            use_type_invariant(self);
        }
        self.neighbor(Direction::Up)
    }

    /// The square below; fails with `OutOfBounds` at the grid's edge.
    pub fn create_bottom(&self) -> (r: Result<Coordinate, ChessError>)
        ensures
            r is Err <==> self@.1 == 0,
            r matches Ok(c) ==> c@ == (self@.0, self@.1 - 1),
            r matches Err(e) ==> e == ChessError::OutOfBounds,
    {
        proof {
            use_type_invariant(self);
        }
        self.neighbor(Direction::Down)
    }

    /// The square below and to the left; fails with `OutOfBounds` at the grid's edge.
    pub fn create_bottom_left(&self) -> (r: Result<Coordinate, ChessError>)
        ensures
            r is Err <==> self@.0 == 0 || self@.1 == 0,
            r matches Ok(c) ==> c@ == (self@.0 - 1, self@.1 - 1),
            r matches Err(e) ==> e == ChessError::OutOfBounds,
    {
        proof {
            use_type_invariant(self);
        }
        self.neighbor(Direction::DownLeft)
    }

    /// The square below and to the right; fails with `OutOfBounds` at the grid's edge.
    pub fn create_bottom_right(&self) -> (r: Result<Coordinate, ChessError>)
        ensures
            r is Err <==> self@.0 == 7 || self@.1 == 0,
            r matches Ok(c) ==> c@ == (self@.0 + 1, self@.1 - 1),
            r matches Err(e) ==> e == ChessError::OutOfBounds,
    {
        proof {
            use_type_invariant(self);
        }
        self.neighbor(Direction::DownRight)
    }

    /// The square above and to the left; fails with `OutOfBounds` at the grid's edge.
    pub fn create_top_left(&self) -> (r: Result<Coordinate, ChessError>)
        ensures
            r is Err <==> self@.0 == 0 || self@.1 == 7,
            r matches Ok(c) ==> c@ == (self@.0 - 1, self@.1 + 1),
            r matches Err(e) ==> e == ChessError::OutOfBounds,
    {
        proof {
            use_type_invariant(self);
        }
        self.neighbor(Direction::UpLeft)
    }

    /// The square above and to the right; fails with `OutOfBounds` at the grid's edge.
    pub fn create_top_right(&self) -> (r: Result<Coordinate, ChessError>)
        ensures
            r is Err <==> self@.0 == 7 || self@.1 == 7,
            r matches Ok(c) ==> c@ == (self@.0 + 1, self@.1 + 1),
            r matches Err(e) ==> e == ChessError::OutOfBounds,
    {
        proof {
            use_type_invariant(self);
        }
        self.neighbor(Direction::UpRight)
    }

    /// The ray toward decreasing file, without `self`.
    pub fn line_x_left(&self) -> (r: Vec<Coordinate>)
        ensures
            views(r@) == ray_view(self@.0, self@.1, Direction::Left),
    {
        self.ray(Direction::Left)
    }

    /// The ray toward increasing file, without `self`.
    pub fn line_x_right(&self) -> (r: Vec<Coordinate>)
        ensures
            views(r@) == ray_view(self@.0, self@.1, Direction::Right),
    {
        self.ray(Direction::Right)
    }

    /// The ray toward increasing rank, without `self`.
    pub fn line_y_top(&self) -> (r: Vec<Coordinate>)
        ensures
            views(r@) == ray_view(self@.0, self@.1, Direction::Up),
    {
        self.ray(Direction::Up)
    }

    /// The ray toward decreasing rank, without `self`.
    pub fn line_y_bottom(&self) -> (r: Vec<Coordinate>)
        ensures
            views(r@) == ray_view(self@.0, self@.1, Direction::Down),
    {
        self.ray(Direction::Down)
    }

    /// The ray up the rising diagonal, without `self`.
    pub fn line_p45_top(&self) -> (r: Vec<Coordinate>)
        ensures
            views(r@) == ray_view(self@.0, self@.1, Direction::UpRight),
    {
        self.ray(Direction::UpRight)
    }

    /// The ray down the rising diagonal, without `self`.
    pub fn line_p45_bottom(&self) -> (r: Vec<Coordinate>)
        ensures
            views(r@) == ray_view(self@.0, self@.1, Direction::DownLeft),
    {
        self.ray(Direction::DownLeft)
    }

    /// The ray up the falling diagonal, without `self`.
    pub fn line_n45_top(&self) -> (r: Vec<Coordinate>)
        ensures
            views(r@) == ray_view(self@.0, self@.1, Direction::UpLeft),
    {
        self.ray(Direction::UpLeft)
    }

    /// The ray down the falling diagonal, without `self`.
    pub fn line_n45_bottom(&self) -> (r: Vec<Coordinate>)
        ensures
            views(r@) == ray_view(self@.0, self@.1, Direction::DownRight),
    {
        self.ray(Direction::DownRight)
    }

    /// The whole rising diagonal through `self`, without `self`: the upper half-ray, then the lower.
    pub fn line_p45(&self) -> (r: Vec<Coordinate>)
        ensures
            views(r@) == ray_view(self@.0, self@.1, Direction::UpRight) + ray_view(
                self@.0,
                self@.1,
                Direction::DownLeft,
            ),
    {
        let mut top = self.ray(Direction::UpRight);
        let mut bottom = self.ray(Direction::DownLeft);
        let ghost t = top@;
        let ghost b = bottom@;
        top.append(&mut bottom);
        assert(views(top@) =~= views(t) + views(b));
        top
    }

    /// The whole falling diagonal through `self`, without `self`: the upper half-ray, then the lower.
    pub fn line_n45(&self) -> (r: Vec<Coordinate>)
        ensures
            views(r@) == ray_view(self@.0, self@.1, Direction::UpLeft) + ray_view(
                self@.0,
                self@.1,
                Direction::DownRight,
            ),
    {
        let mut top = self.ray(Direction::UpLeft);
        let mut bottom = self.ray(Direction::DownRight);
        let ghost t = top@;
        let ghost b = bottom@;
        top.append(&mut bottom);
        assert(views(top@) =~= views(t) + views(b));
        top
    }

    /// The whole rank through `self`, file 0 to 7, `self` included.
    pub fn line_x(&self) -> (r: Vec<Coordinate>)
        ensures
            views(r@) == Seq::new(8, |i: int| (i, self@.1)),
    {
        proof {
            use_type_invariant(self);
        }
        let mut line: Vec<Coordinate> = Vec::new();
        for x in 0..8u8
            invariant
                self.y < 8,
                views(line@) == Seq::new(x as nat, |i: int| (i, self@.1)),
        {
            let c = Coordinate { x, y: self.y };
            let ghost before = line@;
            line.push(c);
            assert(views(line@) =~= views(before).push(c@));
            assert(views(line@) =~= Seq::new((x + 1) as nat, |i: int| (i, self@.1)));
        }
        line
    }

    /// The whole file through `self`, rank 0 to 7, `self` included.
    pub fn line_y(&self) -> (r: Vec<Coordinate>)
        ensures
            views(r@) == Seq::new(8, |i: int| (self@.0, i)),
    {
        proof {
            use_type_invariant(self);
        }
        let mut line: Vec<Coordinate> = Vec::new();
        for y in 0..8u8
            invariant
                self.x < 8,
                views(line@) == Seq::new(y as nat, |i: int| (self@.0, i)),
        {
            let c = Coordinate { x: self.x, y };
            let ghost before = line@;
            line.push(c);
            assert(views(line@) =~= views(before).push(c@));
            assert(views(line@) =~= Seq::new((y + 1) as nat, |i: int| (self@.0, i)));
        }
        line
    }
}

} // verus!
