use vstd::prelude::*;

use crate::coordinate::{lemma_ray_step, offset, on_board, ray_view, views, Coordinate, Direction};
use crate::piece::{Color, PieceType};

verus! {

/// The change of rank of a pawn's advance: White moves toward increasing rank, Black toward
/// decreasing rank.
pub open spec fn forward(owner: Color) -> int {
    match owner {
        Color::White => 1,
        Color::Black => -1,
    }
}

/// The king's eight one-step offsets.
pub open spec fn king_offsets() -> Seq<(int, int)> {
    seq![(0, 1), (0, -1), (-1, 0), (1, 0), (1, 1), (1, -1), (-1, 1), (-1, -1)]
}

/// The knight's eight jumps: one square along one axis and two along the other.
pub open spec fn knight_offsets() -> Seq<(int, int)> {
    seq![(1, 2), (2, 1), (2, -1), (1, -2), (-1, -2), (-2, -1), (-2, 1), (-1, 2)]
}

/// A pawn's advance and its two forward diagonals.
pub open spec fn pawn_offsets(owner: Color) -> Seq<(int, int)> {
    seq![(0, forward(owner)), (-1, forward(owner)), (1, forward(owner))]
}

/// The rook's four orthogonal directions.
pub open spec fn rook_directions() -> Seq<Direction> {
    seq![Direction::Up, Direction::Down, Direction::Left, Direction::Right]
}

/// The bishop's four diagonal directions.
pub open spec fn bishop_directions() -> Seq<Direction> {
    seq![Direction::UpRight, Direction::DownRight, Direction::UpLeft, Direction::DownLeft]
}

/// The squares at `offsets` from `origin` that lie on the grid, in the order of `offsets`.
pub open spec fn jumps(origin: (int, int), offsets: Seq<(int, int)>) -> Seq<(int, int)>
    decreases offsets.len(),
{
    if offsets.len() == 0 {
        seq![]
    } else {
        let rest = jumps(origin, offsets.drop_last());
        let p = (origin.0 + offsets.last().0, origin.1 + offsets.last().1);
        if on_board(p.0, p.1) {
            rest.push(p)
        } else {
            rest
        }
    }
}

/// The rays from `origin` in each of `dirs`, one after the other.
pub open spec fn rays(origin: (int, int), dirs: Seq<Direction>) -> Seq<(int, int)>
    decreases dirs.len(),
{
    if dirs.len() == 0 {
        seq![]
    } else {
        rays(origin, dirs.drop_last()) + ray_view(origin.0, origin.1, dirs.last())
    }
}

/// The candidate destinations of a piece of kind `kind`, owned by the `owner` side, standing on
/// `origin`: every square it could reach geometrically, ignoring occupancy and check.
pub open spec fn destinations(kind: PieceType, owner: Color, origin: (int, int)) -> Seq<(int, int)> {
    match kind {
        PieceType::King => jumps(origin, king_offsets()),
        PieceType::Knight => jumps(origin, knight_offsets()),
        PieceType::Pawn => jumps(origin, pawn_offsets(owner)),
        PieceType::Rook => rays(origin, rook_directions()),
        PieceType::Bishop => rays(origin, bishop_directions()),
        PieceType::Queen => rays(origin, rook_directions() + bishop_directions()),
    }
}

/// Whether `p` lies on the ray from `o` in direction `d`: on the grid, some `n > 0` steps away.
pub open spec fn on_ray(o: (int, int), d: Direction, p: (int, int)) -> bool {
    let n = if d.df() > 0 {
        p.0 - o.0
    } else if d.df() < 0 {
        o.0 - p.0
    } else if d.dr() > 0 {
        p.1 - o.1
    } else {
        o.1 - p.1
    };
    on_board(p.0, p.1) && n > 0 && p == (offset(o.0, d.df(), n), offset(o.1, d.dr(), n))
}

/// Whether a piece of kind `kind`, owned by the `owner` side, on `o` could reach `p`,
/// stated directly in terms of the file and rank distances.
pub open spec fn reachable(kind: PieceType, owner: Color, o: (int, int), p: (int, int)) -> bool {
    let df = p.0 - o.0;
    let dr = p.1 - o.1;
    on_board(p.0, p.1) && match kind {
        PieceType::King => p != o && -1 <= df <= 1 && -1 <= dr <= 1,
        PieceType::Knight => ((df == 1 || df == -1) && (dr == 2 || dr == -2)) || ((df == 2
            || df == -2) && (dr == 1 || dr == -1)),
        PieceType::Pawn => dr == forward(owner) && -1 <= df <= 1,
        PieceType::Rook => p != o && (df == 0 || dr == 0),
        PieceType::Bishop => p != o && (df == dr || df == -dr),
        PieceType::Queen => p != o && (df == 0 || dr == 0 || df == dr || df == -dr),
    }
}

/// An element of a concatenation lies in one of its parts.
proof fn lemma_add_contains<A>(a: Seq<A>, b: Seq<A>, x: A)
    ensures
        (a + b).contains(x) <==> a.contains(x) || b.contains(x),
{
    if (a + b).contains(x) {
        let k = choose|k: int| 0 <= k < (a + b).len() && (a + b)[k] == x;
        if k < a.len() {
            assert(a[k] == x);
        } else {
            assert(b[k - a.len()] == x);
        }
    }
    if a.contains(x) {
        let k = choose|k: int| 0 <= k < a.len() && a[k] == x;
        assert((a + b)[k] == x);
    }
    if b.contains(x) {
        let k = choose|k: int| 0 <= k < b.len() && b[k] == x;
        assert((a + b)[k + a.len()] == x);
    }
}

/// The ray from `o` in direction `d` holds exactly the squares `on_ray(o, d, _)`.
proof fn lemma_ray_contains(o: (int, int), d: Direction, p: (int, int))
    requires
        on_board(o.0, o.1),
    ensures
        ray_view(o.0, o.1, d).contains(p) <==> on_ray(o, d, p),
{
    let s = ray_view(o.0, o.1, d);
    if s.contains(p) {
        let k = choose|k: int| 0 <= k < s.len() && s[k] == p;
        lemma_ray_step(o.0, o.1, d, k + 1);
    }
    if on_ray(o, d, p) {
        let n = if d.df() > 0 {
            p.0 - o.0
        } else if d.df() < 0 {
            o.0 - p.0
        } else if d.dr() > 0 {
            p.1 - o.1
        } else {
            o.1 - p.1
        };
        lemma_ray_step(o.0, o.1, d, n);
        assert(s[n - 1] == p);
    }
}

/// Several rays together hold exactly the squares on one of them.
proof fn lemma_rays_contains(o: (int, int), dirs: Seq<Direction>, p: (int, int))
    requires
        on_board(o.0, o.1),
    ensures
        rays(o, dirs).contains(p) <==> exists|i: int| 0 <= i < dirs.len() && on_ray(o, #[trigger] dirs[i], p),
    decreases dirs.len(),
{
    if dirs.len() > 0 {
        let rest = dirs.drop_last();
        lemma_rays_contains(o, rest, p);
        lemma_ray_contains(o, dirs.last(), p);
        lemma_add_contains(rays(o, rest), ray_view(o.0, o.1, dirs.last()), p);
        if exists|i: int| 0 <= i < dirs.len() && on_ray(o, #[trigger] dirs[i], p) {
            let i = choose|i: int| 0 <= i < dirs.len() && on_ray(o, #[trigger] dirs[i], p);
            if i < rest.len() {
                assert(rest[i] == dirs[i]);
            }
        }
        if exists|i: int| 0 <= i < rest.len() && on_ray(o, #[trigger] rest[i], p) {
            let i = choose|i: int| 0 <= i < rest.len() && on_ray(o, #[trigger] rest[i], p);
            assert(dirs[i] == rest[i]);
        }
    }
}

/// The jumps hold exactly the on-grid squares at one of the offsets.
proof fn lemma_jumps_contains(o: (int, int), offsets: Seq<(int, int)>, p: (int, int))
    ensures
        jumps(o, offsets).contains(p) <==> on_board(p.0, p.1) && exists|i: int|
            0 <= i < offsets.len() && p == (o.0 + (#[trigger] offsets[i]).0, o.1 + offsets[i].1),
    decreases offsets.len(),
{
    if offsets.len() > 0 {
        let rest = offsets.drop_last();
        let q = (o.0 + offsets.last().0, o.1 + offsets.last().1);
        lemma_jumps_contains(o, rest, p);
        lemma_add_contains(jumps(o, rest), seq![q], p);
        if on_board(q.0, q.1) {
            assert(jumps(o, offsets) == jumps(o, rest) + seq![q]);
        }
        assert(seq![q].contains(p) <==> p == q) by {
            if p == q {
                assert(seq![q][0] == p);
            }
        }
        if exists|i: int| 0 <= i < offsets.len() && p == (o.0 + (#[trigger] offsets[i]).0, o.1 + offsets[i].1) {
            let i = choose|i: int| 0 <= i < offsets.len() && p == (o.0 + (#[trigger] offsets[i]).0, o.1 + offsets[i].1);
            if i < rest.len() {
                assert(rest[i] == offsets[i]);
            }
        }
        if exists|i: int| 0 <= i < rest.len() && p == (o.0 + (#[trigger] rest[i]).0, o.1 + rest[i].1) {
            let i = choose|i: int| 0 <= i < rest.len() && p == (o.0 + (#[trigger] rest[i]).0, o.1 + rest[i].1);
            assert(offsets[i] == rest[i]);
        }
    }
}

/// The king's case of `lemma_destinations_geometry`.
proof fn lemma_king_geometry(owner: Color, o: (int, int), p: (int, int))
    ensures
        destinations(PieceType::King, owner, o).contains(p) <==> reachable(PieceType::King, owner, o, p),
{
    let offs = king_offsets();
    lemma_jumps_contains(o, offs, p);
    assert(offs[0] == (0int, 1int) && offs[1] == (0int, -1int) && offs[2] == (-1int, 0int) && offs[3] == (1int, 0int) && offs[4] == (1int, 1int) && offs[5] == (1int, -1int) && offs[6] == (-1int, 1int) && offs[7] == (-1int, -1int));
    if reachable(PieceType::King, owner, o, p) {
        let w = (p.0 - o.0, p.1 - o.1);
        assert(exists|i: int| 0 <= i < 8 && offs[i] == w);
        let i = choose|i: int| 0 <= i < 8 && offs[i] == w;
        assert(p == (o.0 + offs[i].0, o.1 + offs[i].1));
    }
}

/// The knight's case of `lemma_destinations_geometry`.
proof fn lemma_knight_geometry(owner: Color, o: (int, int), p: (int, int))
    ensures
        destinations(PieceType::Knight, owner, o).contains(p) <==> reachable(PieceType::Knight, owner, o, p),
{
    let offs = knight_offsets();
    lemma_jumps_contains(o, offs, p);
    assert(offs[0] == (1int, 2int) && offs[1] == (2int, 1int) && offs[2] == (2int, -1int) && offs[3] == (1int, -2int) && offs[4] == (-1int, -2int) && offs[5] == (-2int, -1int) && offs[6] == (-2int, 1int) && offs[7] == (-1int, 2int));
    if reachable(PieceType::Knight, owner, o, p) {
        let w = (p.0 - o.0, p.1 - o.1);
        assert(exists|i: int| 0 <= i < 8 && offs[i] == w);
        let i = choose|i: int| 0 <= i < 8 && offs[i] == w;
        assert(p == (o.0 + offs[i].0, o.1 + offs[i].1));
    }
}

/// The pawn's case of `lemma_destinations_geometry`.
proof fn lemma_pawn_geometry(owner: Color, o: (int, int), p: (int, int))
    ensures
        destinations(PieceType::Pawn, owner, o).contains(p) <==> reachable(PieceType::Pawn, owner, o, p),
{
    let offs = pawn_offsets(owner);
    lemma_jumps_contains(o, offs, p);
    assert(offs[0] == (0int, forward(owner)) && offs[1] == (-1int, forward(owner)) && offs[2] == (1int, forward(owner)));
    if reachable(PieceType::Pawn, owner, o, p) {
        let w = (p.0 - o.0, p.1 - o.1);
        assert(exists|i: int| 0 <= i < 3 && offs[i] == w);
        let i = choose|i: int| 0 <= i < 3 && offs[i] == w;
        assert(p == (o.0 + offs[i].0, o.1 + offs[i].1));
    }
}

/// The rook's case of `lemma_destinations_geometry`.
proof fn lemma_rook_geometry(owner: Color, o: (int, int), p: (int, int))
    requires
        on_board(o.0, o.1),
    ensures
        destinations(PieceType::Rook, owner, o).contains(p) <==> reachable(PieceType::Rook, owner, o, p),
{
    let dirs = rook_directions();
    lemma_rays_contains(o, dirs, p);
    assert(dirs[0] == Direction::Up && dirs[1] == Direction::Down && dirs[2] == Direction::Left && dirs[3] == Direction::Right);
    if reachable(PieceType::Rook, owner, o, p) {
        assert(on_ray(o, dirs[0], p) || on_ray(o, dirs[1], p) || on_ray(o, dirs[2], p) || on_ray(o, dirs[3], p));
    }
}

/// The bishop's case of `lemma_destinations_geometry`.
proof fn lemma_bishop_geometry(owner: Color, o: (int, int), p: (int, int))
    requires
        on_board(o.0, o.1),
    ensures
        destinations(PieceType::Bishop, owner, o).contains(p) <==> reachable(PieceType::Bishop, owner, o, p),
{
    let dirs = bishop_directions();
    lemma_rays_contains(o, dirs, p);
    assert(dirs[0] == Direction::UpRight && dirs[1] == Direction::DownRight && dirs[2] == Direction::UpLeft && dirs[3] == Direction::DownLeft);
    if reachable(PieceType::Bishop, owner, o, p) {
        assert(on_ray(o, dirs[0], p) || on_ray(o, dirs[1], p) || on_ray(o, dirs[2], p) || on_ray(o, dirs[3], p));
    }
}

/// The queen's case of `lemma_destinations_geometry`.
#[verifier::rlimit(40)]
proof fn lemma_queen_geometry(owner: Color, o: (int, int), p: (int, int))
    requires
        on_board(o.0, o.1),
    ensures
        destinations(PieceType::Queen, owner, o).contains(p) <==> reachable(PieceType::Queen, owner, o, p),
{
    let dirs = rook_directions() + bishop_directions();
    lemma_rays_contains(o, dirs, p);
    assert(dirs[0] == Direction::Up && dirs[1] == Direction::Down && dirs[2] == Direction::Left && dirs[3] == Direction::Right && dirs[4] == Direction::UpRight && dirs[5] == Direction::DownRight && dirs[6] == Direction::UpLeft && dirs[7] == Direction::DownLeft);
    if reachable(PieceType::Queen, owner, o, p) {
        assert(on_ray(o, dirs[0], p) || on_ray(o, dirs[1], p) || on_ray(o, dirs[2], p) || on_ray(o, dirs[3], p) || on_ray(o, dirs[4], p) || on_ray(o, dirs[5], p) || on_ray(o, dirs[6], p) || on_ray(o, dirs[7], p));
    }
}

/// The candidate destinations are exactly the squares that the piece's movement rule reaches
/// from its square: one step any way for the king; a jump of one and two squares for the
/// knight; one square forward, straight or diagonally, for a pawn; any distance along the file
/// or rank for the rook, along a diagonal for the bishop, along either for the queen.
pub proof fn lemma_destinations_geometry(kind: PieceType, owner: Color, o: (int, int), p: (int, int))
    requires
        on_board(o.0, o.1),
    ensures
        destinations(kind, owner, o).contains(p) <==> reachable(kind, owner, o, p),
{
    match kind {
        PieceType::King => lemma_king_geometry(owner, o, p),
        PieceType::Knight => lemma_knight_geometry(owner, o, p),
        PieceType::Pawn => lemma_pawn_geometry(owner, o, p),
        PieceType::Rook => lemma_rook_geometry(owner, o, p),
        PieceType::Bishop => lemma_bishop_geometry(owner, o, p),
        PieceType::Queen => lemma_queen_geometry(owner, o, p),
    }
}

/// Two disjoint sequences without repeats concatenate to one without repeats.
proof fn lemma_add_no_duplicates<A>(a: Seq<A>, b: Seq<A>)
    requires
        a.no_duplicates(),
        b.no_duplicates(),
        forall|x: A| a.contains(x) ==> !b.contains(x),
    ensures
        (a + b).no_duplicates(),
{
    let c = a + b;
    assert forall|i: int, j: int| 0 <= i < c.len() && 0 <= j < c.len() && i != j implies c[i] != c[j] by {
        if i < a.len() && j >= a.len() {
            assert(a.contains(c[i]));
            assert(b[j - a.len()] == c[j]);
        } else if j < a.len() && i >= a.len() {
            assert(a.contains(c[j]));
            assert(b[i - a.len()] == c[i]);
        } else if i >= a.len() {
            assert(b[i - a.len()] == c[i] && b[j - a.len()] == c[j]);
        }
    }
}

/// A square lies on the ray of one direction only.
proof fn lemma_on_ray_unique(o: (int, int), d: Direction, e: Direction, p: (int, int))
    requires
        on_ray(o, d, p),
        on_ray(o, e, p),
    ensures
        d == e,
{
}

/// Distinct offsets give distinct squares.
proof fn lemma_jumps_distinct(o: (int, int), offsets: Seq<(int, int)>)
    requires
        offsets.no_duplicates(),
    ensures
        jumps(o, offsets).no_duplicates(),
    decreases offsets.len(),
{
    if offsets.len() > 0 {
        let rest = offsets.drop_last();
        let q = (o.0 + offsets.last().0, o.1 + offsets.last().1);
        assert(rest.no_duplicates()) by {
            assert(forall|i: int| 0 <= i < rest.len() ==> rest[i] == offsets[i]);
        }
        lemma_jumps_distinct(o, rest);
        if on_board(q.0, q.1) {
            lemma_jumps_contains(o, rest, q);
            if jumps(o, rest).contains(q) {
                let i = choose|i: int|
                    0 <= i < rest.len() && q == (o.0 + (#[trigger] rest[i]).0, o.1 + rest[i].1);
                assert(offsets[i] == offsets[offsets.len() - 1]);
            }
            let a = jumps(o, rest);
            assert forall|i: int, j: int|
                0 <= i < a.push(q).len() && 0 <= j < a.push(q).len() && i != j implies a.push(q)[i]
                != a.push(q)[j] by {
                if i == a.len() {
                    assert(a[j] == a.push(q)[j]);
                } else if j == a.len() {
                    assert(a[i] == a.push(q)[i]);
                }
            }
        }
    }
}

/// A ray names no square twice.
proof fn lemma_ray_distinct(o: (int, int), d: Direction)
    requires
        on_board(o.0, o.1),
    ensures
        ray_view(o.0, o.1, d).no_duplicates(),
{
}

/// Rays in distinct directions, together, name no square twice.
proof fn lemma_rays_distinct(o: (int, int), dirs: Seq<Direction>)
    requires
        on_board(o.0, o.1),
        dirs.no_duplicates(),
    ensures
        rays(o, dirs).no_duplicates(),
    decreases dirs.len(),
{
    if dirs.len() > 0 {
        let rest = dirs.drop_last();
        let d = dirs.last();
        assert(rest.no_duplicates()) by {
            assert(forall|i: int| 0 <= i < rest.len() ==> rest[i] == dirs[i]);
        }
        lemma_rays_distinct(o, rest);
        lemma_ray_distinct(o, d);
        assert forall|x: (int, int)| rays(o, rest).contains(x) implies !ray_view(o.0, o.1, d).contains(x) by {
            lemma_rays_contains(o, rest, x);
            lemma_ray_contains(o, d, x);
            let i = choose|i: int| 0 <= i < rest.len() && on_ray(o, #[trigger] rest[i], x);
            if ray_view(o.0, o.1, d).contains(x) {
                lemma_on_ray_unique(o, rest[i], d, x);
                assert(dirs[i] == dirs[dirs.len() - 1]);
            }
        }
        lemma_add_no_duplicates(rays(o, rest), ray_view(o.0, o.1, d));
    }
}

/// The candidate destinations name no square twice.
pub proof fn lemma_destinations_distinct(kind: PieceType, owner: Color, o: (int, int))
    requires
        on_board(o.0, o.1),
    ensures
        destinations(kind, owner, o).no_duplicates(),
{
    match kind {
        PieceType::King => lemma_jumps_distinct(o, king_offsets()),
        PieceType::Knight => lemma_jumps_distinct(o, knight_offsets()),
        PieceType::Pawn => lemma_jumps_distinct(o, pawn_offsets(owner)),
        PieceType::Rook => lemma_rays_distinct(o, rook_directions()),
        PieceType::Bishop => lemma_rays_distinct(o, bishop_directions()),
        PieceType::Queen => {
            let dirs = rook_directions() + bishop_directions();
            assert(dirs[0] == Direction::Up && dirs[1] == Direction::Down && dirs[2] == Direction::Left
                && dirs[3] == Direction::Right && dirs[4] == Direction::UpRight && dirs[5]
                == Direction::DownRight && dirs[6] == Direction::UpLeft && dirs[7] == Direction::DownLeft);
            lemma_rays_distinct(o, dirs);
        },
    }
}

/// The offsets of a list of `(file, rank)` steps, as integers.
pub open spec fn offset_views(s: Seq<(i8, i8)>) -> Seq<(int, int)> {
    s.map_values(|o: (i8, i8)| (o.0 as int, o.1 as int))
}

/// The squares at `offsets` from `origin` that lie on the grid, in the order of `offsets`.
fn jump_targets(origin: &Coordinate, offsets: &Vec<(i8, i8)>) -> (r: Vec<Coordinate>)
    ensures
        views(r@) == jumps(origin@, offset_views(offsets@)),
{
    let ghost all = offset_views(offsets@);
    let mut out: Vec<Coordinate> = Vec::new();
    for i in 0..offsets.len()
        invariant
            all == offset_views(offsets@),
            views(out@) == jumps(origin@, all.take(i as int)),
    {
        let (df, dr) = offsets[i];
        assert(all.take(i + 1).drop_last() =~= all.take(i as int));
        assert(all.take(i + 1).last() == (df as int, dr as int));
        match origin.shifted(df, dr) {
            Ok(c) => {
                let ghost before = out@;
                out.push(c);
                assert(views(out@) =~= views(before).push(c@));
            },
            Err(_) => {},
        }
    }
    assert(all.take(offsets.len() as int) =~= all);
    out
}

/// The rays from `origin` in each of `dirs`, one after the other.
fn slide_targets(origin: &Coordinate, dirs: &Vec<Direction>) -> (r: Vec<Coordinate>)
    ensures
        views(r@) == rays(origin@, dirs@),
{
    let mut out: Vec<Coordinate> = Vec::new();
    for i in 0..dirs.len()
        invariant
            views(out@) == rays(origin@, dirs@.take(i as int)),
    {
        let d = dirs[i];
        let mut ray = origin.ray(d);
        let ghost before = out@;
        let ghost added = ray@;
        out.append(&mut ray);
        assert(dirs@.take(i + 1).drop_last() =~= dirs@.take(i as int));
        assert(views(out@) =~= views(before) + views(added));
    }
    assert(dirs@.take(dirs.len() as int) =~= dirs@);
    out
}

/// Every square that a piece of kind `piece_type`, owned by the `owner` side, could reach from
/// `origin` on an empty board: pseudo-legal destinations, without regard to occupancy or check.
pub fn candidate_destinations(piece_type: PieceType, owner: Color, origin: Coordinate) -> (r: Vec<
    Coordinate,
>)
    ensures
        views(r@) == destinations(piece_type, owner, origin@),
        views(r@).no_duplicates(),
        forall|p: (int, int)| views(r@).contains(p) <==> reachable(piece_type, owner, origin@, p),
{
    let (f, k) = (origin.file(), origin.rank());
    proof {
        assert(on_board(f as int, k as int));
        lemma_destinations_distinct(piece_type, owner, origin@);
        assert forall|p: (int, int)|
            destinations(piece_type, owner, origin@).contains(p) <==> reachable(
                piece_type,
                owner,
                origin@,
                p,
            ) by {
            lemma_destinations_geometry(piece_type, owner, origin@, p);
        }
    }
    match piece_type {
        PieceType::King => {
            let offsets: Vec<(i8, i8)> = vec![(0, 1), (0, -1), (-1, 0), (1, 0), (1, 1), (1, -1), (-1, 1), (-1, -1)];
            assert(offset_views(offsets@) =~= king_offsets());
            jump_targets(&origin, &offsets)
        },
        PieceType::Knight => {
            let offsets: Vec<(i8, i8)> = vec![(1, 2), (2, 1), (2, -1), (1, -2), (-1, -2), (-2, -1), (-2, 1), (-1, 2)];
            assert(offset_views(offsets@) =~= knight_offsets());
            jump_targets(&origin, &offsets)
        },
        PieceType::Pawn => {
            let fw: i8 = match owner {
                Color::White => 1,
                Color::Black => -1,
            };
            let offsets: Vec<(i8, i8)> = vec![(0, fw), (-1, fw), (1, fw)];
            assert(offset_views(offsets@) =~= pawn_offsets(owner));
            jump_targets(&origin, &offsets)
        },
        PieceType::Rook => {
            let dirs = vec![Direction::Up, Direction::Down, Direction::Left, Direction::Right];
            assert(dirs@ =~= rook_directions());
            slide_targets(&origin, &dirs)
        },
        PieceType::Bishop => {
            let dirs = vec![Direction::UpRight, Direction::DownRight, Direction::UpLeft, Direction::DownLeft];
            assert(dirs@ =~= bishop_directions());
            slide_targets(&origin, &dirs)
        },
        PieceType::Queen => {
            let dirs = vec![
                Direction::Up,
                Direction::Down,
                Direction::Left,
                Direction::Right,
                Direction::UpRight,
                Direction::DownRight,
                Direction::UpLeft,
                Direction::DownLeft,
            ];
            assert(dirs@ =~= rook_directions() + bishop_directions());
            slide_targets(&origin, &dirs)
        },
    }
}

} // verus!
