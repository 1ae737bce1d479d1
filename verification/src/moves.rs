//! Naive move generation: for an occupied square, the set of destination
//! squares its piece could move to, obeying piece-shape and blocking rules and
//! "cannot land on an own-colour piece", but ignoring check.
//!
//! Move sets are returned as duplicate-free vectors of `(x, y)` pairs; their
//! order carries no meaning.

use vstd::prelude::*;

use crate::field::{Board, Field, Figure, FigureColor, FigureType, in_bounds, square};

verus! {

/// The opposing side.
pub open spec fn opposite(c: FigureColor) -> FigureColor {
    match c {
        FigureColor::White => FigureColor::Black,
        FigureColor::Black => FigureColor::White,
    }
}

/// Square `(x, y)` holds a piece of colour `c`.
pub open spec fn occupied_by(b: Board, x: int, y: int, c: FigureColor) -> bool {
    match square(b, x, y) {
        Some(f) => f.color == c,
        None => false,
    }
}

/// Square `(x, y)` is empty.
pub open spec fn empty_at(b: Board, x: int, y: int) -> bool {
    square(b, x, y) is None
}

/// A mover of colour `c` may land on `(mx, my)`: the square is empty or holds
/// an enemy piece (which would be captured).
pub open spec fn dest_ok(b: Board, c: FigureColor, mx: int, my: int) -> bool {
    !occupied_by(b, mx, my, c)
}

/// The distance between two coordinates.
pub open spec fn dist(a0: int, a1: int) -> int {
    if a0 < a1 {
        a1 - a0
    } else {
        a0 - a1
    }
}

/// Coordinate `a` shifted `k` times by the unit direction component `d`.
pub open spec fn shift(a: int, d: int, k: int) -> int {
    if d == 1 {
        a + k
    } else if d == -1 {
        a - k
    } else {
        a
    }
}

/// `(dx, dy)` is one of the eight unit directions.
pub open spec fn unit_dir(dx: int, dy: int) -> bool {
    -1 <= dx <= 1 && -1 <= dy <= 1 && !(dx == 0 && dy == 0)
}

/// A horizontal or vertical unit direction (rook rays).
pub open spec fn orth_dir(dx: int, dy: int) -> bool {
    unit_dir(dx, dy) && (dx == 0 || dy == 0)
}

/// A diagonal unit direction (bishop rays).
pub open spec fn diag_dir(dx: int, dy: int) -> bool {
    unit_dir(dx, dy) && dx != 0 && dy != 0
}

/// How many steps along direction `(dx, dy)` lead from `(x, y)` to `(mx, my)`,
/// assuming the target lies on that ray.
pub open spec fn ray_steps(x: int, y: int, dx: int, dy: int, mx: int, my: int) -> int {
    if dx != 0 {
        dist(x, mx)
    } else {
        dist(y, my)
    }
}

/// `(mx, my)` lies on the ray leaving `(x, y)` in direction `(dx, dy)`,
/// strictly after the origin.
pub open spec fn on_ray(x: int, y: int, dx: int, dy: int, mx: int, my: int) -> bool {
    let k = ray_steps(x, y, dx, dy, mx, my);
    k >= 1 && mx == shift(x, dx, k) && my == shift(y, dy, k)
}

/// The first `steps - 1` squares of the ray are empty.
pub open spec fn ray_clear(b: Board, x: int, y: int, dx: int, dy: int, steps: int) -> bool {
    forall|k: int| 1 <= k < steps ==> #[trigger] empty_at(b, shift(x, dx, k), shift(y, dy, k))
}

/// A sliding move: `(mx, my)` is on the ray, on the board, every square
/// strictly between origin and destination is empty, and the destination is
/// empty or enemy-held. A ray thus extends up to and including the first
/// occupied square, which is kept only when it can be captured.
pub open spec fn ray_move(
    b: Board,
    x: int,
    y: int,
    dx: int,
    dy: int,
    c: FigureColor,
    mx: int,
    my: int,
) -> bool {
    &&& on_ray(x, y, dx, dy, mx, my)
    &&& in_bounds(mx, my)
    &&& ray_clear(b, x, y, dx, dy, ray_steps(x, y, dx, dy, mx, my))
    &&& dest_ok(b, c, mx, my)
}

/// A rook move: a sliding move along one of the four orthogonal rays.
pub open spec fn rook_move(b: Board, x: int, y: int, c: FigureColor, mx: int, my: int) -> bool {
    exists|dx: int, dy: int| orth_dir(dx, dy) && #[trigger] ray_move(b, x, y, dx, dy, c, mx, my)
}

/// A bishop move: a sliding move along one of the four diagonal rays.
pub open spec fn bishop_move(b: Board, x: int, y: int, c: FigureColor, mx: int, my: int) -> bool {
    exists|dx: int, dy: int| diag_dir(dx, dy) && #[trigger] ray_move(b, x, y, dx, dy, c, mx, my)
}

/// A queen move: a rook move or a bishop move.
pub open spec fn queen_move(b: Board, x: int, y: int, c: FigureColor, mx: int, my: int) -> bool {
    rook_move(b, x, y, c, mx, my) || bishop_move(b, x, y, c, mx, my)
}

/// A knight move: an L-shaped jump to a square that is empty or enemy-held.
pub open spec fn knight_move(b: Board, x: int, y: int, c: FigureColor, mx: int, my: int) -> bool {
    &&& in_bounds(mx, my)
    &&& dest_ok(b, c, mx, my)
    &&& ((dist(x, mx) == 1 && dist(y, my) == 2) || (dist(x, mx) == 2 && dist(y, my) == 1))
}

/// A king move: one step to any adjacent square that is empty or enemy-held.
pub open spec fn king_move(b: Board, x: int, y: int, c: FigureColor, mx: int, my: int) -> bool {
    &&& in_bounds(mx, my)
    &&& dest_ok(b, c, mx, my)
    &&& dist(x, mx) <= 1
    &&& dist(y, my) <= 1
    &&& !(mx == x && my == y)
}

/// A White pawn move: one step toward decreasing `y` onto an empty square, a
/// double step from the start rank `y == 6` when both squares ahead are empty,
/// or a diagonal capture of a Black piece one step forward-left/right.
pub open spec fn white_pawn_move(b: Board, x: int, y: int, mx: int, my: int) -> bool {
    &&& in_bounds(mx, my)
    &&& ((mx == x && my == y - 1 && empty_at(b, x, y - 1)) || (mx == x && my == y - 2 && y == 6
        && empty_at(b, x, y - 1) && empty_at(b, x, y - 2)) || (dist(x, mx) == 1 && my == y - 1
        && occupied_by(b, mx, my, FigureColor::Black)))
}

/// A Black pawn move: the mirror of the White rule, toward increasing `y`,
/// with start rank `y == 1`.
pub open spec fn black_pawn_move(b: Board, x: int, y: int, mx: int, my: int) -> bool {
    &&& in_bounds(mx, my)
    &&& ((mx == x && my == y + 1 && empty_at(b, x, y + 1)) || (mx == x && my == y + 2 && y == 1
        && empty_at(b, x, y + 1) && empty_at(b, x, y + 2)) || (dist(x, mx) == 1 && my == y + 1
        && occupied_by(b, mx, my, FigureColor::White)))
}

/// A pawn move for a pawn of colour `c`.
pub open spec fn pawn_move(b: Board, x: int, y: int, c: FigureColor, mx: int, my: int) -> bool {
    match c {
        FigureColor::White => white_pawn_move(b, x, y, mx, my),
        FigureColor::Black => black_pawn_move(b, x, y, mx, my),
    }
}

/// `(mx, my)` is a naive move for the piece on `(x, y)`: it obeys that
/// piece's shape and blocking rules and does not land on an own-colour piece,
/// but may well leave the mover's own king in check. An empty square has no
/// naive moves.
pub open spec fn naive_move(b: Board, x: int, y: int, mx: int, my: int) -> bool {
    match square(b, x, y) {
        None => false,
        Some(f) => match f.figure_type {
            FigureType::Pawn => pawn_move(b, x, y, f.color, mx, my),
            FigureType::Rook => rook_move(b, x, y, f.color, mx, my),
            FigureType::Knight => knight_move(b, x, y, f.color, mx, my),
            FigureType::Bishop => bishop_move(b, x, y, f.color, mx, my),
            FigureType::Queen => queen_move(b, x, y, f.color, mx, my),
            FigureType::King => king_move(b, x, y, f.color, mx, my),
        },
    }
}

/// A pawn on `(x, y)` does not sit on the rank from which its forward step
/// would leave the board: White pawns need `y >= 1`, Black pawns `y <= 6`.
/// Move generation is undefined for such misplaced pawns, which normal play
/// never produces.
pub open spec fn pawn_rank_ok(f: Figure, y: int) -> bool {
    f.figure_type == FigureType::Pawn ==> (if f.color == FigureColor::White {
        y >= 1
    } else {
        y <= 6
    })
}

/// Whatever piece sits on `(x, y)` (if any) satisfies `pawn_rank_ok`.
pub open spec fn pawn_rank_ok_at(b: Board, x: int, y: int) -> bool {
    match square(b, x, y) {
        Some(f) => pawn_rank_ok(f, y),
        None => true,
    }
}

/// Every piece of colour `c` satisfies `pawn_rank_ok`, so naive moves can be
/// generated for all of `c`'s pieces.
pub open spec fn pawn_moves_safe(b: Board, c: FigureColor) -> bool {
    forall|x: int, y: int|
        in_bounds(x, y) && occupied_by(b, x, y, c) ==> #[trigger] pawn_rank_ok_at(b, x, y)
}

/// The sequence holds no repeated destination.
pub open spec fn no_dups(s: Seq<(u32, u32)>) -> bool {
    forall|i: int, j: int| 0 <= i < j < s.len() ==> s[i] != s[j]
}

/// A naive move never stays on its own square and never lands on a piece of
/// the mover's own colour, and its destination is on the board.
pub proof fn lemma_naive_move_basics(b: Board, x: int, y: int, mx: int, my: int)
    requires
        naive_move(b, x, y, mx, my),
    ensures
        in_bounds(mx, my),
        !(mx == x && my == y),
        square(b, x, y) matches Some(f) ==> !occupied_by(b, mx, my, f.color),
{
    match square(b, x, y) {
        Some(f) => {
            match f.figure_type {
                FigureType::Rook => {
                    let (dx, dy) = choose|dx: int, dy: int|
                        orth_dir(dx, dy) && #[trigger] ray_move(b, x, y, dx, dy, f.color, mx, my);
                    lemma_ray_move_basics(b, x, y, dx, dy, f.color, mx, my);
                },
                FigureType::Bishop => {
                    let (dx, dy) = choose|dx: int, dy: int|
                        diag_dir(dx, dy) && #[trigger] ray_move(b, x, y, dx, dy, f.color, mx, my);
                    lemma_ray_move_basics(b, x, y, dx, dy, f.color, mx, my);
                },
                FigureType::Queen => {
                    if rook_move(b, x, y, f.color, mx, my) {
                        let (dx, dy) = choose|dx: int, dy: int|
                            orth_dir(dx, dy) && #[trigger] ray_move(
                                b,
                                x,
                                y,
                                dx,
                                dy,
                                f.color,
                                mx,
                                my,
                            );
                        lemma_ray_move_basics(b, x, y, dx, dy, f.color, mx, my);
                    } else {
                        let (dx, dy) = choose|dx: int, dy: int|
                            diag_dir(dx, dy) && #[trigger] ray_move(
                                b,
                                x,
                                y,
                                dx,
                                dy,
                                f.color,
                                mx,
                                my,
                            );
                        lemma_ray_move_basics(b, x, y, dx, dy, f.color, mx, my);
                    }
                },
                _ => {},
            }
        },
        None => {},
    }
}

/// A sliding move leaves its origin and lands on an allowed square.
proof fn lemma_ray_move_basics(
    b: Board,
    x: int,
    y: int,
    dx: int,
    dy: int,
    c: FigureColor,
    mx: int,
    my: int,
)
    requires
        unit_dir(dx, dy),
        ray_move(b, x, y, dx, dy, c, mx, my),
    ensures
        in_bounds(mx, my),
        !(mx == x && my == y),
        dest_ok(b, c, mx, my),
{
}

/// Whether `(mx, my)` already occurs in `moves`.
pub(crate) fn contains_move(moves: &Vec<(u32, u32)>, mx: u32, my: u32) -> (r: bool)
    ensures
        r == moves@.contains((mx, my)),
{
    let mut i: usize = 0;
    while i < moves.len()
        invariant
            i <= moves@.len(),
            forall|j: int| 0 <= j < i ==> moves@[j] != (mx, my),
        decreases moves@.len() - i,
    {
        if moves[i].0 == mx && moves[i].1 == my {
            return true;
        }
        i = i + 1;
    }
    false
}

/// Adds `(mx, my)` to `moves` unless it is already there, keeping the vector
/// duplicate-free.
pub(crate) fn insert_move(moves: &mut Vec<(u32, u32)>, mx: u32, my: u32)
    ensures
        forall|m: (u32, u32)|
            #[trigger] final(moves)@.contains(m) <==> (old(moves)@.contains(m) || m == (mx, my)),
        no_dups(old(moves)@) ==> no_dups(final(moves)@),
{
    if !contains_move(moves, mx, my) {
        moves.push((mx, my));
        proof {
            assert forall|m: (u32, u32)| #[trigger]
                moves@.contains(m) <==> (old(moves)@.contains(m) || m == (mx, my)) by {
                if moves@.contains(m) {
                    let i = choose|i: int| 0 <= i < moves@.len() && moves@[i] == m;
                    if i < old(moves)@.len() {
                        assert(old(moves)@[i] == m);
                    }
                }
                if old(moves)@.contains(m) {
                    let i = choose|i: int| 0 <= i < old(moves)@.len() && old(moves)@[i] == m;
                    assert(moves@[i] == m);
                }
                if m == (mx, my) {
                    assert(moves@[old(moves)@.len() as int] == m);
                }
            }
            assert(no_dups(old(moves)@) ==> no_dups(moves@)) by {
                if no_dups(old(moves)@) {
                    assert forall|i: int, j: int| 0 <= i < j < moves@.len() implies moves@[i]
                        != moves@[j] by {
                        if j == old(moves)@.len() {
                            assert(old(moves)@.contains(old(moves)@[i]));
                        }
                    }
                }
            }
        }
    }
}

impl Field {
    /// Walks one ray from `(x, y)`, appending every square reachable by a
    /// sliding piece of colour `color` in direction `(dx, dy)`.
    fn ray_moves(
        &self,
        x: u32,
        y: u32,
        dx: i32,
        dy: i32,
        color: FigureColor,
        moves: &mut Vec<(u32, u32)>,
    )
        requires
            self.wf(),
            x < 8,
            y < 8,
            -1 <= dx <= 1,
            -1 <= dy <= 1,
            !(dx == 0 && dy == 0),
            no_dups(old(moves)@),
        ensures
            no_dups(final(moves)@),
            forall|m: (u32, u32)|
                #[trigger] final(moves)@.contains(m) <==> (old(moves)@.contains(m) || ray_move(
                    self@,
                    x as int,
                    y as int,
                    dx as int,
                    dy as int,
                    color,
                    m.0 as int,
                    m.1 as int,
                )),
    {
        let mut cx: i32 = x as i32 + dx;
        let mut cy: i32 = y as i32 + dy;
        let ghost mut k: int = 1;
        loop
            invariant_except_break
                1 <= k <= 8,
                cx as int == shift(x as int, dx as int, k),
                cy as int == shift(y as int, dy as int, k),
                forall|j: int|
                    1 <= j < k ==> in_bounds(
                        shift(x as int, dx as int, j),
                        shift(y as int, dy as int, j),
                    ),
                forall|j: int|
                    1 <= j < k ==> #[trigger] empty_at(
                        self@,
                        shift(x as int, dx as int, j),
                        shift(y as int, dy as int, j),
                    ),
                forall|m: (u32, u32)|
                    #[trigger] moves@.contains(m) <==> (old(moves)@.contains(m) || (ray_move(
                        self@,
                        x as int,
                        y as int,
                        dx as int,
                        dy as int,
                        color,
                        m.0 as int,
                        m.1 as int,
                    ) && ray_steps(x as int, y as int, dx as int, dy as int, m.0 as int, m.1 as int)
                        < k)),
            invariant
                self.wf(),
                x < 8,
                y < 8,
                -1 <= dx <= 1,
                -1 <= dy <= 1,
                !(dx == 0 && dy == 0),
                no_dups(moves@),
            ensures
                no_dups(moves@),
                forall|m: (u32, u32)|
                    #[trigger] moves@.contains(m) <==> (old(moves)@.contains(m) || ray_move(
                        self@,
                        x as int,
                        y as int,
                        dx as int,
                        dy as int,
                        color,
                        m.0 as int,
                        m.1 as int,
                    )),
            decreases 8 - k,
        {
            if !(0 <= cx && cx < 8 && 0 <= cy && cy < 8) {
                proof {
                    assert forall|m: (u32, u32)| ray_move(
                        self@,
                        x as int,
                        y as int,
                        dx as int,
                        dy as int,
                        color,
                        m.0 as int,
                        m.1 as int,
                    ) implies ray_steps(
                        x as int,
                        y as int,
                        dx as int,
                        dy as int,
                        m.0 as int,
                        m.1 as int,
                    ) < k by {
                        let s = ray_steps(
                            x as int,
                            y as int,
                            dx as int,
                            dy as int,
                            m.0 as int,
                            m.1 as int,
                        );
                        if s >= k {
                            // the ray square at step k lies between the origin and
                            // (m.0, m.1), hence on the board, contradicting the exit test
                            assert(in_bounds(
                                shift(x as int, dx as int, k),
                                shift(y as int, dy as int, k),
                            ));
                        }
                    }
                }
                break;
            }
            let ucx: u32 = cx as u32;
            let ucy: u32 = cy as u32;
            match self.get(ucx, ucy) {
                None => {
                    insert_move(moves, ucx, ucy);
                    cx = cx + dx;
                    cy = cy + dy;
                    proof {
                        assert(ray_move(
                            self@,
                            x as int,
                            y as int,
                            dx as int,
                            dy as int,
                            color,
                            ucx as int,
                            ucy as int,
                        ));
                        assert forall|m: (u32, u32)| ray_move(
                            self@,
                            x as int,
                            y as int,
                            dx as int,
                            dy as int,
                            color,
                            m.0 as int,
                            m.1 as int,
                        ) && ray_steps(
                            x as int,
                            y as int,
                            dx as int,
                            dy as int,
                            m.0 as int,
                            m.1 as int,
                        ) == k implies m == (ucx, ucy) by {}
                        k = k + 1;
                    }
                }
                Some(f) => {
                    if f.color != color {
                        insert_move(moves, ucx, ucy);
                    }
                    proof {
                        assert(!empty_at(
                            self@,
                            shift(x as int, dx as int, k),
                            shift(y as int, dy as int, k),
                        ));
                        assert forall|m: (u32, u32)| ray_move(
                            self@,
                            x as int,
                            y as int,
                            dx as int,
                            dy as int,
                            color,
                            m.0 as int,
                            m.1 as int,
                        ) implies ray_steps(
                            x as int,
                            y as int,
                            dx as int,
                            dy as int,
                            m.0 as int,
                            m.1 as int,
                        ) <= k by {
                            let s = ray_steps(
                                x as int,
                                y as int,
                                dx as int,
                                dy as int,
                                m.0 as int,
                                m.1 as int,
                            );
                            if s > k {
                                assert(empty_at(
                                    self@,
                                    shift(x as int, dx as int, k),
                                    shift(y as int, dy as int, k),
                                ));
                            }
                        }
                    }
                    break;
                }
            }
        }
    }

    /// The naive moves of a rook of colour `color` on `(x, y)`: the four
    /// orthogonal rays.
    fn rook_moves(&self, x: u32, y: u32, color: FigureColor) -> (moves: Vec<(u32, u32)>)
        requires
            self.wf(),
            x < 8,
            y < 8,
        ensures
            no_dups(moves@),
            forall|m: (u32, u32)|
                #[trigger] moves@.contains(m) <==> rook_move(
                    self@,
                    x as int,
                    y as int,
                    color,
                    m.0 as int,
                    m.1 as int,
                ),
    {
        let mut moves: Vec<(u32, u32)> = Vec::new();
        self.ray_moves(x, y, 1, 0, color, &mut moves);
        self.ray_moves(x, y, -1, 0, color, &mut moves);
        self.ray_moves(x, y, 0, 1, color, &mut moves);
        self.ray_moves(x, y, 0, -1, color, &mut moves);
        proof {
            assert forall|m: (u32, u32)|
                #[trigger] moves@.contains(m) <==> rook_move(
                    self@,
                    x as int,
                    y as int,
                    color,
                    m.0 as int,
                    m.1 as int,
                ) by {
                lemma_orth_rays(self@, x as int, y as int, color, m.0 as int, m.1 as int);
            }
        }
        moves
    }

    /// The naive moves of a bishop of colour `color` on `(x, y)`: the four
    /// diagonal rays.
    fn bishop_moves(&self, x: u32, y: u32, color: FigureColor) -> (moves: Vec<(u32, u32)>)
        requires
            self.wf(),
            x < 8,
            y < 8,
        ensures
            no_dups(moves@),
            forall|m: (u32, u32)|
                #[trigger] moves@.contains(m) <==> bishop_move(
                    self@,
                    x as int,
                    y as int,
                    color,
                    m.0 as int,
                    m.1 as int,
                ),
    {
        let mut moves: Vec<(u32, u32)> = Vec::new();
        self.ray_moves(x, y, 1, 1, color, &mut moves);
        self.ray_moves(x, y, 1, -1, color, &mut moves);
        self.ray_moves(x, y, -1, 1, color, &mut moves);
        self.ray_moves(x, y, -1, -1, color, &mut moves);
        proof {
            assert forall|m: (u32, u32)|
                #[trigger] moves@.contains(m) <==> bishop_move(
                    self@,
                    x as int,
                    y as int,
                    color,
                    m.0 as int,
                    m.1 as int,
                ) by {
                lemma_diag_rays(self@, x as int, y as int, color, m.0 as int, m.1 as int);
            }
        }
        moves
    }

    /// The naive moves of a queen of colour `color` on `(x, y)`: all eight
    /// rays, the union of the rook and bishop rules.
    fn queen_moves(&self, x: u32, y: u32, color: FigureColor) -> (moves: Vec<(u32, u32)>)
        requires
            self.wf(),
            x < 8,
            y < 8,
        ensures
            no_dups(moves@),
            forall|m: (u32, u32)|
                #[trigger] moves@.contains(m) <==> queen_move(
                    self@,
                    x as int,
                    y as int,
                    color,
                    m.0 as int,
                    m.1 as int,
                ),
    {
        let mut moves: Vec<(u32, u32)> = Vec::new();
        self.ray_moves(x, y, 1, 0, color, &mut moves);
        self.ray_moves(x, y, -1, 0, color, &mut moves);
        self.ray_moves(x, y, 0, 1, color, &mut moves);
        self.ray_moves(x, y, 0, -1, color, &mut moves);
        self.ray_moves(x, y, 1, 1, color, &mut moves);
        self.ray_moves(x, y, 1, -1, color, &mut moves);
        self.ray_moves(x, y, -1, 1, color, &mut moves);
        self.ray_moves(x, y, -1, -1, color, &mut moves);
        proof {
            assert forall|m: (u32, u32)|
                #[trigger] moves@.contains(m) <==> queen_move(
                    self@,
                    x as int,
                    y as int,
                    color,
                    m.0 as int,
                    m.1 as int,
                ) by {
                lemma_orth_rays(self@, x as int, y as int, color, m.0 as int, m.1 as int);
                lemma_diag_rays(self@, x as int, y as int, color, m.0 as int, m.1 as int);
            }
        }
        moves
    }

    /// Adds `(mx, my)` to `moves` when a piece of colour `color` may land
    /// there: the square is empty or holds an enemy piece.
    fn insert_if_landable(&self, moves: &mut Vec<(u32, u32)>, color: FigureColor, mx: u32, my: u32)
        requires
            self.wf(),
            mx < 8,
            my < 8,
        ensures
            no_dups(old(moves)@) ==> no_dups(final(moves)@),
            forall|m: (u32, u32)|
                #[trigger] final(moves)@.contains(m) <==> (old(moves)@.contains(m) || (m == (
                mx,
                my,
            ) && dest_ok(self@, color, mx as int, my as int))),
    {
        let landable = match self.get(mx, my) {
            None => true,
            Some(f) => f.color != color,
        };
        if landable {
            insert_move(moves, mx, my);
        }
    }

    /// The naive moves of a knight of colour `color` on `(x, y)`: up to eight
    /// L-shaped jumps, each independently bounds-checked.
    fn knight_moves(&self, x: u32, y: u32, color: FigureColor) -> (moves: Vec<(u32, u32)>)
        requires
            self.wf(),
            x < 8,
            y < 8,
        ensures
            no_dups(moves@),
            forall|m: (u32, u32)|
                #[trigger] moves@.contains(m) <==> knight_move(
                    self@,
                    x as int,
                    y as int,
                    color,
                    m.0 as int,
                    m.1 as int,
                ),
    {
        let mut moves: Vec<(u32, u32)> = Vec::new();
        if x > 0 && y > 1 {
            self.insert_if_landable(&mut moves, color, x - 1, y - 2);
        }
        if x > 1 && y > 0 {
            self.insert_if_landable(&mut moves, color, x - 2, y - 1);
        }
        if x > 1 && y < 7 {
            self.insert_if_landable(&mut moves, color, x - 2, y + 1);
        }
        if x > 0 && y < 6 {
            self.insert_if_landable(&mut moves, color, x - 1, y + 2);
        }
        if x < 7 && y < 6 {
            self.insert_if_landable(&mut moves, color, x + 1, y + 2);
        }
        if x < 6 && y < 7 {
            self.insert_if_landable(&mut moves, color, x + 2, y + 1);
        }
        if x < 6 && y > 0 {
            self.insert_if_landable(&mut moves, color, x + 2, y - 1);
        }
        if x < 7 && y > 1 {
            self.insert_if_landable(&mut moves, color, x + 1, y - 2);
        }
        moves
    }

    /// The naive moves of a king of colour `color` on `(x, y)`: the up to
    /// eight adjacent squares.
    fn king_moves(&self, x: u32, y: u32, color: FigureColor) -> (moves: Vec<(u32, u32)>)
        requires
            self.wf(),
            x < 8,
            y < 8,
        ensures
            no_dups(moves@),
            forall|m: (u32, u32)|
                #[trigger] moves@.contains(m) <==> king_move(
                    self@,
                    x as int,
                    y as int,
                    color,
                    m.0 as int,
                    m.1 as int,
                ),
    {
        let mut moves: Vec<(u32, u32)> = Vec::new();
        if x > 0 && y > 0 {
            self.insert_if_landable(&mut moves, color, x - 1, y - 1);
        }
        if x > 0 {
            self.insert_if_landable(&mut moves, color, x - 1, y);
        }
        if x > 0 && y < 7 {
            self.insert_if_landable(&mut moves, color, x - 1, y + 1);
        }
        if y > 0 {
            self.insert_if_landable(&mut moves, color, x, y - 1);
        }
        if y < 7 {
            self.insert_if_landable(&mut moves, color, x, y + 1);
        }
        if x < 7 && y > 0 {
            self.insert_if_landable(&mut moves, color, x + 1, y - 1);
        }
        if x < 7 {
            self.insert_if_landable(&mut moves, color, x + 1, y);
        }
        if x < 7 && y < 7 {
            self.insert_if_landable(&mut moves, color, x + 1, y + 1);
        }
        moves
    }

    /// The naive moves of a pawn of colour `color` on `(x, y)`: forward steps
    /// onto empty squares and diagonal captures of enemy pieces.
    fn pawn_moves(&self, x: u32, y: u32, color: FigureColor) -> (moves: Vec<(u32, u32)>)
        requires
            self.wf(),
            x < 8,
            y < 8,
            color == FigureColor::White ==> y >= 1,
            color == FigureColor::Black ==> y <= 6,
        ensures
            no_dups(moves@),
            forall|m: (u32, u32)|
                #[trigger] moves@.contains(m) <==> pawn_move(
                    self@,
                    x as int,
                    y as int,
                    color,
                    m.0 as int,
                    m.1 as int,
                ),
    {
        let mut moves: Vec<(u32, u32)> = Vec::new();
        match color {
            FigureColor::White => {
                if self.get(x, y - 1).is_none() {
                    insert_move(&mut moves, x, y - 1);
                    if y == 6 && self.get(x, y - 2).is_none() {
                        insert_move(&mut moves, x, y - 2);
                    }
                }
                if x > 0 {
                    match self.get(x - 1, y - 1) {
                        Some(f) if f.color == FigureColor::Black => {
                            insert_move(&mut moves, x - 1, y - 1);
                        },
                        _ => {},
                    }
                }
                if x < 7 {
                    match self.get(x + 1, y - 1) {
                        Some(f) if f.color == FigureColor::Black => {
                            insert_move(&mut moves, x + 1, y - 1);
                        },
                        _ => {},
                    }
                }
            },
            FigureColor::Black => {
                if self.get(x, y + 1).is_none() {
                    insert_move(&mut moves, x, y + 1);
                    if y == 1 && self.get(x, y + 2).is_none() {
                        insert_move(&mut moves, x, y + 2);
                    }
                }
                if x > 0 {
                    match self.get(x - 1, y + 1) {
                        Some(f) if f.color == FigureColor::White => {
                            insert_move(&mut moves, x - 1, y + 1);
                        },
                        _ => {},
                    }
                }
                if x < 7 {
                    match self.get(x + 1, y + 1) {
                        Some(f) if f.color == FigureColor::White => {
                            insert_move(&mut moves, x + 1, y + 1);
                        },
                        _ => {},
                    }
                }
            },
        }
        moves
    }

    /// The naive moves of whatever piece occupies `(x, y)`, empty for an
    /// empty square: piece-shape and blocking rules plus the own-colour
    /// filter, with no attention to check.
    pub fn get_naive_moves(&self, x: u32, y: u32) -> (moves: Vec<(u32, u32)>)
        requires
            self.wf(),
            x < 8,
            y < 8,
            pawn_rank_ok_at(self@, x as int, y as int),
        ensures
            no_dups(moves@),
            forall|m: (u32, u32)|
                #[trigger] moves@.contains(m) <==> naive_move(
                    self@,
                    x as int,
                    y as int,
                    m.0 as int,
                    m.1 as int,
                ),
    {
        match self.get(x, y) {
            None => Vec::new(),
            Some(figure) => match figure.figure_type {
                FigureType::Pawn => self.pawn_moves(x, y, figure.color),
                FigureType::Rook => self.rook_moves(x, y, figure.color),
                FigureType::Knight => self.knight_moves(x, y, figure.color),
                FigureType::Bishop => self.bishop_moves(x, y, figure.color),
                FigureType::Queen => self.queen_moves(x, y, figure.color),
                FigureType::King => self.king_moves(x, y, figure.color),
            },
        }
    }
}

/// A bishop move is exactly a sliding move along one of the four diagonal
/// directions, spelled out.
proof fn lemma_diag_rays(b: Board, x: int, y: int, c: FigureColor, mx: int, my: int)
    ensures
        bishop_move(b, x, y, c, mx, my) <==> (ray_move(b, x, y, 1, 1, c, mx, my) || ray_move(
            b,
            x,
            y,
            1,
            -1,
            c,
            mx,
            my,
        ) || ray_move(b, x, y, -1, 1, c, mx, my) || ray_move(b, x, y, -1, -1, c, mx, my)),
{
    if bishop_move(b, x, y, c, mx, my) {
        let (dx, dy) = choose|dx: int, dy: int|
            diag_dir(dx, dy) && #[trigger] ray_move(b, x, y, dx, dy, c, mx, my);
        assert((dx == 1 && dy == 1) || (dx == 1 && dy == -1) || (dx == -1 && dy == 1) || (dx == -1
            && dy == -1));
    }
    if ray_move(b, x, y, 1, 1, c, mx, my) {
        assert(diag_dir(1, 1) && ray_move(b, x, y, 1, 1, c, mx, my));
    }
    if ray_move(b, x, y, 1, -1, c, mx, my) {
        assert(diag_dir(1, -1) && ray_move(b, x, y, 1, -1, c, mx, my));
    }
    if ray_move(b, x, y, -1, 1, c, mx, my) {
        assert(diag_dir(-1, 1) && ray_move(b, x, y, -1, 1, c, mx, my));
    }
    if ray_move(b, x, y, -1, -1, c, mx, my) {
        assert(diag_dir(-1, -1) && ray_move(b, x, y, -1, -1, c, mx, my));
    }
}

/// A rook move is exactly a sliding move along one of the four orthogonal
/// directions, spelled out.
proof fn lemma_orth_rays(b: Board, x: int, y: int, c: FigureColor, mx: int, my: int)
    ensures
        rook_move(b, x, y, c, mx, my) <==> (ray_move(b, x, y, 1, 0, c, mx, my) || ray_move(
            b,
            x,
            y,
            -1,
            0,
            c,
            mx,
            my,
        ) || ray_move(b, x, y, 0, 1, c, mx, my) || ray_move(b, x, y, 0, -1, c, mx, my)),
{
    if rook_move(b, x, y, c, mx, my) {
        let (dx, dy) = choose|dx: int, dy: int|
            orth_dir(dx, dy) && #[trigger] ray_move(b, x, y, dx, dy, c, mx, my);
        assert((dx == 1 && dy == 0) || (dx == -1 && dy == 0) || (dx == 0 && dy == 1) || (dx == 0
            && dy == -1));
    }
    if ray_move(b, x, y, 1, 0, c, mx, my) {
        assert(orth_dir(1, 0) && ray_move(b, x, y, 1, 0, c, mx, my));
    }
    if ray_move(b, x, y, -1, 0, c, mx, my) {
        assert(orth_dir(-1, 0) && ray_move(b, x, y, -1, 0, c, mx, my));
    }
    if ray_move(b, x, y, 0, 1, c, mx, my) {
        assert(orth_dir(0, 1) && ray_move(b, x, y, 0, 1, c, mx, my));
    }
    if ray_move(b, x, y, 0, -1, c, mx, my) {
        assert(orth_dir(0, -1) && ray_move(b, x, y, 0, -1, c, mx, my));
    }
}

} // verus!
