//! The board: an 8×8 grid of optional pieces with value semantics.
//!
//! A square is addressed by a file `x` and a rank index `y`, both in `[0, 7]`.
//! `y = 0` is Black's back rank and `y = 7` is White's back rank, so White
//! pawns move toward decreasing `y` and Black pawns toward increasing `y`.
//! Squares are stored in a single vector at index `x + y * 8`.

use vstd::prelude::*;

verus! {

/// The six kinds of chess piece. Pieces never change kind (no promotion).
#[allow(dead_code)]
#[derive(Debug, PartialEq, Eq, Hash, Clone, Copy, Structural)]
pub enum FigureType {
    Pawn,
    Rook,
    Knight,
    Bishop,
    Queen,
    King,
}

/// The two sides. There is no ordering between them, only equality.
#[derive(Debug, PartialEq, Eq, Hash, Clone, Copy, Structural)]
pub enum FigureColor {
    White,
    Black,
}

/// A piece: a colour and a kind. Equality is structural; pieces are not
/// individuated beyond that.
#[derive(Debug, PartialEq, Eq, Hash, Clone, Copy, Structural)]
pub struct Figure {
    pub color: FigureColor,
    pub figure_type: FigureType,
}

/// The mathematical model of a board: 64 optional pieces in row-major order.
pub type Board = Seq<Option<Figure>>;

/// The storage index of square `(x, y)`.
pub open spec fn sq_idx(x: int, y: int) -> int {
    x + y * 8
}

/// Both coordinates lie on the board.
pub open spec fn in_bounds(x: int, y: int) -> bool {
    0 <= x < 8 && 0 <= y < 8
}

/// The occupant of square `(x, y)`.
pub open spec fn square(b: Board, x: int, y: int) -> Option<Figure> {
    b[sq_idx(x, y)]
}

/// A board value holds exactly 64 squares.
pub open spec fn board_wf(b: Board) -> bool {
    b.len() == 64
}

/// The piece `(c, k)`, as a spec value.
pub open spec fn fig(c: FigureColor, k: FigureType) -> Figure {
    Figure { color: c, figure_type: k }
}

/// The board after moving the occupant of `(fx, fy)` to `(tx, ty)`:
/// the destination is overwritten (an implicit capture), then the source is
/// cleared. Clearing comes second, so moving a square onto itself empties it.
pub open spec fn board_after_move(b: Board, fx: int, fy: int, tx: int, ty: int) -> Board {
    b.update(sq_idx(tx, ty), b[sq_idx(fx, fy)]).update(sq_idx(fx, fy), None)
}

/// How a single move changes each square: the source empties, the
/// destination receives the moved piece, and every other square is untouched.
/// When source and destination coincide the square ends empty, because the
/// source is cleared last.
pub proof fn lemma_square_after_move(b: Board, x: int, y: int, mx: int, my: int, qx: int, qy: int)
    requires
        board_wf(b),
        in_bounds(x, y),
        in_bounds(mx, my),
        in_bounds(qx, qy),
    ensures
        square(board_after_move(b, x, y, mx, my), qx, qy) == (if qx == x && qy == y {
            None
        } else if qx == mx && qy == my {
            square(b, x, y)
        } else {
            square(b, qx, qy)
        }),
{
}

/// The back-rank piece kind on file `x`: Rook, Knight, Bishop, Queen (file 3),
/// King (file 4), Bishop, Knight, Rook.
pub open spec fn back_rank_kind(x: int) -> FigureType {
    if x == 0 || x == 7 {
        FigureType::Rook
    } else if x == 1 || x == 6 {
        FigureType::Knight
    } else if x == 2 || x == 5 {
        FigureType::Bishop
    } else if x == 3 {
        FigureType::Queen
    } else {
        FigureType::King
    }
}

/// The occupant of `(x, y)` in the canonical starting position.
pub open spec fn start_square(x: int, y: int) -> Option<Figure> {
    if y == 0 {
        Some(fig(FigureColor::Black, back_rank_kind(x)))
    } else if y == 1 {
        Some(fig(FigureColor::Black, FigureType::Pawn))
    } else if y == 6 {
        Some(fig(FigureColor::White, FigureType::Pawn))
    } else if y == 7 {
        Some(fig(FigureColor::White, back_rank_kind(x)))
    } else {
        None
    }
}

impl Figure {
    /// Builds the piece `(color, figure_type)`.
    pub fn new(color: FigureColor, figure_type: FigureType) -> (r: Self)
        ensures
            r == fig(color, figure_type),
    {
        Self { color, figure_type }
    }
}

/// The board. It has value semantics: `clone` yields an independent board
/// whose squares read the same, which makes speculative move simulation safe.
#[derive(Debug, PartialEq, Eq, Hash)]
pub struct Field {
    pub figures: Vec<Option<Figure>>,
}

impl View for Field {
    type V = Board;

    open spec fn view(&self) -> Board {
        self.figures@
    }
}

impl Clone for Field {
    fn clone(&self) -> (r: Self)
        ensures
            r@ == self@,
    {
        let mut figures: Vec<Option<Figure>> = Vec::new();
        let mut i: usize = 0;
        while i < self.figures.len()
            invariant
                i <= self.figures.len(),
                figures@ =~= self.figures@.subrange(0, i as int),
            decreases self.figures.len() - i,
        {
            figures.push(self.figures[i]);
            i = i + 1;
        }
        proof {
            assert(figures@ =~= self.figures@);
        }
        Field { figures }
    }
}

impl Field {
    /// The board is well formed: it holds exactly 64 squares.
    pub open spec fn wf(self) -> bool {
        board_wf(self@)
    }

    /// Builds an empty board.
    pub fn new() -> (r: Self)
        ensures
            r.wf(),
            forall|x: int, y: int| in_bounds(x, y) ==> #[trigger] square(r@, x, y) is None,
    {
        let mut figures: Vec<Option<Figure>> = Vec::new();
        let mut i: usize = 0;
        while i < 64
            invariant
                i <= 64,
                figures@.len() == i,
                forall|j: int| 0 <= j < i ==> figures@[j] is None,
            decreases 64 - i,
        {
            figures.push(None);
            i = i + 1;
        }
        Self { figures }
    }

    /// Reads the occupant of `(x, y)` without side effects.
    pub fn get(&self, x: u32, y: u32) -> (r: Option<Figure>)
        requires
            self.wf(),
            x < 8,
            y < 8,
        ensures
            r == square(self@, x as int, y as int),
    {
        self.figures[(x + y * 8) as usize]
    }

    /// Places `figure` on `(x, y)`, overwriting any occupant.
    pub fn set(&mut self, x: u32, y: u32, figure: Figure)
        requires
            old(self).wf(),
            x < 8,
            y < 8,
        ensures
            final(self).wf(),
            final(self)@ == old(self)@.update(sq_idx(x as int, y as int), Some(figure)),
    {
        self.figures[(x + y * 8) as usize] = Some(figure);
    }

    /// Moves the occupant of `(from_x, from_y)` to `(to_x, to_y)`. Any piece
    /// on the destination is overwritten: captures happen by overwrite, and
    /// recording the captured piece is the caller's business, done by reading
    /// the destination square before the call. The source must be occupied.
    pub fn move_figure(&mut self, from_x: u32, from_y: u32, to_x: u32, to_y: u32)
        requires
            old(self).wf(),
            from_x < 8,
            from_y < 8,
            to_x < 8,
            to_y < 8,
            square(old(self)@, from_x as int, from_y as int) is Some,
        ensures
            final(self).wf(),
            final(self)@ == board_after_move(
                old(self)@,
                from_x as int,
                from_y as int,
                to_x as int,
                to_y as int,
            ),
    {
        let figure = self.get(from_x, from_y).unwrap();
        self.set(to_x, to_y, figure);
        self.figures[(from_x + from_y * 8) as usize] = None;
    }

    /// Builds the canonical starting position: pawns on ranks 1 and 6, the
    /// mirrored back ranks on 0 and 7.
    pub fn get_start_position() -> (r: Self)
        ensures
            r.wf(),
            forall|x: int, y: int| in_bounds(x, y) ==> #[trigger] square(r@, x, y) == start_square(x, y),
    {
        let mut field = Self::new();
        let mut i: u32 = 0;
        while i < 8
            invariant
                i <= 8,
                field.wf(),
                forall|x: int, y: int|
                    in_bounds(x, y) ==> square(field@, x, y) == (if y == 6 && x < i {
                        Some(fig(FigureColor::White, FigureType::Pawn))
                    } else if y == 1 && x < i {
                        Some(fig(FigureColor::Black, FigureType::Pawn))
                    } else {
                        None
                    }),
            decreases 8 - i,
        {
            field.set(i, 6, Figure::new(FigureColor::White, FigureType::Pawn));
            field.set(i, 1, Figure::new(FigureColor::Black, FigureType::Pawn));
            i = i + 1;
        }
        field.set(0, 7, Figure::new(FigureColor::White, FigureType::Rook));
        field.set(7, 7, Figure::new(FigureColor::White, FigureType::Rook));
        field.set(0, 0, Figure::new(FigureColor::Black, FigureType::Rook));
        field.set(7, 0, Figure::new(FigureColor::Black, FigureType::Rook));
        field.set(1, 7, Figure::new(FigureColor::White, FigureType::Knight));
        field.set(6, 7, Figure::new(FigureColor::White, FigureType::Knight));
        field.set(1, 0, Figure::new(FigureColor::Black, FigureType::Knight));
        field.set(6, 0, Figure::new(FigureColor::Black, FigureType::Knight));
        field.set(2, 7, Figure::new(FigureColor::White, FigureType::Bishop));
        field.set(5, 7, Figure::new(FigureColor::White, FigureType::Bishop));
        field.set(2, 0, Figure::new(FigureColor::Black, FigureType::Bishop));
        field.set(5, 0, Figure::new(FigureColor::Black, FigureType::Bishop));
        field.set(3, 7, Figure::new(FigureColor::White, FigureType::Queen));
        field.set(3, 0, Figure::new(FigureColor::Black, FigureType::Queen));
        field.set(4, 7, Figure::new(FigureColor::White, FigureType::King));
        field.set(4, 0, Figure::new(FigureColor::Black, FigureType::King));
        field
    }
}

} // verus!
