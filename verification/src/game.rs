//! Check detection, legal-move filtering and terminal-state evaluation.
//!
//! A legal move is a naive move that, once applied, does not leave the
//! mover's own king in check. Legality is decided by speculation: the board
//! is cloned, the candidate move applied to the clone, and the clone tested
//! for check. Checkmate and draw exhaust this computation over the scanned
//! part of the board.

use vstd::prelude::*;

use crate::field::{
    Board, Field, FigureColor, FigureType, board_after_move, board_wf, fig, in_bounds,
    lemma_square_after_move, square,
};
use crate::moves::{
    contains_move, insert_move, lemma_naive_move_basics, naive_move, no_dups, occupied_by,
    opposite, pawn_moves_safe, pawn_rank_ok, pawn_rank_ok_at,
};

verus! {

/// How many ranks the checkmate and draw scans visit. The scans iterate `y`
/// over `[0, SCAN_RANKS)`, that is over seven of the eight ranks: pieces on
/// rank 7 are invisible to them. The constant pins this quirk.
pub const SCAN_RANKS: u32 = 7;

/// The king of colour `c` stands on `(x, y)`.
pub open spec fn is_king_of(b: Board, c: FigureColor, x: int, y: int) -> bool {
    in_bounds(x, y) && square(b, x, y) == Some(fig(c, FigureType::King))
}

/// Some square holds the king of colour `c`.
pub open spec fn has_king(b: Board, c: FigureColor) -> bool {
    exists|x: int, y: int| is_king_of(b, c, x, y)
}

/// At most one square holds a king of colour `c`.
pub open spec fn king_unique(b: Board, c: FigureColor) -> bool {
    forall|x1: int, y1: int, x2: int, y2: int|
        is_king_of(b, c, x1, y1) && is_king_of(b, c, x2, y2) ==> x1 == x2 && y1 == y2
}

/// Colour `c` is in check: some enemy piece has a naive move onto the square
/// of `c`'s king.
pub open spec fn in_check(b: Board, c: FigureColor) -> bool {
    exists|kx: int, ky: int, ex: int, ey: int|
        is_king_of(b, c, kx, ky) && in_bounds(ex, ey) && occupied_by(b, ex, ey, opposite(c))
            && #[trigger] naive_move(b, ex, ey, kx, ky)
}

/// `(mx, my)` is a legal move for the piece on `(x, y)` playing for colour
/// `c`: a naive move whose application does not leave `c`'s king in check.
pub open spec fn legal_move(b: Board, x: int, y: int, c: FigureColor, mx: int, my: int) -> bool {
    naive_move(b, x, y, mx, my) && !in_check(board_after_move(b, x, y, mx, my), c)
}

/// The piece on `(x, y)` has at least one legal move for colour `c`.
pub open spec fn has_legal_move(b: Board, x: int, y: int, c: FigureColor) -> bool {
    exists|mx: int, my: int| #[trigger] legal_move(b, x, y, c, mx, my)
}

/// No piece of colour `c` on a scanned rank has a legal move.
pub open spec fn color_stuck_in_scan(b: Board, c: FigureColor) -> bool {
    forall|x: int, y: int|
        0 <= x < 8 && 0 <= y < SCAN_RANKS as int && occupied_by(b, x, y, c)
            ==> !#[trigger] has_legal_move(b, x, y, c)
}

/// The draw this engine recognises: no piece of either colour on a scanned
/// rank has a legal move. This conflates stalemate for the side to move with
/// a simultaneous no-moves state for both sides, and ignores rank 7; both
/// quirks are part of the engine's contract.
pub open spec fn draw_position(b: Board) -> bool {
    color_stuck_in_scan(b, FigureColor::White) && color_stuck_in_scan(b, FigureColor::Black)
}

/// The checkmate this engine recognises: colour `c` has no legal move on any
/// scanned rank, and the position is not also classified as a draw.
pub open spec fn checkmate_position(b: Board, c: FigureColor) -> bool {
    color_stuck_in_scan(b, c) && !draw_position(b)
}

/// Both kings are present and unique.
pub open spec fn kings_ok(b: Board) -> bool {
    &&& has_king(b, FigureColor::White)
    &&& king_unique(b, FigureColor::White)
    &&& has_king(b, FigureColor::Black)
    &&& king_unique(b, FigureColor::Black)
}

/// Every pawn of either colour sits on a rank from which its moves can be
/// generated.
pub open spec fn pawns_ok(b: Board) -> bool {
    pawn_moves_safe(b, FigureColor::White) && pawn_moves_safe(b, FigureColor::Black)
}

/// Moving a piece of colour `c` along one of its naive moves keeps the facts
/// the check detector needs about colour `c`: its king still stands on
/// exactly one square, and the enemy pawns still sit on generatable ranks.
proof fn lemma_move_keeps_side(b: Board, x: int, y: int, c: FigureColor, mx: int, my: int)
    requires
        board_wf(b),
        in_bounds(x, y),
        occupied_by(b, x, y, c),
        naive_move(b, x, y, mx, my),
        has_king(b, c),
        king_unique(b, c),
        pawn_moves_safe(b, opposite(c)),
    ensures
        board_wf(board_after_move(b, x, y, mx, my)),
        has_king(board_after_move(b, x, y, mx, my), c),
        king_unique(board_after_move(b, x, y, mx, my), c),
        pawn_moves_safe(board_after_move(b, x, y, mx, my), opposite(c)),
{
    lemma_naive_move_basics(b, x, y, mx, my);
    let nb = board_after_move(b, x, y, mx, my);
    assert forall|qx: int, qy: int| in_bounds(qx, qy) implies square(nb, qx, qy) == (if qx == x
        && qy == y {
        None
    } else if qx == mx && qy == my {
        square(b, x, y)
    } else {
        square(b, qx, qy)
    }) by {
        lemma_square_after_move(b, x, y, mx, my, qx, qy);
    }
    match square(b, x, y) {
        Some(f) => {
            let (kx, ky) = choose|kx: int, ky: int| is_king_of(b, c, kx, ky);
            if f.figure_type == FigureType::King {
                assert(is_king_of(b, c, x, y));
                assert(is_king_of(nb, c, mx, my));
                assert forall|x1: int, y1: int, x2: int, y2: int|
                    is_king_of(nb, c, x1, y1) && is_king_of(nb, c, x2, y2) implies x1 == x2 && y1
                    == y2 by {
                    assert(!is_king_of(nb, c, x, y) || (x == mx && y == my));
                    if !(x1 == mx && y1 == my) {
                        assert(is_king_of(b, c, x1, y1));
                    }
                    if !(x2 == mx && y2 == my) {
                        assert(is_king_of(b, c, x2, y2));
                    }
                }
            } else {
                assert(!is_king_of(b, c, x, y));
                assert(!(kx == x && ky == y));
                assert(occupied_by(b, kx, ky, c));
                assert(!(kx == mx && ky == my));
                assert(is_king_of(nb, c, kx, ky));
                assert forall|x1: int, y1: int, x2: int, y2: int|
                    is_king_of(nb, c, x1, y1) && is_king_of(nb, c, x2, y2) implies x1 == x2 && y1
                    == y2 by {
                    if !(x1 == mx && y1 == my) && !(x1 == x && y1 == y) {
                        assert(is_king_of(b, c, x1, y1));
                    }
                    if !(x2 == mx && y2 == my) && !(x2 == x && y2 == y) {
                        assert(is_king_of(b, c, x2, y2));
                    }
                }
            }
            assert forall|qx: int, qy: int|
                in_bounds(qx, qy) && occupied_by(nb, qx, qy, opposite(c)) implies #[trigger]
            pawn_rank_ok_at(nb, qx, qy) by {
                if !(qx == x && qy == y) && !(qx == mx && qy == my) {
                    assert(occupied_by(b, qx, qy, opposite(c)));
                    assert(pawn_rank_ok_at(b, qx, qy));
                }
            }
        },
        None => {
            assert(false);
        },
    }
}

impl Field {
    /// The square of the king of colour `color`; some such king must exist.
    #[verifier::loop_isolation(false)]
    fn find_king(&self, color: FigureColor) -> (r: (u32, u32))
        requires
            self.wf(),
            has_king(self@, color),
        ensures
            is_king_of(self@, color, r.0 as int, r.1 as int),
    {
        let mut kx: u32 = 0;
        let mut ky: u32 = 0;
        let mut found: bool = false;
        let mut y: u32 = 0;
        while y < 8
            invariant
                y <= 8,
                found ==> is_king_of(self@, color, kx as int, ky as int),
                !found ==> forall|qx: int, qy: int|
                    0 <= qx < 8 && 0 <= qy < y ==> !is_king_of(self@, color, qx, qy),
            decreases 8 - y,
        {
            let mut x: u32 = 0;
            while x < 8
                invariant
                    x <= 8,
                    y < 8,
                    found ==> is_king_of(self@, color, kx as int, ky as int),
                    !found ==> forall|qx: int, qy: int|
                        0 <= qx < 8 && 0 <= qy < y ==> !is_king_of(self@, color, qx, qy),
                    !found ==> forall|qx: int|
                        0 <= qx < x ==> !is_king_of(self@, color, qx, y as int),
                decreases 8 - x,
            {
                if !found {
                    match self.get(x, y) {
                        Some(f) => {
                            if f.color == color && f.figure_type == FigureType::King {
                                kx = x;
                                ky = y;
                                found = true;
                            }
                        },
                        None => {},
                    }
                }
                x = x + 1;
            }
            y = y + 1;
        }
        proof {
            if !found {
                let (wx, wy) = choose|wx: int, wy: int| is_king_of(self@, color, wx, wy);
                assert(!is_king_of(self@, color, wx, wy));
            }
        }
        (kx, ky)
    }

    /// Whether colour `color` is in check: the king of `color` is located,
    /// and every enemy piece's naive moves are searched for its square.
    /// The board must hold exactly one king of `color`, and the enemy pawns
    /// must sit on ranks their move generation accepts.
    #[verifier::loop_isolation(false)]
    pub fn is_check(&self, color: FigureColor) -> (r: bool)
        requires
            self.wf(),
            has_king(self@, color),
            king_unique(self@, color),
            pawn_moves_safe(self@, opposite(color)),
        ensures
            r == in_check(self@, color),
    {
        let king = self.find_king(color);
        let kx = king.0;
        let ky = king.1;
        let enemy_color = match color {
            FigureColor::White => FigureColor::Black,
            FigureColor::Black => FigureColor::White,
        };
        let mut x: u32 = 0;
        while x < 8
            invariant
                x <= 8,
                forall|ex: int, ey: int|
                    0 <= ex < x && 0 <= ey < 8 && occupied_by(self@, ex, ey, opposite(color))
                        ==> !#[trigger] naive_move(self@, ex, ey, kx as int, ky as int),
            decreases 8 - x,
        {
            let mut y: u32 = 0;
            while y < 8
                invariant
                    x < 8,
                    y <= 8,
                    forall|ex: int, ey: int|
                        0 <= ex < x && 0 <= ey < 8 && occupied_by(self@, ex, ey, opposite(color))
                            ==> !#[trigger] naive_move(self@, ex, ey, kx as int, ky as int),
                    forall|ey: int|
                        0 <= ey < y && occupied_by(self@, x as int, ey, opposite(color))
                            ==> !#[trigger] naive_move(self@, x as int, ey, kx as int, ky as int),
                decreases 8 - y,
            {
                match self.get(x, y) {
                    Some(figure) => {
                        if figure.color == enemy_color {
                            let naive = self.get_naive_moves(x, y);
                            if contains_move(&naive, kx, ky) {
                                return true;
                            }
                        }
                    },
                    None => {},
                }
                y = y + 1;
            }
            x = x + 1;
        }
        proof {
            if in_check(self@, color) {
                let (qkx, qky, ex, ey) = choose|qkx: int, qky: int, ex: int, ey: int|
                    is_king_of(self@, color, qkx, qky) && in_bounds(ex, ey) && occupied_by(
                        self@,
                        ex,
                        ey,
                        opposite(color),
                    ) && #[trigger] naive_move(self@, ex, ey, qkx, qky);
                assert(qkx == kx as int && qky == ky as int);
                assert(!naive_move(self@, ex, ey, kx as int, ky as int));
            }
        }
        false
    }

    /// The legal destinations for the piece on `(x, y)` playing for colour
    /// `color`: its naive moves, filtered by simulating each candidate on a
    /// cloned board and discarding those that leave `color`'s king in check.
    /// An empty square yields no moves. When the square is occupied, the
    /// occupant must be of colour `color`, `color`'s king must stand on
    /// exactly one square, and the pawns whose moves the simulation generates
    /// must sit on generatable ranks.
    #[verifier::loop_isolation(false)]
    pub fn get_possible_moves(&self, x: u32, y: u32, color: FigureColor) -> (moves: Vec<
        (u32, u32),
    >)
        requires
            self.wf(),
            x < 8,
            y < 8,
            square(self@, x as int, y as int) matches Some(f) ==> (f.color == color && has_king(
                self@,
                color,
            ) && king_unique(self@, color) && pawn_moves_safe(self@, opposite(color))
                && pawn_rank_ok(f, y as int)),
        ensures
            no_dups(moves@),
            forall|m: (u32, u32)|
                #[trigger] moves@.contains(m) <==> legal_move(
                    self@,
                    x as int,
                    y as int,
                    color,
                    m.0 as int,
                    m.1 as int,
                ),
    {
        let naive_moves = self.get_naive_moves(x, y);
        let mut moves: Vec<(u32, u32)> = Vec::new();
        let mut i: usize = 0;
        while i < naive_moves.len()
            invariant
                i <= naive_moves@.len(),
                no_dups(moves@),
                forall|m: (u32, u32)|
                    #[trigger] moves@.contains(m) <==> ((exists|j: int|
                        0 <= j < i && naive_moves@[j] == m) && !in_check(
                        board_after_move(self@, x as int, y as int, m.0 as int, m.1 as int),
                        color,
                    )),
            decreases naive_moves@.len() - i,
        {
            let mv = naive_moves[i];
            proof {
                assert(naive_moves@.contains(mv));
                lemma_naive_move_basics(self@, x as int, y as int, mv.0 as int, mv.1 as int);
            }
            let mx = mv.0;
            let my = mv.1;
            let mut board = self.clone();
            board.move_figure(x, y, mx, my);
            proof {
                lemma_move_keeps_side(self@, x as int, y as int, color, mx as int, my as int);
            }
            if !board.is_check(color) {
                insert_move(&mut moves, mx, my);
            }
            proof {
                assert forall|m: (u32, u32)| #[trigger]
                    moves@.contains(m) <==> ((exists|j: int|
                        0 <= j < i + 1 && naive_moves@[j] == m) && !in_check(
                        board_after_move(self@, x as int, y as int, m.0 as int, m.1 as int),
                        color,
                    )) by {
                    if moves@.contains(m) {
                        if m == mv {
                            assert(naive_moves@[i as int] == m);
                        }
                    }
                    if (exists|j: int| 0 <= j < i + 1 && naive_moves@[j] == m) && !in_check(
                        board_after_move(self@, x as int, y as int, m.0 as int, m.1 as int),
                        color,
                    ) {
                        let j = choose|j: int| 0 <= j < i + 1 && naive_moves@[j] == m;
                        if j < i {
                            assert(exists|j2: int| 0 <= j2 < i && naive_moves@[j2] == m);
                        }
                    }
                }
            }
            i = i + 1;
        }
        proof {
            assert forall|m: (u32, u32)|
                #[trigger] moves@.contains(m) <==> legal_move(
                    self@,
                    x as int,
                    y as int,
                    color,
                    m.0 as int,
                    m.1 as int,
                ) by {
                if moves@.contains(m) {
                    let j = choose|j: int|
                        0 <= j < naive_moves@.len() && naive_moves@[j] == m;
                    assert(naive_moves@.contains(m));
                }
                if legal_move(self@, x as int, y as int, color, m.0 as int, m.1 as int) {
                    assert(naive_moves@.contains(m));
                    let j = choose|j: int|
                        0 <= j < naive_moves@.len() && naive_moves@[j] == m;
                    assert(exists|j2: int|
                        0 <= j2 < naive_moves@.len() && naive_moves@[j2] == m);
                }
            }
        }
        moves
    }

    /// Whether some piece of colour `c` sitting on `(x, y)` can move. Shared
    /// by the checkmate and draw scans.
    fn square_has_move(&self, x: u32, y: u32) -> (r: bool)
        requires
            self.wf(),
            kings_ok(self@),
            pawns_ok(self@),
            x < 8,
            y < 8,
        ensures
            r == match square(self@, x as int, y as int) {
                Some(f) => has_legal_move(self@, x as int, y as int, f.color),
                None => false,
            },
    {
        match self.get(x, y) {
            Some(f) => {
                proof {
                    assert(occupied_by(self@, x as int, y as int, f.color));
                    assert(pawn_rank_ok_at(self@, x as int, y as int));
                }
                let mv = self.get_possible_moves(x, y, f.color);
                proof {
                    if mv@.len() > 0 {
                        let m = mv@[0];
                        assert(mv@.contains(m));
                        assert(has_legal_move(self@, x as int, y as int, f.color));
                    } else {
                        if has_legal_move(self@, x as int, y as int, f.color) {
                            let (mxi, myi) = choose|mxi: int, myi: int|
                                #[trigger] legal_move(self@, x as int, y as int, f.color, mxi, myi);
                            lemma_naive_move_basics(self@, x as int, y as int, mxi, myi);
                            let m = ((mxi as u32), (myi as u32));
                            assert(mv@.contains(m));
                        }
                    }
                }
                mv.len() > 0
            },
            None => false,
        }
    }

    /// Whether colour `color` is checkmated: no piece of `color` on a
    /// scanned rank has a legal move, and the position is not also a draw.
    /// The scan visits only ranks below `SCAN_RANKS`.
    #[verifier::loop_isolation(false)]
    pub fn is_checkmate(&self, color: FigureColor) -> (r: bool)
        requires
            self.wf(),
            kings_ok(self@),
            pawns_ok(self@),
        ensures
            r == checkmate_position(self@, color),
    {
        let mut x: u32 = 0;
        while x < 8
            invariant
                x <= 8,
                forall|qx: int, qy: int|
                    0 <= qx < x && 0 <= qy < SCAN_RANKS as int && occupied_by(self@, qx, qy, color)
                        ==> !#[trigger] has_legal_move(self@, qx, qy, color),
            decreases 8 - x,
        {
            let mut y: u32 = 0;
            while y < SCAN_RANKS
                invariant
                    x < 8,
                    y <= SCAN_RANKS,
                    forall|qx: int, qy: int|
                        0 <= qx < x && 0 <= qy < SCAN_RANKS as int && occupied_by(
                            self@,
                            qx,
                            qy,
                            color,
                        ) ==> !#[trigger] has_legal_move(self@, qx, qy, color),
                    forall|qy: int|
                        0 <= qy < y && occupied_by(self@, x as int, qy, color)
                            ==> !#[trigger] has_legal_move(self@, x as int, qy, color),
                decreases SCAN_RANKS - y,
            {
                let piece_of_color = match self.get(x, y) {
                    Some(f) => f.color == color,
                    None => false,
                };
                if piece_of_color {
                    if self.square_has_move(x, y) {
                        return false;
                    }
                }
                y = y + 1;
            }
            x = x + 1;
        }
        let draw = self.is_draw();
        !draw
    }

    /// Whether the position is a draw in this engine's sense: no piece of
    /// either colour on a scanned rank has a legal move. The scan visits only
    /// ranks below `SCAN_RANKS`.
    #[verifier::loop_isolation(false)]
    pub fn is_draw(&self) -> (r: bool)
        requires
            self.wf(),
            kings_ok(self@),
            pawns_ok(self@),
        ensures
            r == draw_position(self@),
    {
        let mut x: u32 = 0;
        while x < 8
            invariant
                x <= 8,
                forall|qx: int, qy: int, c: FigureColor|
                    0 <= qx < x && 0 <= qy < SCAN_RANKS as int && occupied_by(self@, qx, qy, c)
                        ==> !#[trigger] has_legal_move(self@, qx, qy, c),
            decreases 8 - x,
        {
            let mut y: u32 = 0;
            while y < SCAN_RANKS
                invariant
                    x < 8,
                    y <= SCAN_RANKS,
                    forall|qx: int, qy: int, c: FigureColor|
                        0 <= qx < x && 0 <= qy < SCAN_RANKS as int && occupied_by(self@, qx, qy, c)
                            ==> !#[trigger] has_legal_move(self@, qx, qy, c),
                    forall|qy: int, c: FigureColor|
                        0 <= qy < y && occupied_by(self@, x as int, qy, c)
                            ==> !#[trigger] has_legal_move(self@, x as int, qy, c),
                decreases SCAN_RANKS - y,
            {
                if self.square_has_move(x, y) {
                    return false;
                }
                y = y + 1;
            }
            x = x + 1;
        }
        true
    }
}

} // verus!
