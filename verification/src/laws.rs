//! The engine's stated laws, proved once and for all boards.
//!
//! Together with `lemma_naive_move_basics` (no naive move stays put or lands
//! on an own-colour piece) and the postconditions of `get_start_position`,
//! `get_possible_moves`, `is_check`, `is_checkmate` and `is_draw`, these
//! lemmas pin down the behaviour the engine promises.

use vstd::prelude::*;

use crate::field::{
    Board, Figure, FigureColor, FigureType, board_after_move, board_wf, in_bounds,
    lemma_square_after_move, square,
};
use crate::game::{in_check, legal_move};
use crate::moves::{
    bishop_move, diag_dir, empty_at, naive_move, occupied_by, on_ray, orth_dir, ray_clear,
    ray_move, ray_steps, rook_move, shift, unit_dir,
};

verus! {

/// A square on a ray can lie on no second ray from the same origin: the unit
/// direction that reaches it is unique.
proof fn lemma_ray_dir_unique(
    x: int,
    y: int,
    dx: int,
    dy: int,
    dx2: int,
    dy2: int,
    mx: int,
    my: int,
)
    requires
        unit_dir(dx, dy),
        unit_dir(dx2, dy2),
        on_ray(x, y, dx, dy, mx, my),
        on_ray(x, y, dx2, dy2, mx, my),
    ensures
        dx == dx2,
        dy == dy2,
{
}

/// Steps 1 through `d` of a ray whose first `d - 1` squares are empty and
/// whose square `d` is on the board are all on the board, on the ray, and
/// cleanly reachable.
proof fn lemma_ray_prefix(b: Board, x: int, y: int, dx: int, dy: int, k: int, d: int)
    requires
        in_bounds(x, y),
        unit_dir(dx, dy),
        1 <= k <= d,
        in_bounds(shift(x, dx, d), shift(y, dy, d)),
        forall|j: int| 1 <= j < d ==> #[trigger] empty_at(b, shift(x, dx, j), shift(y, dy, j)),
    ensures
        in_bounds(shift(x, dx, k), shift(y, dy, k)),
        on_ray(x, y, dx, dy, shift(x, dx, k), shift(y, dy, k)),
        ray_steps(x, y, dx, dy, shift(x, dx, k), shift(y, dy, k)) == k,
        ray_clear(b, x, y, dx, dy, k),
{
}

/// A sliding move in a direction the piece on `(x, y)` may slide along is a
/// naive move of that piece.
proof fn lemma_slider_naive(
    b: Board,
    x: int,
    y: int,
    f: Figure,
    dx: int,
    dy: int,
    mx: int,
    my: int,
)
    requires
        square(b, x, y) == Some(f),
        unit_dir(dx, dy),
        f.figure_type == FigureType::Queen || (f.figure_type == FigureType::Rook && orth_dir(
            dx,
            dy,
        )) || (f.figure_type == FigureType::Bishop && diag_dir(dx, dy)),
        ray_move(b, x, y, dx, dy, f.color, mx, my),
    ensures
        naive_move(b, x, y, mx, my),
{
    if orth_dir(dx, dy) {
        assert(rook_move(b, x, y, f.color, mx, my));
    } else {
        assert(diag_dir(dx, dy));
        assert(bishop_move(b, x, y, f.color, mx, my));
    }
}

/// Ray generation for the sliding pieces, stated against a single blocker:
/// when the first piece along a ray of a Rook, Bishop or Queen stands at
/// distance `d`, the naive-move set along that ray holds every square at
/// distance `1..d`, holds the blocker's square exactly when the blocker is an
/// enemy piece, and holds nothing beyond it.
pub proof fn lemma_ray_blocked(b: Board, x: int, y: int, f: Figure, dx: int, dy: int, d: int)
    requires
        in_bounds(x, y),
        square(b, x, y) == Some(f),
        unit_dir(dx, dy),
        f.figure_type == FigureType::Queen || (f.figure_type == FigureType::Rook && orth_dir(
            dx,
            dy,
        )) || (f.figure_type == FigureType::Bishop && diag_dir(dx, dy)),
        1 <= d,
        in_bounds(shift(x, dx, d), shift(y, dy, d)),
        forall|j: int| 1 <= j < d ==> #[trigger] empty_at(b, shift(x, dx, j), shift(y, dy, j)),
        !empty_at(b, shift(x, dx, d), shift(y, dy, d)),
    ensures
        forall|k: int|
            1 <= k < d ==> #[trigger] naive_move(b, x, y, shift(x, dx, k), shift(y, dy, k)),
        naive_move(b, x, y, shift(x, dx, d), shift(y, dy, d)) <==> !occupied_by(
            b,
            shift(x, dx, d),
            shift(y, dy, d),
            f.color,
        ),
        forall|k: int|
            k > d ==> !#[trigger] naive_move(b, x, y, shift(x, dx, k), shift(y, dy, k)),
{
    let c = f.color;
    assert forall|k: int| 1 <= k < d implies #[trigger] naive_move(
        b,
        x,
        y,
        shift(x, dx, k),
        shift(y, dy, k),
    ) by {
        lemma_ray_prefix(b, x, y, dx, dy, k, d);
        assert(empty_at(b, shift(x, dx, k), shift(y, dy, k)));
        assert(ray_move(b, x, y, dx, dy, c, shift(x, dx, k), shift(y, dy, k)));
        lemma_slider_naive(b, x, y, f, dx, dy, shift(x, dx, k), shift(y, dy, k));
    }
    lemma_ray_prefix(b, x, y, dx, dy, d, d);
    if !occupied_by(b, shift(x, dx, d), shift(y, dy, d), c) {
        assert(ray_move(b, x, y, dx, dy, c, shift(x, dx, d), shift(y, dy, d)));
        lemma_slider_naive(b, x, y, f, dx, dy, shift(x, dx, d), shift(y, dy, d));
    }
    if naive_move(b, x, y, shift(x, dx, d), shift(y, dy, d)) {
        lemma_slider_dir(b, x, y, f, dx, dy, shift(x, dx, d), shift(y, dy, d), d);
    }
    assert forall|k: int| k > d implies !#[trigger] naive_move(
        b,
        x,
        y,
        shift(x, dx, k),
        shift(y, dy, k),
    ) by {
        if naive_move(b, x, y, shift(x, dx, k), shift(y, dy, k)) {
            lemma_slider_dir(b, x, y, f, dx, dy, shift(x, dx, k), shift(y, dy, k), k);
            assert(empty_at(b, shift(x, dx, d), shift(y, dy, d)));
        }
    }
}

/// A naive move of a sliding piece that lies on the ray `(dx, dy)` at step
/// `k` is a sliding move along exactly that ray, so all nearer ray squares
/// are empty and its destination is capturable.
proof fn lemma_slider_dir(
    b: Board,
    x: int,
    y: int,
    f: Figure,
    dx: int,
    dy: int,
    mx: int,
    my: int,
    k: int,
)
    requires
        square(b, x, y) == Some(f),
        unit_dir(dx, dy),
        f.figure_type == FigureType::Queen || f.figure_type == FigureType::Rook
            || f.figure_type == FigureType::Bishop,
        k >= 1,
        mx == shift(x, dx, k),
        my == shift(y, dy, k),
        naive_move(b, x, y, mx, my),
    ensures
        ray_move(b, x, y, dx, dy, f.color, mx, my),
        ray_steps(x, y, dx, dy, mx, my) == k,
        forall|j: int| 1 <= j < k ==> #[trigger] empty_at(b, shift(x, dx, j), shift(y, dy, j)),
{
    let c = f.color;
    assert(on_ray(x, y, dx, dy, mx, my));
    if rook_move(b, x, y, c, mx, my) {
        let (dx2, dy2) = choose|dx2: int, dy2: int|
            orth_dir(dx2, dy2) && #[trigger] ray_move(b, x, y, dx2, dy2, c, mx, my);
        lemma_ray_dir_unique(x, y, dx, dy, dx2, dy2, mx, my);
    } else {
        assert(bishop_move(b, x, y, c, mx, my));
        let (dx2, dy2) = choose|dx2: int, dy2: int|
            diag_dir(dx2, dy2) && #[trigger] ray_move(b, x, y, dx2, dy2, c, mx, my);
        lemma_ray_dir_unique(x, y, dx, dy, dx2, dy2, mx, my);
    }
}

/// Every legal move is a naive move of the same square: the legality filter
/// only ever removes candidates.
pub proof fn lemma_legal_subset_of_naive(
    b: Board,
    x: int,
    y: int,
    c: FigureColor,
    mx: int,
    my: int,
)
    requires
        legal_move(b, x, y, c, mx, my),
    ensures
        naive_move(b, x, y, mx, my),
{
}

/// When colour `c` is in check, applying any of its legal moves resolves the
/// check: the resulting position no longer has `c` in check.
pub proof fn lemma_legal_move_resolves_check(
    b: Board,
    x: int,
    y: int,
    c: FigureColor,
    mx: int,
    my: int,
)
    requires
        in_check(b, c),
        legal_move(b, x, y, c, mx, my),
    ensures
        !in_check(board_after_move(b, x, y, mx, my), c),
{
}

/// Moving a piece from `a` to `b` and back restores square `a`'s occupant,
/// but square `b` ends empty: whatever stood on `b` before the first move is
/// lost to the overwrite, so the round trip is deliberately not lossless.
pub proof fn lemma_move_round_trip(b: Board, ax: int, ay: int, bx: int, by: int)
    requires
        board_wf(b),
        in_bounds(ax, ay),
        in_bounds(bx, by),
        !(ax == bx && ay == by),
        square(b, ax, ay) is Some,
    ensures
        square(board_after_move(board_after_move(b, ax, ay, bx, by), bx, by, ax, ay), ax, ay)
            == square(b, ax, ay),
        square(
            board_after_move(board_after_move(b, ax, ay, bx, by), bx, by, ax, ay),
            bx,
            by,
        ) is None,
        forall|qx: int, qy: int|
            in_bounds(qx, qy) && !(qx == ax && qy == ay) && !(qx == bx && qy == by)
                ==> #[trigger] square(
                board_after_move(board_after_move(b, ax, ay, bx, by), bx, by, ax, ay),
                qx,
                qy,
            ) == square(b, qx, qy),
{
    let b1 = board_after_move(b, ax, ay, bx, by);
    lemma_square_after_move(b, ax, ay, bx, by, ax, ay);
    lemma_square_after_move(b, ax, ay, bx, by, bx, by);
    lemma_square_after_move(b1, bx, by, ax, ay, ax, ay);
    lemma_square_after_move(b1, bx, by, ax, ay, bx, by);
    assert forall|qx: int, qy: int|
        in_bounds(qx, qy) && !(qx == ax && qy == ay) && !(qx == bx && qy == by) implies #[trigger]
    square(board_after_move(b1, bx, by, ax, ay), qx, qy) == square(b, qx, qy) by {
        lemma_square_after_move(b, ax, ay, bx, by, qx, qy);
        lemma_square_after_move(b1, bx, by, ax, ay, qx, qy);
    }
}

} // verus!
