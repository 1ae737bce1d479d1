use chess_rules::field::{Field, Figure, FigureColor, FigureType};

fn fig(c: FigureColor, t: FigureType) -> Figure {
    Figure::new(c, t)
}

fn has(moves: &Vec<(u32, u32)>, m: (u32, u32)) -> bool {
    moves.iter().any(|x| *x == m)
}

#[test]
fn naive_moves_of_empty_square_are_empty() {
    let f = Field::get_start_position();
    assert!(f.get_naive_moves(4, 4).is_empty());
}

#[test]
fn naive_moves_never_include_own_square_or_own_color() {
    let f = Field::get_start_position();
    for x in 0..8u32 {
        for y in 0..8u32 {
            if let Some(piece) = f.get(x, y) {
                for &(mx, my) in f.get_naive_moves(x, y).iter() {
                    assert!((mx, my) != (x, y));
                    if let Some(target) = f.get(mx, my) {
                        assert_ne!(target.color, piece.color);
                    }
                }
            }
        }
    }
}

#[test]
fn knight_in_centre_has_eight_moves() {
    let mut f = Field::new();
    f.set(3, 3, fig(FigureColor::White, FigureType::Knight));
    let moves = f.get_naive_moves(3, 3);
    assert_eq!(moves.len(), 8);
    for m in [(2, 1), (1, 2), (1, 4), (2, 5), (4, 5), (5, 4), (5, 2), (4, 1)] {
        assert!(has(&moves, m));
    }
}

#[test]
fn knight_on_start_position_jumps_over_pawns() {
    let f = Field::get_start_position();
    let moves = f.get_naive_moves(1, 7);
    assert_eq!(moves.len(), 2);
    assert!(has(&moves, (0, 5)));
    assert!(has(&moves, (2, 5)));
}

#[test]
fn king_in_centre_has_eight_moves() {
    let mut f = Field::new();
    f.set(3, 3, fig(FigureColor::Black, FigureType::King));
    let moves = f.get_naive_moves(3, 3);
    assert_eq!(moves.len(), 8);
    for m in [(2, 2), (3, 2), (4, 2), (2, 3), (4, 3), (2, 4), (3, 4), (4, 4)] {
        assert!(has(&moves, m));
    }
}

#[test]
fn rook_in_corner_covers_both_lines() {
    let mut f = Field::new();
    f.set(0, 0, fig(FigureColor::White, FigureType::Rook));
    let moves = f.get_naive_moves(0, 0);
    assert_eq!(moves.len(), 14);
    for i in 1..8u32 {
        assert!(has(&moves, (i, 0)));
        assert!(has(&moves, (0, i)));
    }
}

#[test]
fn bishop_in_centre_covers_diagonals() {
    let mut f = Field::new();
    f.set(3, 3, fig(FigureColor::White, FigureType::Bishop));
    let moves = f.get_naive_moves(3, 3);
    assert_eq!(moves.len(), 13);
    assert!(has(&moves, (0, 0)));
    assert!(has(&moves, (7, 7)));
    assert!(has(&moves, (0, 6)));
    assert!(has(&moves, (6, 0)));
    assert!(!has(&moves, (3, 4)));
}

#[test]
fn queen_in_centre_has_27_moves() {
    let mut f = Field::new();
    f.set(3, 3, fig(FigureColor::Black, FigureType::Queen));
    assert_eq!(f.get_naive_moves(3, 3).len(), 27);
}

#[test]
fn ray_stops_at_enemy_blocker_inclusive() {
    // Rook at (0, 0), enemy blocker at distance 3 up the file: the ray holds
    // distances 1, 2 and 3 (the capture) and nothing beyond.
    let mut f = Field::new();
    f.set(0, 0, fig(FigureColor::White, FigureType::Rook));
    f.set(0, 3, fig(FigureColor::Black, FigureType::Pawn));
    let moves = f.get_naive_moves(0, 0);
    assert!(has(&moves, (0, 1)));
    assert!(has(&moves, (0, 2)));
    assert!(has(&moves, (0, 3)));
    assert!(!has(&moves, (0, 4)));
    assert!(!has(&moves, (0, 5)));
    assert!(!has(&moves, (0, 6)));
    assert!(!has(&moves, (0, 7)));
    // the horizontal ray is unobstructed
    for i in 1..8u32 {
        assert!(has(&moves, (i, 0)));
    }
    assert_eq!(moves.len(), 10);
}

#[test]
fn ray_stops_before_own_blocker() {
    let mut f = Field::new();
    f.set(0, 0, fig(FigureColor::White, FigureType::Rook));
    f.set(0, 3, fig(FigureColor::White, FigureType::Pawn));
    let moves = f.get_naive_moves(0, 0);
    assert!(has(&moves, (0, 1)));
    assert!(has(&moves, (0, 2)));
    assert!(!has(&moves, (0, 3)));
    assert!(!has(&moves, (0, 4)));
    assert_eq!(moves.len(), 9);
}

#[test]
fn bishop_ray_stops_at_blocker() {
    let mut f = Field::new();
    f.set(2, 2, fig(FigureColor::Black, FigureType::Bishop));
    f.set(5, 5, fig(FigureColor::White, FigureType::Pawn));
    let moves = f.get_naive_moves(2, 2);
    assert!(has(&moves, (3, 3)));
    assert!(has(&moves, (4, 4)));
    assert!(has(&moves, (5, 5)));
    assert!(!has(&moves, (6, 6)));
    assert!(!has(&moves, (7, 7)));
}

#[test]
fn queen_rays_stop_independently() {
    let mut f = Field::new();
    f.set(0, 0, fig(FigureColor::White, FigureType::Queen));
    f.set(0, 2, fig(FigureColor::White, FigureType::Pawn));
    f.set(2, 2, fig(FigureColor::Black, FigureType::Pawn));
    let moves = f.get_naive_moves(0, 0);
    // vertical ray blocked by the own pawn at distance 2
    assert!(has(&moves, (0, 1)));
    assert!(!has(&moves, (0, 2)));
    assert!(!has(&moves, (0, 3)));
    // diagonal ray ends on the enemy pawn at distance 2
    assert!(has(&moves, (1, 1)));
    assert!(has(&moves, (2, 2)));
    assert!(!has(&moves, (3, 3)));
    // horizontal ray runs the whole rank
    for i in 1..8u32 {
        assert!(has(&moves, (i, 0)));
    }
}

#[test]
fn pawn_capture_only_diagonally_onto_enemy() {
    let mut f = Field::new();
    f.set(4, 4, fig(FigureColor::White, FigureType::Pawn));
    f.set(3, 3, fig(FigureColor::Black, FigureType::Pawn));
    f.set(5, 3, fig(FigureColor::White, FigureType::Knight));
    f.set(4, 3, fig(FigureColor::Black, FigureType::Rook));
    let moves = f.get_naive_moves(4, 4);
    // forward blocked, left capture offered, right square held by own piece
    assert_eq!(moves.len(), 1);
    assert!(has(&moves, (3, 3)));
}

#[test]
fn pawn_double_step_needs_both_squares_empty() {
    let f = Field::get_start_position();
    let moves = f.get_naive_moves(4, 6);
    assert_eq!(moves.len(), 2);
    assert!(has(&moves, (4, 5)));
    assert!(has(&moves, (4, 4)));

    let mut g = Field::get_start_position();
    g.set(4, 4, fig(FigureColor::Black, FigureType::Knight));
    let moves = g.get_naive_moves(4, 6);
    assert_eq!(moves.len(), 1);
    assert!(has(&moves, (4, 5)));

    let mut h = Field::get_start_position();
    h.set(4, 5, fig(FigureColor::Black, FigureType::Knight));
    let moves = h.get_naive_moves(4, 6);
    assert!(moves.is_empty());
}

#[test]
fn black_pawn_moves_toward_increasing_rank() {
    let f = Field::get_start_position();
    let moves = f.get_naive_moves(2, 1);
    assert_eq!(moves.len(), 2);
    assert!(has(&moves, (2, 2)));
    assert!(has(&moves, (2, 3)));
}
