use chess_rules::field::{Field, Figure, FigureColor, FigureType};

fn fig(c: FigureColor, t: FigureType) -> Figure {
    Figure::new(c, t)
}

fn has(moves: &Vec<(u32, u32)>, m: (u32, u32)) -> bool {
    moves.iter().any(|x| *x == m)
}

#[test]
fn start_position_is_not_check_mate_or_draw() {
    let f = Field::get_start_position();
    assert!(!f.is_check(FigureColor::White));
    assert!(!f.is_check(FigureColor::Black));
    assert!(!f.is_checkmate(FigureColor::White));
    assert!(!f.is_checkmate(FigureColor::Black));
    assert!(!f.is_draw());
}

#[test]
fn rook_on_open_file_gives_check() {
    let mut f = Field::new();
    f.set(4, 7, fig(FigureColor::White, FigureType::King));
    f.set(4, 0, fig(FigureColor::Black, FigureType::Rook));
    assert!(f.is_check(FigureColor::White));
}

#[test]
fn pawn_gives_check_diagonally() {
    let mut f = Field::new();
    f.set(4, 4, fig(FigureColor::White, FigureType::King));
    f.set(3, 3, fig(FigureColor::Black, FigureType::Pawn));
    assert!(f.is_check(FigureColor::White));
    let mut g = Field::new();
    g.set(4, 4, fig(FigureColor::White, FigureType::King));
    g.set(4, 3, fig(FigureColor::Black, FigureType::Pawn));
    assert!(!g.is_check(FigureColor::White));
}

#[test]
fn knight_gives_check_over_distance() {
    let mut f = Field::new();
    f.set(4, 4, fig(FigureColor::Black, FigureType::King));
    f.set(5, 6, fig(FigureColor::White, FigureType::Knight));
    assert!(f.is_check(FigureColor::Black));
}

#[test]
fn interposed_piece_blocks_the_check() {
    let mut f = Field::new();
    f.set(4, 7, fig(FigureColor::White, FigureType::King));
    f.set(4, 3, fig(FigureColor::White, FigureType::Bishop));
    f.set(4, 0, fig(FigureColor::Black, FigureType::Rook));
    assert!(!f.is_check(FigureColor::White));
}

#[test]
fn checked_king_must_leave_the_rook_file() {
    // Only a White king at (4, 7) and a Black rook at (4, 0): the king is in
    // check and every legal move leaves file 4.
    let mut f = Field::new();
    f.set(4, 7, fig(FigureColor::White, FigureType::King));
    f.set(4, 0, fig(FigureColor::Black, FigureType::Rook));
    assert!(f.is_check(FigureColor::White));
    let moves = f.get_possible_moves(4, 7, FigureColor::White);
    assert_eq!(moves.len(), 4);
    for m in [(3, 6), (3, 7), (5, 6), (5, 7)] {
        assert!(has(&moves, m));
    }
    for &(mx, _) in moves.iter() {
        assert_ne!(mx, 4);
    }
}

#[test]
fn every_legal_move_resolves_an_existing_check() {
    let mut f = Field::new();
    f.set(4, 7, fig(FigureColor::White, FigureType::King));
    f.set(4, 0, fig(FigureColor::Black, FigureType::Rook));
    assert!(f.is_check(FigureColor::White));
    for &(mx, my) in f.get_possible_moves(4, 7, FigureColor::White).iter() {
        let mut sim = f.clone();
        sim.move_figure(4, 7, mx, my);
        assert!(!sim.is_check(FigureColor::White));
    }
}

#[test]
fn possible_moves_are_a_subset_of_naive_moves() {
    let mut f = Field::new();
    f.set(4, 7, fig(FigureColor::White, FigureType::King));
    f.set(4, 0, fig(FigureColor::Black, FigureType::Rook));
    let naive = f.get_naive_moves(4, 7);
    let possible = f.get_possible_moves(4, 7, FigureColor::White);
    for &m in possible.iter() {
        assert!(has(&naive, m));
    }
    assert!(possible.len() < naive.len());

    let g = Field::get_start_position();
    for x in 0..8u32 {
        for y in 0..8u32 {
            if let Some(piece) = g.get(x, y) {
                let naive = g.get_naive_moves(x, y);
                for &m in g.get_possible_moves(x, y, piece.color).iter() {
                    assert!(has(&naive, m));
                }
            }
        }
    }
}

#[test]
fn start_pawn_has_single_and_double_advance() {
    let f = Field::get_start_position();
    let moves = f.get_possible_moves(4, 6, FigureColor::White);
    assert_eq!(moves.len(), 2);
    assert!(has(&moves, (4, 5)));
    assert!(has(&moves, (4, 4)));
}

#[test]
fn pinned_knight_has_no_moves() {
    let mut f = Field::new();
    f.set(4, 7, fig(FigureColor::White, FigureType::King));
    f.set(4, 5, fig(FigureColor::White, FigureType::Knight));
    f.set(4, 0, fig(FigureColor::Black, FigureType::Rook));
    assert!(f.get_possible_moves(4, 5, FigureColor::White).is_empty());
}

#[test]
fn lone_kings_with_moves_are_no_draw() {
    // A White king at (0, 0) and a Black king at (7, 7): the scan still finds
    // the White king, which can step freely (for example to (1, 1)), so the
    // literal draw rule reports false.
    let mut f = Field::new();
    f.set(0, 0, fig(FigureColor::White, FigureType::King));
    f.set(7, 7, fig(FigureColor::Black, FigureType::King));
    assert!(!f.get_possible_moves(0, 0, FigureColor::White).is_empty());
    assert!(!f.is_draw());
}

#[test]
fn pieces_on_the_last_rank_are_invisible_to_the_scans() {
    // Both kings stand on rank 7, which the checkmate and draw scans skip:
    // nobody is seen to have a move, so the position counts as a draw, and
    // the draw in turn suppresses checkmate.
    let mut f = Field::new();
    f.set(0, 7, fig(FigureColor::White, FigureType::King));
    f.set(7, 7, fig(FigureColor::Black, FigureType::King));
    assert!(f.is_draw());
    assert!(!f.is_checkmate(FigureColor::White));
    assert!(!f.is_checkmate(FigureColor::Black));
}

#[test]
fn smothered_back_rank_mate_is_detected() {
    // Black queen on (4, 6), guarded by the Black king on (4, 5), corners the
    // White king on (4, 7): White has no legal move anywhere the scan looks,
    // Black still has moves, so White is checkmated and it is no draw.
    let mut f = Field::new();
    f.set(4, 7, fig(FigureColor::White, FigureType::King));
    f.set(4, 6, fig(FigureColor::Black, FigureType::Queen));
    f.set(4, 5, fig(FigureColor::Black, FigureType::King));
    assert!(f.is_check(FigureColor::White));
    assert!(f.get_possible_moves(4, 7, FigureColor::White).is_empty());
    assert!(f.is_checkmate(FigureColor::White));
    assert!(!f.is_draw());
    assert!(!f.is_checkmate(FigureColor::Black));
}
