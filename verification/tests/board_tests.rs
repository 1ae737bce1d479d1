use chess_rules::field::{Field, Figure, FigureColor, FigureType};

fn fig(c: FigureColor, t: FigureType) -> Figure {
    Figure::new(c, t)
}

const BACK_RANK: [FigureType; 8] = [
    FigureType::Rook,
    FigureType::Knight,
    FigureType::Bishop,
    FigureType::Queen,
    FigureType::King,
    FigureType::Bishop,
    FigureType::Knight,
    FigureType::Rook,
];

#[test]
fn start_position_matches_standard_setup() {
    let f = Field::get_start_position();
    for x in 0..8u32 {
        assert_eq!(f.get(x, 0), Some(fig(FigureColor::Black, BACK_RANK[x as usize])));
        assert_eq!(f.get(x, 1), Some(fig(FigureColor::Black, FigureType::Pawn)));
        for y in 2..6u32 {
            assert_eq!(f.get(x, y), None);
        }
        assert_eq!(f.get(x, 6), Some(fig(FigureColor::White, FigureType::Pawn)));
        assert_eq!(f.get(x, 7), Some(fig(FigureColor::White, BACK_RANK[x as usize])));
    }
}

#[test]
fn new_board_is_empty() {
    let f = Field::new();
    for x in 0..8u32 {
        for y in 0..8u32 {
            assert_eq!(f.get(x, y), None);
        }
    }
}

#[test]
fn set_places_and_overwrites() {
    let mut f = Field::new();
    f.set(3, 3, fig(FigureColor::White, FigureType::Rook));
    assert_eq!(f.get(3, 3), Some(fig(FigureColor::White, FigureType::Rook)));
    f.set(3, 3, fig(FigureColor::Black, FigureType::Queen));
    assert_eq!(f.get(3, 3), Some(fig(FigureColor::Black, FigureType::Queen)));
    assert_eq!(f.get(3, 4), None);
}

#[test]
fn move_figure_moves_and_clears_source() {
    let mut f = Field::new();
    f.set(2, 2, fig(FigureColor::White, FigureType::Knight));
    f.move_figure(2, 2, 4, 3);
    assert_eq!(f.get(2, 2), None);
    assert_eq!(f.get(4, 3), Some(fig(FigureColor::White, FigureType::Knight)));
}

#[test]
fn move_figure_captures_by_overwrite() {
    let mut f = Field::new();
    f.set(2, 2, fig(FigureColor::White, FigureType::Rook));
    f.set(2, 5, fig(FigureColor::Black, FigureType::Bishop));
    f.move_figure(2, 2, 2, 5);
    assert_eq!(f.get(2, 2), None);
    assert_eq!(f.get(2, 5), Some(fig(FigureColor::White, FigureType::Rook)));
}

#[test]
fn move_round_trip_restores_source_but_loses_capture() {
    // Moving a -> b and back restores a, but b's original occupant is gone:
    // the round trip is deliberately not lossless.
    let mut f = Field::new();
    f.set(1, 7, fig(FigureColor::White, FigureType::Knight));
    f.set(1, 0, fig(FigureColor::Black, FigureType::Knight));
    f.move_figure(1, 7, 1, 0);
    f.move_figure(1, 0, 1, 7);
    assert_eq!(f.get(1, 7), Some(fig(FigureColor::White, FigureType::Knight)));
    assert_eq!(f.get(1, 0), None);
}

#[test]
fn clone_is_independent() {
    let mut f = Field::get_start_position();
    let g = f.clone();
    f.move_figure(4, 6, 4, 4);
    assert_eq!(f.get(4, 6), None);
    assert_eq!(g.get(4, 6), Some(fig(FigureColor::White, FigureType::Pawn)));
    assert_eq!(g.get(4, 4), None);
}
