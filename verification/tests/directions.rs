use chessboard::directions::{
    bishop_directions, knight_offsets, rook_directions, royal_directions,
};

#[test]
fn a_knight_has_eight_jumps() {
    assert_eq!(
        knight_offsets(),
        vec![(1, 2), (1, -2), (2, 1), (2, -1), (-1, 2), (-1, -2), (-2, 1), (-2, -1)]
    );
}

#[test]
fn a_bishop_has_four_diagonals() {
    assert_eq!(bishop_directions(), vec![(-1, -1), (-1, 1), (1, -1), (1, 1)]);
}

#[test]
fn a_rook_has_four_straight_lines() {
    assert_eq!(rook_directions(), vec![(0, -1), (-1, 0), (0, 1), (1, 0)]);
}

#[test]
fn queen_and_king_have_all_eight_directions() {
    assert_eq!(
        royal_directions(),
        vec![(0, -1), (-1, 0), (0, 1), (1, 0), (-1, -1), (-1, 1), (1, -1), (1, 1)]
    );
}
