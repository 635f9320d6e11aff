use chessboard::piece::{Piece, PieceClass, Team};

#[test]
fn a_new_piece_has_not_moved() {
    let piece = Piece::new(PieceClass::Queen, Team::White);
    assert_eq!(piece.class(), PieceClass::Queen);
    assert_eq!(piece.team(), Team::White);
    assert_eq!(piece.number_of_moves(), 0);
    assert!(piece.is_first_move());
}

#[test]
fn a_copy_of_a_piece_is_equal_to_it() {
    let piece = Piece::new(PieceClass::Pawn, Team::Black);
    let copy = piece;
    assert_eq!(piece, copy);
    assert_ne!(piece, Piece::new(PieceClass::Pawn, Team::White));
    assert_ne!(piece, Piece::new(PieceClass::Rook, Team::Black));
}

#[test]
fn each_piece_has_its_glyph() {
    let expected = [
        (PieceClass::King, Team::Black, '♚'),
        (PieceClass::King, Team::White, '♔'),
        (PieceClass::Queen, Team::Black, '♛'),
        (PieceClass::Queen, Team::White, '♕'),
        (PieceClass::Rook, Team::Black, '♜'),
        (PieceClass::Rook, Team::White, '♖'),
        (PieceClass::Bishop, Team::Black, '♝'),
        (PieceClass::Bishop, Team::White, '♗'),
        (PieceClass::Knight, Team::Black, '♞'),
        (PieceClass::Knight, Team::White, '♘'),
        (PieceClass::Pawn, Team::Black, '♟'),
        (PieceClass::Pawn, Team::White, '♙'),
    ];
    for (class, team, glyph) in expected {
        assert_eq!(Piece::new(class, team).glyph(), glyph);
    }
}
