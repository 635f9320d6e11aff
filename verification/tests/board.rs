use chessboard::board::{Board, BoardError};
use chessboard::coordinate::Coordinate;
use chessboard::piece::{Piece, PieceClass, Team};

fn at(text: &str) -> Coordinate {
    Coordinate::try_from(text).unwrap()
}

fn pieces_on(board: &Board) -> usize {
    board.map().iter().flatten().filter(|square| square.is_some()).count()
}

#[test]
fn an_empty_board_has_no_pieces() {
    let board = Board::default();
    assert_eq!(pieces_on(&board), 0);
    assert!(board.graveyard().is_empty());
    assert_eq!(board.get_piece(&at("E1")), None);
}

#[test]
fn a_new_board_has_thirty_two_pieces() {
    let board = Board::new();
    assert_eq!(pieces_on(&board), 32);
    assert!(board.graveyard().is_empty());
}

#[test]
fn a_new_board_has_the_back_ranks_and_pawns_in_place() {
    let board = Board::new();
    let classes = [
        PieceClass::Rook,
        PieceClass::Knight,
        PieceClass::Bishop,
        PieceClass::Queen,
        PieceClass::King,
        PieceClass::Bishop,
        PieceClass::Knight,
        PieceClass::Rook,
    ];
    let map = board.map();
    for column in 0..8 {
        assert_eq!(map[0][column], Some(Piece::new(classes[column], Team::Black)));
        assert_eq!(map[1][column], Some(Piece::new(PieceClass::Pawn, Team::Black)));
        for row in 2..6 {
            assert_eq!(map[row][column], None);
        }
        assert_eq!(map[6][column], Some(Piece::new(PieceClass::Pawn, Team::White)));
        assert_eq!(map[7][column], Some(Piece::new(classes[column], Team::White)));
    }
}

#[test]
fn get_piece_reads_the_square_that_the_coordinate_names() {
    let board = Board::new();
    assert_eq!(board.get_piece(&at("A1")), Some(Piece::new(PieceClass::Rook, Team::White)));
    assert_eq!(board.get_piece(&at("B1")), Some(Piece::new(PieceClass::Knight, Team::White)));
    assert_eq!(board.get_piece(&at("D1")), Some(Piece::new(PieceClass::Queen, Team::White)));
    assert_eq!(board.get_piece(&at("E1")), Some(Piece::new(PieceClass::King, Team::White)));
    assert_eq!(board.get_piece(&at("D8")), Some(Piece::new(PieceClass::Queen, Team::Black)));
    assert_eq!(board.get_piece(&at("E8")), Some(Piece::new(PieceClass::King, Team::Black)));
    assert_eq!(board.get_piece(&at("H7")), Some(Piece::new(PieceClass::Pawn, Team::Black)));
    assert_eq!(board.get_piece(&at("E4")), None);
}

#[test]
fn the_queen_starts_on_file_d_and_the_king_on_file_e() {
    let board = Board::new();
    let map = board.map();
    for (row, team) in [(0, Team::Black), (7, Team::White)] {
        assert_eq!(map[row][3], Some(Piece::new(PieceClass::Queen, team)));
        assert_eq!(map[row][4], Some(Piece::new(PieceClass::King, team)));
    }
}

#[test]
fn a_pawn_may_open_with_two_steps_but_not_repeat_them() {
    let mut board = Board::new();
    assert_eq!(board.move_piece(&at("E2"), &at("E4")), Ok(()));
    assert_eq!(board.get_piece(&at("E2")), None);
    let pawn = board.get_piece(&at("E4")).unwrap();
    assert_eq!(pawn.class(), PieceClass::Pawn);
    assert_eq!(pawn.team(), Team::White);
    assert_eq!(pawn.number_of_moves(), 1);
    assert!(!pawn.is_first_move());

    let before = board.map();
    assert_eq!(board.move_piece(&at("E4"), &at("E6")), Err(BoardError::IllegalMove));
    assert_eq!(board.map(), before);
    assert!(board.graveyard().is_empty());

    assert_eq!(board.move_piece(&at("E4"), &at("E5")), Ok(()));
    assert_eq!(board.get_piece(&at("E5")).unwrap().number_of_moves(), 2);
}

#[test]
fn a_capture_moves_the_captured_piece_to_the_graveyard() {
    let mut board = Board::new();
    assert_eq!(board.move_piece(&at("D2"), &at("D4")), Ok(()));
    assert_eq!(board.move_piece(&at("E7"), &at("E5")), Ok(()));
    let black_pawn = board.get_piece(&at("E5")).unwrap();
    assert_eq!(black_pawn.team(), Team::Black);

    let moves = board.piece_legal_moves(&at("D4")).unwrap();
    assert_eq!(moves.get(&at("E5")), Some(Some(at("E5"))));
    assert_eq!(pieces_on(&board) + board.graveyard().len(), 32);

    assert_eq!(board.move_piece(&at("D4"), &at("E5")), Ok(()));
    let white_pawn = board.get_piece(&at("E5")).unwrap();
    assert_eq!(white_pawn.class(), PieceClass::Pawn);
    assert_eq!(white_pawn.team(), Team::White);
    assert_eq!(white_pawn.number_of_moves(), 2);
    assert_eq!(board.get_piece(&at("D4")), None);
    assert_eq!(board.graveyard(), &vec![black_pawn]);
    assert_eq!(black_pawn.number_of_moves(), 1);
    assert_eq!(pieces_on(&board), 31);
    assert_eq!(pieces_on(&board) + board.graveyard().len(), 32);
}

#[test]
fn a_move_without_capture_leaves_the_graveyard_alone() {
    let mut board = Board::new();
    assert_eq!(board.move_piece(&at("B1"), &at("C3")), Ok(()));
    assert!(board.graveyard().is_empty());
    assert_eq!(pieces_on(&board), 32);
    let knight = board.get_piece(&at("C3")).unwrap();
    assert_eq!(knight.class(), PieceClass::Knight);
    assert_eq!(knight.number_of_moves(), 1);
}

#[test]
fn a_move_from_an_empty_square_fails_and_changes_nothing() {
    let mut board = Board::new();
    let before = board.map();
    for from in ["E4", "A3", "H6", "D5"] {
        for to in ["E5", "A1", "H8", from] {
            assert_eq!(board.move_piece(&at(from), &at(to)), Err(BoardError::EmptyCoordinate));
            assert_eq!(board.map(), before);
            assert!(board.graveyard().is_empty());
        }
    }
}

#[test]
fn an_illegal_move_fails_and_changes_nothing() {
    let mut board = Board::new();
    let before = board.map();
    assert_eq!(board.move_piece(&at("A1"), &at("A4")), Err(BoardError::IllegalMove));
    assert_eq!(board.move_piece(&at("B1"), &at("D2")), Err(BoardError::IllegalMove));
    assert_eq!(board.move_piece(&at("E2"), &at("E2")), Err(BoardError::IllegalMove));
    assert_eq!(board.move_piece(&at("E2"), &at("E5")), Err(BoardError::IllegalMove));
    assert_eq!(board.map(), before);
    assert!(board.graveyard().is_empty());
}

#[test]
fn either_side_may_move_at_any_time() {
    let mut board = Board::new();
    assert_eq!(board.move_piece(&at("E2"), &at("E4")), Ok(()));
    assert_eq!(board.move_piece(&at("D2"), &at("D4")), Ok(()));
    assert_eq!(board.move_piece(&at("E7"), &at("E5")), Ok(()));
    assert_eq!(board.move_piece(&at("D7"), &at("D5")), Ok(()));
    assert_eq!(board.move_piece(&at("C1"), &at("E3")), Ok(()));
    assert_eq!(
        board.get_piece(&at("E3")).map(|piece| (piece.class(), piece.team())),
        Some((PieceClass::Bishop, Team::White))
    );
}

#[test]
fn the_new_board_is_drawn_rank_by_rank() {
    let expected = "8 ┃ ♜ ♞ ♝ ♛ ♚ ♝ ♞ ♜ \n\
                    7 ┃ ♟ ♟ ♟ ♟ ♟ ♟ ♟ ♟ \n\
                    6 ┃ . . . . . . . . \n\
                    5 ┃ . . . . . . . . \n\
                    4 ┃ . . . . . . . . \n\
                    3 ┃ . . . . . . . . \n\
                    2 ┃ ♙ ♙ ♙ ♙ ♙ ♙ ♙ ♙ \n\
                    1 ┃ ♖ ♘ ♗ ♕ ♔ ♗ ♘ ♖ \n  \
                    ┗━━━━━━━━━━━━━━━━\n    \
                    A B C D E F G H ";
    assert_eq!(Board::new().render(), expected);
}

#[test]
fn the_diagram_follows_the_moves() {
    let mut board = Board::new();
    assert_eq!(board.move_piece(&at("E2"), &at("E4")), Ok(()));
    let text = board.render();
    let rows: Vec<&str> = text.split('\n').collect();
    assert_eq!(rows.len(), 10);
    assert_eq!(rows[4], "4 ┃ . . . . ♙ . . . ");
    assert_eq!(rows[6], "2 ┃ ♙ ♙ ♙ ♙ . ♙ ♙ ♙ ");
    assert_eq!(rows[8], "  ┗━━━━━━━━━━━━━━━━");
    assert_eq!(rows[9], "    A B C D E F G H ");
}

#[test]
fn the_move_counter_stops_at_its_largest_value() {
    let mut board = Board::new();
    for _ in 0..150 {
        assert_eq!(board.move_piece(&at("B1"), &at("C3")), Ok(()));
        assert_eq!(board.move_piece(&at("C3"), &at("B1")), Ok(()));
    }
    let knight = board.get_piece(&at("B1")).unwrap();
    assert_eq!(knight.number_of_moves(), 255);
    assert!(!knight.is_first_move());
    assert_eq!(pieces_on(&board), 32);
}

#[test]
fn the_move_counter_counts_each_move() {
    let mut board = Board::new();
    for done in 0u8..5 {
        assert_eq!(board.get_piece(&at("B1")).unwrap().number_of_moves(), 2 * done);
        assert_eq!(board.move_piece(&at("B1"), &at("C3")), Ok(()));
        assert_eq!(board.get_piece(&at("C3")).unwrap().number_of_moves(), 2 * done + 1);
        assert_eq!(board.move_piece(&at("C3"), &at("B1")), Ok(()));
    }
}

#[test]
fn an_empty_board_answers_every_question_with_empty_coordinate() {
    let mut board = Board::default();
    assert_eq!(
        board.piece_legal_moves(&at("E2")).err(),
        Some(BoardError::EmptyCoordinate)
    );
    assert_eq!(board.move_piece(&at("E2"), &at("E4")), Err(BoardError::EmptyCoordinate));
    assert_eq!(pieces_on(&board), 0);
}
