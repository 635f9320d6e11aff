use chessboard::board::{Board, BoardError};
use chessboard::coordinate::Coordinate;
use chessboard::legal_moves::LegalMoves;

fn square(text: &str) -> Coordinate {
    Coordinate::try_from(text).unwrap()
}

fn names(moves: &LegalMoves) -> Vec<String> {
    moves.destinations().iter().map(|to| to.to_notation()).collect()
}

fn play(board: &mut Board, from: &str, to: &str) {
    assert_eq!(board.move_piece(&square(from), &square(to)), Ok(()), "{} to {}", from, to);
}

#[test]
fn a_knight_on_b1_may_jump_to_a3_and_c3_only() {
    let board = Board::new();
    let moves = board.piece_legal_moves(&square("B1")).unwrap();
    assert_eq!(moves.len(), 2);
    assert_eq!(names(&moves), vec!["A3", "C3"]);
    assert_eq!(moves.get(&square("A3")), Some(None));
    assert_eq!(moves.get(&square("C3")), Some(None));
    assert!(moves.contains_key(&square("A3")));
    assert!(moves.contains_key(&square("C3")));
    assert!(!moves.contains_key(&square("D2")));
    assert_eq!(moves.get(&square("D2")), None);
}

#[test]
fn a_rook_on_a1_is_blocked_at_the_start() {
    let board = Board::new();
    let moves = board.piece_legal_moves(&square("A1")).unwrap();
    assert!(moves.is_empty());
    assert_eq!(moves.len(), 0);
    assert_eq!(moves.destinations(), vec![]);
}

#[test]
fn an_empty_square_has_no_legal_moves_to_ask_for() {
    let board = Board::new();
    for text in ["E4", "A3", "H6"] {
        assert_eq!(
            board.piece_legal_moves(&square(text)).err(),
            Some(BoardError::EmptyCoordinate)
        );
    }
}

#[test]
fn a_pawn_at_the_start_has_both_advances_and_both_diagonals() {
    let board = Board::new();
    let white = board.piece_legal_moves(&square("E2")).unwrap();
    assert_eq!(names(&white), vec!["E4", "D3", "E3", "F3"]);
    for to in ["E4", "D3", "E3", "F3"] {
        assert_eq!(white.get(&square(to)), Some(None));
    }
    let black = board.piece_legal_moves(&square("E7")).unwrap();
    assert_eq!(names(&black), vec!["D6", "E6", "F6", "E5"]);
    let edge = board.piece_legal_moves(&square("A2")).unwrap();
    assert_eq!(names(&edge), vec!["A4", "A3", "B3"]);
}

#[test]
fn a_pawn_that_has_moved_advances_one_step_only() {
    let mut board = Board::new();
    play(&mut board, "E2", "E4");
    let moves = board.piece_legal_moves(&square("E4")).unwrap();
    assert_eq!(names(&moves), vec!["D5", "E5", "F5"]);
    assert!(!moves.contains_key(&square("E6")));
}

#[test]
fn a_pawn_does_not_advance_onto_a_piece() {
    let mut board = Board::new();
    play(&mut board, "E2", "E4");
    play(&mut board, "E7", "E5");
    let white = board.piece_legal_moves(&square("E4")).unwrap();
    assert_eq!(names(&white), vec!["D5", "F5"]);
    let black = board.piece_legal_moves(&square("E5")).unwrap();
    assert_eq!(names(&black), vec!["D4", "F4"]);
}

#[test]
fn a_pawn_opens_with_two_steps_whatever_stands_in_between() {
    let mut board = Board::new();
    play(&mut board, "B1", "C3");
    let moves = board.piece_legal_moves(&square("C2")).unwrap();
    assert_eq!(names(&moves), vec!["C4", "B3", "D3"]);
    assert_eq!(moves.get(&square("C3")), None);
}

#[test]
fn a_pawn_captures_on_the_diagonal() {
    let mut board = Board::new();
    play(&mut board, "D2", "D4");
    play(&mut board, "E7", "E5");
    let moves = board.piece_legal_moves(&square("D4")).unwrap();
    assert_eq!(names(&moves), vec!["C5", "D5", "E5"]);
    assert_eq!(moves.get(&square("E5")), Some(Some(square("E5"))));
    assert_eq!(moves.get(&square("C5")), Some(None));
    assert_eq!(moves.get(&square("D5")), Some(None));
}

#[test]
fn a_pawn_does_not_capture_its_own_side() {
    let mut board = Board::new();
    play(&mut board, "D2", "D3");
    let moves = board.piece_legal_moves(&square("E2")).unwrap();
    assert_eq!(names(&moves), vec!["E4", "E3", "F3"]);
}

#[test]
fn a_bishop_slides_until_it_meets_a_piece() {
    let mut board = Board::new();
    play(&mut board, "D2", "D3");
    let moves = board.piece_legal_moves(&square("C1")).unwrap();
    assert_eq!(names(&moves), vec!["H6", "G5", "F4", "E3", "D2"]);
    play(&mut board, "C1", "E3");
    let moves = board.piece_legal_moves(&square("E3")).unwrap();
    assert_eq!(
        names(&moves),
        vec!["A7", "B6", "H6", "C5", "G5", "D4", "F4", "D2", "C1"]
    );
    assert_eq!(moves.get(&square("A7")), Some(Some(square("A7"))));
    assert_eq!(moves.get(&square("B6")), Some(None));
    assert_eq!(moves.len(), 9);
}

#[test]
fn blocking_one_ray_of_a_bishop_leaves_the_opposite_ray_alone() {
    let mut board = Board::new();
    play(&mut board, "D2", "D3");
    play(&mut board, "C1", "E3");
    let open = board.piece_legal_moves(&square("E3")).unwrap();
    for to in ["F4", "G5", "H6", "D2", "C1"] {
        assert_eq!(open.get(&square(to)), Some(None), "{}", to);
    }
    play(&mut board, "F2", "F4");
    let blocked = board.piece_legal_moves(&square("E3")).unwrap();
    for to in ["F4", "G5", "H6"] {
        assert_eq!(blocked.get(&square(to)), None, "{}", to);
    }
    for to in ["D2", "C1"] {
        assert_eq!(blocked.get(&square(to)), Some(None), "{}", to);
    }
    assert_eq!(names(&blocked), vec!["A7", "B6", "C5", "D4", "D2", "F2", "C1"]);
}

#[test]
fn a_rook_slides_along_rows_and_columns_and_captures() {
    let mut board = Board::new();
    play(&mut board, "A2", "A4");
    play(&mut board, "A1", "A3");
    let moves = board.piece_legal_moves(&square("A3")).unwrap();
    assert_eq!(names(&moves), vec!["B3", "C3", "D3", "E3", "F3", "G3", "H3", "A2", "A1"]);
    play(&mut board, "A3", "H3");
    play(&mut board, "H3", "H6");
    let moves = board.piece_legal_moves(&square("H6")).unwrap();
    assert_eq!(
        names(&moves),
        vec!["H7", "A6", "B6", "C6", "D6", "E6", "F6", "G6", "H5", "H4", "H3"]
    );
    assert_eq!(moves.get(&square("H7")), Some(Some(square("H7"))));
    assert_eq!(moves.get(&square("H8")), None);
    assert_eq!(moves.get(&square("H2")), None);
}

#[test]
fn a_queen_slides_in_all_eight_directions() {
    let mut board = Board::new();
    assert!(board.piece_legal_moves(&square("D1")).unwrap().is_empty());
    play(&mut board, "D2", "D4");
    let moves = board.piece_legal_moves(&square("D1")).unwrap();
    assert_eq!(names(&moves), vec!["D3", "D2"]);
    play(&mut board, "D1", "D3");
    let moves = board.piece_legal_moves(&square("D3")).unwrap();
    assert_eq!(
        names(&moves),
        vec![
            "H7", "A6", "G6", "B5", "F5", "C4", "E4", "A3", "B3", "C3", "E3", "F3", "G3", "H3",
            "D2", "D1"
        ]
    );
    assert_eq!(moves.get(&square("H7")), Some(Some(square("H7"))));
    assert_eq!(moves.get(&square("G6")), Some(None));
    assert_eq!(moves.get(&square("D4")), None);
}

#[test]
fn a_king_takes_one_step_only() {
    let mut board = Board::new();
    assert!(board.piece_legal_moves(&square("E1")).unwrap().is_empty());
    play(&mut board, "E2", "E4");
    let moves = board.piece_legal_moves(&square("E1")).unwrap();
    assert_eq!(names(&moves), vec!["E2"]);
    play(&mut board, "E1", "E2");
    let moves = board.piece_legal_moves(&square("E2")).unwrap();
    assert_eq!(names(&moves), vec!["D3", "E3", "F3", "E1"]);
    play(&mut board, "E2", "E3");
    let moves = board.piece_legal_moves(&square("E3")).unwrap();
    assert_eq!(names(&moves), vec!["D4", "F4", "D3", "F3", "E2"]);
}

#[test]
fn a_king_may_step_onto_an_attacked_square() {
    let mut board = Board::new();
    play(&mut board, "E2", "E4");
    play(&mut board, "E1", "E2");
    play(&mut board, "E2", "E3");
    play(&mut board, "E3", "D4");
    play(&mut board, "D4", "D5");
    play(&mut board, "D5", "D6");
    let moves = board.piece_legal_moves(&square("D6")).unwrap();
    assert_eq!(
        names(&moves),
        vec!["C7", "D7", "E7", "C6", "E6", "C5", "D5", "E5"]
    );
    assert_eq!(moves.get(&square("D7")), Some(Some(square("D7"))));
}

#[test]
fn a_knight_captures_the_other_side_and_spares_its_own() {
    let mut board = Board::new();
    play(&mut board, "B1", "C3");
    play(&mut board, "C3", "D5");
    let moves = board.piece_legal_moves(&square("D5")).unwrap();
    assert_eq!(names(&moves), vec!["C7", "E7", "B6", "F6", "B4", "F4", "C3", "E3"]);
    assert_eq!(moves.get(&square("C7")), Some(Some(square("C7"))));
    assert_eq!(moves.get(&square("E7")), Some(Some(square("E7"))));
    assert_eq!(moves.get(&square("B6")), Some(None));
    play(&mut board, "D5", "C7");
    assert_eq!(board.graveyard().len(), 1);
}

#[test]
fn a_later_entry_for_a_square_replaces_the_earlier_one() {
    let mut moves = LegalMoves::new();
    assert!(moves.is_empty());
    moves.insert(square("E4"), None);
    moves.insert(square("A8"), Some(square("A8")));
    moves.insert(square("E4"), Some(square("E4")));
    assert_eq!(moves.len(), 2);
    assert_eq!(moves.get(&square("E4")), Some(Some(square("E4"))));
    assert_eq!(moves.get(&square("A8")), Some(Some(square("A8"))));
    assert_eq!(moves.get(&square("H1")), None);
    assert_eq!(moves.destinations(), vec![square("A8"), square("E4")]);
}
