use chessboard::coordinate::{Coordinate, CoordinateError};

#[test]
fn rows_and_columns_within_the_board_are_accepted() {
    for row in 0u8..8 {
        for column in 0u8..8 {
            let coordinate = Coordinate::try_from((row, column)).unwrap();
            assert_eq!(coordinate.row(), row as usize);
            assert_eq!(coordinate.column(), column as usize);
        }
    }
}

#[test]
fn rows_and_columns_outside_the_board_are_rejected() {
    assert_eq!(Coordinate::try_from((8u8, 0u8)), Err(CoordinateError::RangeError));
    assert_eq!(Coordinate::try_from((0u8, 8u8)), Err(CoordinateError::RangeError));
    assert_eq!(Coordinate::try_from((8u8, 8u8)), Err(CoordinateError::RangeError));
    assert_eq!(Coordinate::try_from((255u8, 3u8)), Err(CoordinateError::RangeError));
    assert_eq!(Coordinate::try_from((3u8, 255u8)), Err(CoordinateError::RangeError));
    assert_eq!(Coordinate::try_from((8usize, 0usize)), Err(CoordinateError::RangeError));
    assert_eq!(Coordinate::try_from((0usize, 8usize)), Err(CoordinateError::RangeError));
    assert_eq!(
        Coordinate::try_from((usize::MAX, usize::MAX)),
        Err(CoordinateError::RangeError)
    );
}

#[test]
fn wide_indices_give_the_same_coordinate_as_narrow_ones() {
    for row in 0usize..8 {
        for column in 0usize..8 {
            assert_eq!(
                Coordinate::try_from((row, column)),
                Coordinate::try_from((row as u8, column as u8))
            );
        }
    }
}

#[test]
fn an_offset_of_zero_changes_nothing() {
    for row in 0u8..8 {
        for column in 0u8..8 {
            let coordinate = Coordinate::try_from((row, column)).unwrap();
            assert_eq!(coordinate.checked_add_individual(0, 0), Ok(coordinate));
        }
    }
}

#[test]
fn offsets_add_to_row_and_column() {
    let start = Coordinate::try_from((3u8, 4u8)).unwrap();
    assert_eq!(
        start.checked_add_individual(2, -3),
        Ok(Coordinate::try_from((5u8, 1u8)).unwrap())
    );
    assert_eq!(
        start.checked_add_individual(-3, 3),
        Ok(Coordinate::try_from((0u8, 7u8)).unwrap())
    );
    assert_eq!(
        start.checked_add_individual(4, -4),
        Ok(Coordinate::try_from((7u8, 0u8)).unwrap())
    );
}

#[test]
fn offsets_that_leave_the_board_are_rejected_without_wrapping() {
    let start = Coordinate::try_from((3u8, 4u8)).unwrap();
    assert_eq!(start.checked_add_individual(-4, 0), Err(CoordinateError::RangeError));
    assert_eq!(start.checked_add_individual(5, 0), Err(CoordinateError::RangeError));
    assert_eq!(start.checked_add_individual(0, -5), Err(CoordinateError::RangeError));
    assert_eq!(start.checked_add_individual(0, 4), Err(CoordinateError::RangeError));
    assert_eq!(start.checked_add_individual(i8::MIN, i8::MIN), Err(CoordinateError::RangeError));
    assert_eq!(start.checked_add_individual(i8::MAX, i8::MAX), Err(CoordinateError::RangeError));
    let corner = Coordinate::try_from((7u8, 7u8)).unwrap();
    assert_eq!(corner.checked_add_individual(1, 0), Err(CoordinateError::RangeError));
    assert_eq!(corner.checked_add_individual(0, 1), Err(CoordinateError::RangeError));
}

#[test]
fn a1_is_the_bottom_left_square() {
    let coordinate = Coordinate::try_from("A1").unwrap();
    assert_eq!(coordinate.row(), 7);
    assert_eq!(coordinate.column(), 0);
}

#[test]
fn h8_is_the_top_right_square() {
    let coordinate = Coordinate::try_from("H8").unwrap();
    assert_eq!(coordinate.row(), 0);
    assert_eq!(coordinate.column(), 7);
}

#[test]
fn e2_is_row_six_column_four() {
    let coordinate = Coordinate::try_from("E2").unwrap();
    assert_eq!(coordinate.row(), 6);
    assert_eq!(coordinate.column(), 4);
    assert_eq!(coordinate, Coordinate::try_from((6u8, 4u8)).unwrap());
}

#[test]
fn notation_of_a_parsed_coordinate_is_the_text_again() {
    for file in ["A", "B", "C", "D", "E", "F", "G", "H"] {
        for rank in ["1", "2", "3", "4", "5", "6", "7", "8"] {
            let text = format!("{}{}", file, rank);
            let coordinate = Coordinate::try_from(text.as_str()).unwrap();
            assert_eq!(coordinate.to_notation(), text);
        }
    }
}

#[test]
fn small_letters_name_the_same_files() {
    assert_eq!(Coordinate::try_from("e2"), Coordinate::try_from("E2"));
    assert_eq!(Coordinate::try_from("a1"), Coordinate::try_from("A1"));
    assert_eq!(Coordinate::try_from("h8"), Coordinate::try_from("H8"));
    assert_eq!(Coordinate::try_from("e2").unwrap().to_notation(), "E2");
    assert_eq!(Coordinate::try_from("h8").unwrap().to_notation(), "H8");
}

#[test]
fn notation_names_file_then_rank() {
    assert_eq!(Coordinate::try_from((7u8, 0u8)).unwrap().to_notation(), "A1");
    assert_eq!(Coordinate::try_from((0u8, 7u8)).unwrap().to_notation(), "H8");
    assert_eq!(Coordinate::try_from((4u8, 3u8)).unwrap().to_notation(), "D4");
}

#[test]
fn malformed_notation_is_rejected() {
    for text in ["", "E", "2", "E22", "EE2", "I1", "i1", "A0", "A9", "1A", "@1", "`1", "A:", " A1", "A1 ", "\u{e9}2", "A\u{664}"] {
        assert_eq!(Coordinate::try_from(text), Err(CoordinateError::ParseError), "{:?}", text);
    }
}

#[test]
fn coordinates_are_ordered_by_row_then_column() {
    let a8 = Coordinate::try_from("A8").unwrap();
    let h8 = Coordinate::try_from("H8").unwrap();
    let a7 = Coordinate::try_from("A7").unwrap();
    assert!(a8 < h8);
    assert!(h8 < a7);
    assert!(a8 < a7);
    assert_eq!(a8, Coordinate::try_from((0u8, 0u8)).unwrap());
}
