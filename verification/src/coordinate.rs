//! Squares of the board and the coordinates that name them.

use crate::text::push_char;
use vstd::prelude::*;
use vstd::std_specs::convert::TryFromSpecImpl;

verus! {

/// A square named by its row and column, as a mathematical value. Rows are
/// counted from the top of the diagram (rank 8) and columns from the left
/// (file A); a square need not lie on the board.
pub struct Square {
    pub row: int,
    pub column: int,
}

impl Square {
    /// Whether the square lies on the 8×8 board.
    pub open spec fn on_board(self) -> bool {
        0 <= self.row < 8 && 0 <= self.column < 8
    }

    /// The square reached by going `rows` down and `columns` to the right.
    pub open spec fn offset(self, rows: int, columns: int) -> Square {
        Square { row: self.row + rows, column: self.column + columns }
    }

    /// The square reached by `steps` steps of `rows` down and `columns` to
    /// the right each.
    pub open spec fn step(self, rows: int, columns: int, steps: int) -> Square {
        self.offset(steps * rows, steps * columns)
    }

    /// The place of the square in reading order: row by row from the top,
    /// and from left to right within a row.
    pub open spec fn index(self) -> int {
        self.row * 8 + self.column
    }

    /// The two characters that name the square: file letter, then rank digit.
    pub open spec fn notation(self) -> Seq<char> {
        seq![('A' as int + self.column) as char, ('8' as int - self.row) as char]
    }
}

/// A number of steps times a unit length of -1, 0 or 1.
pub proof fn lemma_scaled(steps: int, unit: int)
    by (nonlinear_arith)
    requires
        -1 <= unit <= 1,
    ensures
        steps * unit == if unit == 1 {
            steps
        } else if unit == 0 {
            0
        } else {
            -steps
        },
{
}

/// The column that a file letter names, in either case.
pub open spec fn file_column(letter: char) -> Option<int> {
    if 'A' as int <= letter as int <= 'H' as int {
        Some(letter as int - 'A' as int)
    } else if 'a' as int <= letter as int <= 'h' as int {
        Some(letter as int - 'a' as int)
    } else {
        None
    }
}

/// The row that a rank digit names: rank 8 is row 0 and rank 1 is row 7.
pub open spec fn rank_row(digit: char) -> Option<int> {
    if '1' as int <= digit as int <= '8' as int {
        Some('8' as int - digit as int)
    } else {
        None
    }
}

/// The square that a text names, if it is a file letter followed by a rank
/// digit and nothing else.
pub open spec fn parse_notation(text: Seq<char>) -> Option<Square> {
    if text.len() == 2 && file_column(text[0]) is Some && rank_row(text[1]) is Some {
        Some(Square { row: rank_row(text[1])->0, column: file_column(text[0])->0 })
    } else {
        None
    }
}

/// A letter as a capital; any other character as it is.
pub open spec fn capital(character: char) -> char {
    if 'a' as int <= character as int <= 'z' as int {
        (character as int - 'a' as int + 'A' as int) as char
    } else {
        character
    }
}

/// A text with its letters as capitals.
pub open spec fn capitals(text: Seq<char>) -> Seq<char> {
    text.map_values(|character: char| capital(character))
}

/// Writing out the square that a text names gives the text again, with its
/// file letter as a capital.
pub proof fn lemma_notation_of_parsed(text: Seq<char>)
    requires
        parse_notation(text) is Some,
    ensures
        parse_notation(text)->0.on_board(),
        parse_notation(text)->0.notation() == capitals(text),
{
    let square = parse_notation(text)->0;
    assert(square.notation() =~= capitals(text));
}

/// Reading the notation of a square of the board gives the square again.
pub proof fn lemma_parse_of_notation(square: Square)
    requires
        square.on_board(),
    ensures
        parse_notation(square.notation()) == Some(square),
{
}

/// Why a coordinate could not be made.
#[derive(Debug, Clone, Copy, PartialEq, Eq, Structural)]
pub enum CoordinateError {
    /// The row or the column lies outside the board.
    RangeError,
    /// The text is not a file letter followed by a rank digit.
    ParseError,
}

/// A square of the board.
#[derive(Debug, Clone, Copy, PartialEq, Eq, PartialOrd, Ord, Hash, Structural)]
pub struct Coordinate {
    row: u8,
    column: u8,
}

/// The squares along one line of movement, nearest first.
pub type CoordinatePath = Vec<Coordinate>;

impl View for Coordinate {
    type V = Square;

    closed spec fn view(&self) -> Square {
        Square { row: self.row as int, column: self.column as int }
    }
}

impl Coordinate {
    #[verifier::type_invariant]
    closed spec fn within_board(self) -> bool {
        self.row < 8 && self.column < 8
    }

    /// The coordinate that stands for a square of the board.
    pub closed spec fn at(square: Square) -> Coordinate {
        Coordinate { row: square.row as u8, column: square.column as u8 }
    }

    /// What making a coordinate from a row and a column gives.
    pub open spec fn from_indices(row: int, column: int) -> Result<Coordinate, CoordinateError> {
        let square = Square { row, column };
        if square.on_board() {
            Ok(Coordinate::at(square))
        } else {
            Err(CoordinateError::RangeError)
        }
    }

    /// What making a coordinate from a text gives.
    pub open spec fn from_notation(text: Seq<char>) -> Result<Coordinate, CoordinateError> {
        match parse_notation(text) {
            Some(square) => Ok(Coordinate::at(square)),
            None => Err(CoordinateError::ParseError),
        }
    }

    /// Making a coordinate fails with `RangeError` where the row or the
    /// column lies outside 0 to 7. Otherwise it gives the coordinate of that
    /// row and column, and an offset of zero rows and zero columns leads
    /// from that coordinate to itself.
    pub proof fn lemma_made_within_range(row: int, column: int)
        ensures
            !(0 <= row <= 7 && 0 <= column <= 7) ==> Coordinate::from_indices(row, column) == Err::<
                Coordinate,
                CoordinateError,
            >(CoordinateError::RangeError),
            0 <= row <= 7 && 0 <= column <= 7 ==> (Coordinate::from_indices(row, column) matches Ok(
                made,
            ) && made@ == (Square { row, column }) && Coordinate::from_indices(
                made@.row + 0,
                made@.column + 0,
            ) == Ok::<Coordinate, CoordinateError>(made)),
    {
    }

    /// The row, counted from the top of the diagram.
    pub fn row(&self) -> (row: usize)
        ensures
            row == self@.row,
            self@.on_board(),
    {
        proof {
            use_type_invariant(self);
        }
        self.row as usize
    }

    /// The column, counted from the left of the diagram.
    pub fn column(&self) -> (column: usize)
        ensures
            column == self@.column,
            self@.on_board(),
    {
        proof {
            use_type_invariant(self);
        }
        self.column as usize
    }

    /// The coordinate in algebraic notation: the file as a capital letter,
    /// then the rank.
    pub fn to_notation(&self) -> (text: String)
        ensures
            text@ == self@.notation(),
    {
        proof {
            use_type_invariant(self);
        }
        let mut text: String = String::new();
        push_char(&mut text, ('A' as u8 + self.column) as char);
        push_char(&mut text, ('8' as u8 - self.row) as char);
        assert(text@ =~= self@.notation());
        text
    }

    /// The coordinate `row_offset` rows further down and `column_offset`
    /// columns further right, or `RangeError` where that leaves the board.
    /// An offset of zero rows and zero columns gives the coordinate itself.
    pub fn checked_add_individual(&self, row_offset: i8, column_offset: i8) -> (result: Result<
        Coordinate,
        CoordinateError,
    >)
        ensures
            match result {
                Ok(moved) => moved@ == self@.offset(row_offset as int, column_offset as int)
                    && moved@.on_board(),
                Err(error) => error == CoordinateError::RangeError && !self@.offset(
                    row_offset as int,
                    column_offset as int,
                ).on_board(),
            },
            result == Coordinate::from_indices(
                self@.row + row_offset,
                self@.column + column_offset,
            ),
            row_offset == 0 && column_offset == 0 ==> result == Ok::<Coordinate, CoordinateError>(
                *self,
            ),
    {
        proof {
            use_type_invariant(self);
        }
        let row: i16 = self.row as i16 + row_offset as i16;
        let column: i16 = self.column as i16 + column_offset as i16;
        if 0 <= row && row < 8 && 0 <= column && column < 8 {
            Ok(Coordinate { row: row as u8, column: column as u8 })
        } else {
            Err(CoordinateError::RangeError)
        }
    }
}

impl TryFromSpecImpl<(u8, u8)> for Coordinate {
    open spec fn obeys_try_from_spec() -> bool {
        true
    }

    open spec fn try_from_spec(pair: (u8, u8)) -> Result<Coordinate, CoordinateError> {
        Coordinate::from_indices(pair.0 as int, pair.1 as int)
    }
}

impl TryFrom<(u8, u8)> for Coordinate {
    type Error = CoordinateError;

    /// Makes the coordinate of a row and a column, each from 0 to 7.
    fn try_from(pair: (u8, u8)) -> (result: Result<Coordinate, CoordinateError>)
        ensures
            match result {
                Ok(made) => made@ == (Square { row: pair.0 as int, column: pair.1 as int })
                    && made@.on_board(),
                Err(error) => error == CoordinateError::RangeError && !(Square {
                    row: pair.0 as int,
                    column: pair.1 as int,
                }).on_board(),
            },
    {
        if pair.0 < 8 && pair.1 < 8 {
            Ok(Coordinate { row: pair.0, column: pair.1 })
        } else {
            Err(CoordinateError::RangeError)
        }
    }
}

impl TryFromSpecImpl<(usize, usize)> for Coordinate {
    open spec fn obeys_try_from_spec() -> bool {
        true
    }

    open spec fn try_from_spec(pair: (usize, usize)) -> Result<Coordinate, CoordinateError> {
        Coordinate::from_indices(pair.0 as int, pair.1 as int)
    }
}

impl TryFrom<(usize, usize)> for Coordinate {
    type Error = CoordinateError;

    /// Makes the coordinate of a row and a column, each from 0 to 7.
    fn try_from(pair: (usize, usize)) -> (result: Result<Coordinate, CoordinateError>)
        ensures
            match result {
                Ok(made) => made@ == (Square { row: pair.0 as int, column: pair.1 as int })
                    && made@.on_board(),
                Err(error) => error == CoordinateError::RangeError && !(Square {
                    row: pair.0 as int,
                    column: pair.1 as int,
                }).on_board(),
            },
    {
        if pair.0 < 8 && pair.1 < 8 {
            Ok(Coordinate { row: pair.0 as u8, column: pair.1 as u8 })
        } else {
            Err(CoordinateError::RangeError)
        }
    }
}

impl<'a> TryFromSpecImpl<&'a str> for Coordinate {
    open spec fn obeys_try_from_spec() -> bool {
        true
    }

    open spec fn try_from_spec(text: &'a str) -> Result<Coordinate, CoordinateError> {
        Coordinate::from_notation(text@)
    }
}

impl<'a> TryFrom<&'a str> for Coordinate {
    type Error = CoordinateError;

    /// Reads a coordinate in algebraic notation, such as `E2`.
    fn try_from(text: &'a str) -> (result: Result<Coordinate, CoordinateError>)
        ensures
            match result {
                Ok(made) => parse_notation(text@) == Some(made@) && made@.on_board(),
                Err(error) => error == CoordinateError::ParseError && parse_notation(text@)
                    is None,
            },
    {
        if text.unicode_len() != 2 {
            return Err(CoordinateError::ParseError);
        }
        let letter = text.get_char(0);
        let digit = text.get_char(1);
        let column: u8 = if 'A' <= letter && letter <= 'H' {
            letter as u8 - 'A' as u8
        } else if 'a' <= letter && letter <= 'h' {
            letter as u8 - 'a' as u8
        } else {
            return Err(CoordinateError::ParseError);
        };
        if '1' <= digit && digit <= '8' {
            Ok(Coordinate { row: '8' as u8 - digit as u8, column })
        } else {
            Err(CoordinateError::ParseError)
        }
    }
}

} // verus!
