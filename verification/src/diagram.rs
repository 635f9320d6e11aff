//! The board as a diagram of eight rows of text.

use crate::coordinate::Square;
use crate::rules::BoardView;
use vstd::prelude::*;

verus! {

/// The letters of the first `count` files, each followed by a blank.
pub open spec fn file_labels(count: int) -> Seq<char>
    decreases count,
{
    if count <= 0 {
        Seq::empty()
    } else {
        file_labels(count - 1) + seq![('A' as int + count - 1) as char, ' ']
    }
}

impl BoardView {
    /// The character that stands for a square: the glyph of its piece, or a
    /// dot where it is free.
    pub open spec fn glyph_at(self, square: Square) -> char {
        match self.piece_at(square) {
            Some(piece) => piece.glyph(),
            None => '.',
        }
    }

    /// The first `count` squares of a row, each followed by a blank.
    pub open spec fn diagram_cells(self, row: int, count: int) -> Seq<char>
        decreases count,
    {
        if count <= 0 {
            Seq::empty()
        } else {
            self.diagram_cells(row, count - 1) + seq![
                self.glyph_at(Square { row, column: count - 1 }),
                ' ',
            ]
        }
    }

    /// The label of a row: its rank and a bar.
    pub open spec fn diagram_label(row: int) -> Seq<char> {
        seq![('8' as int - row) as char] + " \u{2503} "@
    }

    /// The first `count` rows, each with its label and ended by a line
    /// break.
    pub open spec fn diagram_rows(self, count: int) -> Seq<char>
        decreases count,
    {
        if count <= 0 {
            Seq::empty()
        } else {
            self.diagram_rows(count - 1) + Self::diagram_label(count - 1) + self.diagram_cells(
                count - 1,
                8,
            ) + seq!['\n']
        }
    }

    /// The whole diagram: the eight rows from rank 8 down to rank 1, a
    /// border, and the letters of the files.
    pub open spec fn diagram(self) -> Seq<char> {
        self.diagram_rows(8)
            + "  \u{2517}\u{2501}\u{2501}\u{2501}\u{2501}\u{2501}\u{2501}\u{2501}\u{2501}\u{2501}\u{2501}\u{2501}\u{2501}\u{2501}\u{2501}\u{2501}\u{2501}\n"@
            + "    "@ + file_labels(8)
    }
}

} // verus!
