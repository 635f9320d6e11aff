//! The board: where the pieces stand, and how they are moved.

use crate::coordinate::{Coordinate, Square};
use crate::diagram::file_labels;
use crate::legal_moves::LegalMoves;
use crate::piece::{Piece, PieceClass, PieceView, Team};
use crate::rules::{back_rank, initial_piece, lemma_move_keeps_every_piece, BoardView};
use crate::text::push_char;
use vstd::prelude::*;
use vstd::string::StringExecFns;

verus! {

/// Why a move, or a question about one, was refused.
#[derive(Debug, Clone, Copy, PartialEq, Eq, Structural)]
pub enum BoardError {
    /// No piece stands on the square that the move starts from.
    EmptyCoordinate,
    /// The piece may not move to the square that was asked for.
    IllegalMove,
}

/// A chess board with its pieces, and the pieces that were captured.
#[derive(Debug)]
pub struct Board {
    /// The squares by row and column; row 0 is rank 8 and column 0 is file A.
    map: [[Option<Piece>; 8]; 8],
    /// The captured pieces, in the order of their capture.
    graveyard: Vec<Piece>,
}

/// A piece, if there is one, as a mathematical value.
pub open spec fn piece_view(piece: Option<Piece>) -> Option<PieceView> {
    match piece {
        Some(piece) => Some(piece@),
        None => None,
    }
}

/// A list of pieces as mathematical values.
pub open spec fn pieces_view(pieces: Seq<Piece>) -> Seq<PieceView> {
    pieces.map_values(|piece: Piece| piece@)
}

impl View for Board {
    type V = BoardView;

    closed spec fn view(&self) -> BoardView {
        BoardView {
            squares: Map::new(
                |square: Square| square.on_board() && self.map[square.row][square.column] is Some,
                |square: Square| self.map[square.row][square.column]->0@,
            ),
            graveyard: pieces_view(self.graveyard@),
        }
    }
}

impl Board {
    /// Creates a board with the pieces where they stand at the start of a
    /// game: Black's back rank on rank 8 and pawns on rank 7, White's pawns
    /// on rank 2 and back rank on rank 1. On both back ranks the queen stands
    /// on file D and the king on file E.
    pub fn new() -> (board: Self)
        ensures
            board@ == BoardView::initial(),
    {
        let mut board: Self = Self::default();
        let classes: [PieceClass; 8] = [
            PieceClass::Rook,
            PieceClass::Knight,
            PieceClass::Bishop,
            PieceClass::Queen,
            PieceClass::King,
            PieceClass::Bishop,
            PieceClass::Knight,
            PieceClass::Rook,
        ];
        assert(classes@ =~= back_rank());
        let back_ranks: [(u8, Team); 2] = [(0, Team::Black), (7, Team::White)];
        let mut side: usize = 0;
        while side < 2
            invariant
                side <= 2,
                classes@ == back_rank(),
                back_ranks@ == seq![(0u8, Team::Black), (7u8, Team::White)],
                board@.graveyard == Seq::<PieceView>::empty(),
                forall|square: Square|
                    #![trigger board@.piece_at(square)]
                    board@.piece_at(square) == set_up(square, side as int, 0, 0, 0),
            decreases 2 - side,
        {
            let (row_index, team): (u8, Team) = back_ranks[side];
            let mut i: u8 = 0;
            while i < 8
                invariant
                    i <= 8,
                    side < 2,
                    classes@ == back_rank(),
                    row_index == if side == 0 { 0u8 } else { 7u8 },
                    team == if side == 0 { Team::Black } else { Team::White },
                    board@.graveyard == Seq::<PieceView>::empty(),
                    forall|square: Square|
                        #![trigger board@.piece_at(square)]
                        board@.piece_at(square) == set_up(square, side as int, i as int, 0, 0),
                decreases 8 - i,
            {
                let item_class: PieceClass = classes[i as usize];
                let coordinate: Coordinate = Coordinate::try_from((row_index, i)).unwrap();
                let ghost before = board@;
                board.set_piece(&coordinate, Some(Piece::new(item_class, team)));
                i += 1;
                proof {
                    assert forall|square: Square| #![trigger board@.piece_at(square)]
                        board@.piece_at(square) == set_up(square, side as int, i as int, 0, 0) by {
                        assert(before.piece_at(square) == set_up(
                            square,
                            side as int,
                            i as int - 1,
                            0,
                            0,
                        ));
                    }
                }
            }
            side += 1;
        }
        let pawn_ranks: [(u8, Team); 2] = [(1, Team::Black), (6, Team::White)];
        let mut side: usize = 0;
        while side < 2
            invariant
                side <= 2,
                pawn_ranks@ == seq![(1u8, Team::Black), (6u8, Team::White)],
                board@.graveyard == Seq::<PieceView>::empty(),
                forall|square: Square|
                    #![trigger board@.piece_at(square)]
                    board@.piece_at(square) == set_up(square, 2, 0, side as int, 0),
            decreases 2 - side,
        {
            let (row_index, team): (u8, Team) = pawn_ranks[side];
            let mut i: u8 = 0;
            while i < 8
                invariant
                    i <= 8,
                    side < 2,
                    row_index == if side == 0 { 1u8 } else { 6u8 },
                    team == if side == 0 { Team::Black } else { Team::White },
                    board@.graveyard == Seq::<PieceView>::empty(),
                    forall|square: Square|
                        #![trigger board@.piece_at(square)]
                        board@.piece_at(square) == set_up(square, 2, 0, side as int, i as int),
                decreases 8 - i,
            {
                let coordinate: Coordinate = Coordinate::try_from((row_index, i)).unwrap();
                let ghost before = board@;
                board.set_piece(&coordinate, Some(Piece::new(PieceClass::Pawn, team)));
                i += 1;
                proof {
                    assert forall|square: Square| #![trigger board@.piece_at(square)]
                        board@.piece_at(square) == set_up(square, 2, 0, side as int, i as int) by {
                        assert(before.piece_at(square) == set_up(
                            square,
                            2,
                            0,
                            side as int,
                            i as int - 1,
                        ));
                    }
                }
            }
            side += 1;
        }
        proof {
            let initial = BoardView::initial();
            assert forall|square: Square| #![trigger board@.squares.dom().contains(square)]
                board@.squares.dom().contains(square) == initial.squares.dom().contains(
                    square,
                ) by {
                assert(board@.piece_at(square) == set_up(square, 2, 0, 2, 0));
            }
            assert forall|square: Square| #![trigger board@.squares[square]]
                board@.squares.dom().contains(square) implies board@.squares[square]
                == initial.squares[square] by {
                assert(board@.piece_at(square) == set_up(square, 2, 0, 2, 0));
            }
            assert(board@.squares =~= initial.squares);
        }
        board
    }

    /// The piece on a square, if there is one.
    pub fn get_piece(&self, coordinate: &Coordinate) -> (piece: Option<Piece>)
        ensures
            piece_view(piece) == self@.piece_at(coordinate@),
            coordinate@.on_board(),
    {
        self.map[coordinate.row()][coordinate.column()]
    }

    /// The squares by row and column: row 0 is rank 8, column 0 is file A.
    pub fn map(&self) -> (map: [[Option<Piece>; 8]; 8])
        ensures
            forall|square: Square|
                square.on_board() ==> piece_view(#[trigger] map[square.row][square.column])
                    == self@.piece_at(square),
    {
        self.map
    }

    /// The captured pieces, in the order of their capture.
    pub fn graveyard(&self) -> (graveyard: &Vec<Piece>)
        ensures
            pieces_view(graveyard@) == self@.graveyard,
    {
        &self.graveyard
    }

    /// The legal moves of the piece on a coordinate: every square that the
    /// piece may move to, and with it the coordinate of the piece that the
    /// move captures, if it captures one. Where no piece stands on the
    /// coordinate, the answer is `EmptyCoordinate`.
    pub fn piece_legal_moves(&self, coordinate: &Coordinate) -> (result: Result<
        LegalMoves,
        BoardError,
    >)
        ensures
            match result {
                Ok(legal_moves) => self@.piece_at(coordinate@) is Some && legal_moves@
                    == self@.legal_moves(coordinate@),
                Err(error) => error == BoardError::EmptyCoordinate && self@.piece_at(coordinate@)
                    is None,
            },
    {
        let piece: Piece = match self.get_piece(coordinate) {
            Some(piece) => piece,
            None => {
                return Err(BoardError::EmptyCoordinate);
            },
        };
        let mut legal_moves: LegalMoves = LegalMoves::new();
        match piece.class() {
            PieceClass::Knight => {
                self.knight_moves(coordinate, piece, &mut legal_moves);
            },
            PieceClass::Bishop | PieceClass::Rook | PieceClass::Queen | PieceClass::King => {
                self.sliding_moves(coordinate, piece, &mut legal_moves);
            },
            PieceClass::Pawn => {
                self.pawn_moves(coordinate, piece, &mut legal_moves);
            },
        }
        Ok(legal_moves)
    }

    /// Moves the piece on `from` to `to`, if that is one of its legal moves.
    /// Where no piece stands on `from` the answer is `EmptyCoordinate`, and
    /// where the piece may not move to `to` it is `IllegalMove`; in both
    /// cases the board stays exactly as it was. Otherwise a piece on `to`
    /// goes to the graveyard, and the piece moves from `from` to `to` and
    /// counts one more move. Either way no piece is lost: the board and the
    /// graveyard together hold as many pieces as before, and the graveyard
    /// keeps what it held.
    pub fn move_piece(&mut self, from: &Coordinate, to: &Coordinate) -> (result: Result<
        (),
        BoardError,
    >)
        ensures
            final(self)@.total_pieces() == old(self)@.total_pieces(),
            old(self)@.graveyard.is_prefix_of(final(self)@.graveyard),
            match result {
                Ok(()) => old(self)@.may_move(from@, to@) && final(self)@ == old(
                    self,
                )@.after_move(from@, to@),
                Err(error) => {
                    &&& *final(self) == *old(self)
                    &&& !old(self)@.may_move(from@, to@)
                    &&& error == if old(self)@.is_free(from@) {
                        BoardError::EmptyCoordinate
                    } else {
                        BoardError::IllegalMove
                    }
                },
            },
    {
        // Without a piece on `from` there is nothing to move.
        let piece: Piece = match self.get_piece(from) {
            Some(piece) => piece,
            None => {
                return Err(BoardError::EmptyCoordinate);
            },
        };

        // The piece is there, so its legal moves can be had.
        let legal_moves: LegalMoves = self.piece_legal_moves(from).unwrap();

        if legal_moves.contains_key(to) {
            // A captured piece leaves the board first.
            match legal_moves.get(to) {
                Some(Some(to_destroy_coordinate)) => {
                    match self.remove_piece(&to_destroy_coordinate) {
                        Ok(()) => {},
                        Err(error) => {
                            return Err(error);
                        },
                    }
                },
                _ => {},
            }

            // Then the piece itself goes from `from` to `to`.
            self.set_piece(to, Some(piece.moved()));
            self.set_piece(from, None);
            proof {
                let before = old(self)@;
                assert(to@ != from@);
                assert(self@.squares =~= before.after_move(from@, to@).squares);
                assert(self@.graveyard =~= before.after_move(from@, to@).graveyard);
                old(self).lemma_view_well_formed();
                lemma_move_keeps_every_piece(before, from@, to@);
            }

            Ok(())
        } else {
            Err(BoardError::IllegalMove)
        }
    }

    /// The board as a diagram: a row of text for each rank from 8 down to
    /// 1, with the rank on the left, a glyph for each piece and a dot for
    /// each free square; below them a border and the letters of the files.
    pub fn render(&self) -> (text: String)
        ensures
            text@ == self@.diagram(),
    {
        let mut text: String = String::new();
        let mut row: u8 = 0;
        while row < 8
            invariant
                row <= 8,
                text@ == self@.diagram_rows(row as int),
            decreases 8 - row,
        {
            let ghost above = text@;
            push_char(&mut text, ('8' as u8 - row) as char);
            text.append(" \u{2503} ");
            assert(text@ =~= above + BoardView::diagram_label(row as int));
            let mut column: u8 = 0;
            while column < 8
                invariant
                    row < 8,
                    column <= 8,
                    text@ == above + BoardView::diagram_label(row as int) + self@.diagram_cells(
                        row as int,
                        column as int,
                    ),
                decreases 8 - column,
            {
                let ghost square = Square { row: row as int, column: column as int };
                let item: Option<Piece> = self.map[row as usize][column as usize];
                assert(piece_view(item) == self@.piece_at(square));
                let glyph: char = match item {
                    Some(item) => item.glyph(),
                    None => '.',
                };
                push_char(&mut text, glyph);
                push_char(&mut text, ' ');
                column += 1;
                assert(text@ =~= above + BoardView::diagram_label(row as int)
                    + self@.diagram_cells(row as int, column as int));
            }
            push_char(&mut text, '\n');
            row += 1;
            assert(text@ =~= self@.diagram_rows(row as int));
        }
        text.append(
            "  \u{2517}\u{2501}\u{2501}\u{2501}\u{2501}\u{2501}\u{2501}\u{2501}\u{2501}\u{2501}\u{2501}\u{2501}\u{2501}\u{2501}\u{2501}\u{2501}\u{2501}\n",
        );
        text.append("    ");
        let ghost headed = text@;
        let mut file: u8 = 0;
        while file < 8
            invariant
                file <= 8,
                text@ == headed + file_labels(file as int),
            decreases 8 - file,
        {
            push_char(&mut text, ('A' as u8 + file) as char);
            push_char(&mut text, ' ');
            file += 1;
            assert(text@ =~= headed + file_labels(file as int));
        }
        text
    }

    /// Every piece of a board stands on a square of the board.
    pub proof fn lemma_view_well_formed(&self)
        ensures
            self@.well_formed(),
    {
    }

    /// Puts a piece on a square, or clears the square. Every other square
    /// and the graveyard stay as they were; a piece that is overwritten is
    /// not buried.
    fn set_piece(&mut self, coordinate: &Coordinate, piece: Option<Piece>)
        ensures
            final(self)@.graveyard == old(self)@.graveyard,
            final(self)@.squares == match piece {
                Some(piece) => old(self)@.squares.insert(coordinate@, piece@),
                None => old(self)@.squares.remove(coordinate@),
            },
            final(self)@.piece_at(coordinate@) == piece_view(piece),
            forall|other: Square|
                other != coordinate@ ==> #[trigger] final(self)@.piece_at(other) == old(
                    self,
                )@.piece_at(other),
    {
        self.map[coordinate.row()][coordinate.column()] = piece;
        assert(self@.squares =~= match piece {
            Some(piece) => old(self)@.squares.insert(coordinate@, piece@),
            None => old(self)@.squares.remove(coordinate@),
        });
    }
    /// Takes the piece on a square off the board and into the graveyard, or
    /// answers `EmptyCoordinate` where the square holds none.
    fn remove_piece(&mut self, coordinate: &Coordinate) -> (result: Result<(), BoardError>)
        ensures
            match result {
                Ok(()) => old(self)@.squares.contains_key(coordinate@) && final(self)@.squares
                    == old(self)@.squares.remove(coordinate@) && final(self)@.graveyard == old(
                    self,
                )@.graveyard.push(old(self)@.squares[coordinate@]),
                Err(error) => error == BoardError::EmptyCoordinate && old(self)@.is_free(
                    coordinate@,
                ) && *final(self) == *old(self),
            },
    {
        let piece: Option<Piece> = self.get_piece(coordinate);

        match piece {
            Some(piece) => {
                let ghost buried = self.graveyard@;
                self.graveyard.push(piece);
                assert(pieces_view(self.graveyard@) =~= pieces_view(buried).push(piece@));
                self.set_piece(coordinate, None);
                Ok(())
            },
            None => Err(BoardError::EmptyCoordinate),
        }
    }
}

/// The piece that has been set up on a square when the back ranks of the
/// first `sides` sides are complete and the next one is filled up to
/// `columns`, and likewise `pawn_sides` and `pawn_columns` for the pawns.
spec fn set_up(
    square: Square,
    sides: int,
    columns: int,
    pawn_sides: int,
    pawn_columns: int,
) -> Option<PieceView> {
    let reached = if square.row == 0 {
        sides > 0 || (sides == 0 && square.column < columns)
    } else if square.row == 7 {
        sides > 1 || (sides == 1 && square.column < columns)
    } else if square.row == 1 {
        pawn_sides > 0 || (pawn_sides == 0 && square.column < pawn_columns)
    } else if square.row == 6 {
        pawn_sides > 1 || (pawn_sides == 1 && square.column < pawn_columns)
    } else {
        false
    };
    if reached {
        initial_piece(square)
    } else {
        None
    }
}

impl Default for Board {
    /// A board without pieces.
    fn default() -> (board: Self)
        ensures
            board@.squares == Map::<Square, PieceView>::empty(),
            board@.graveyard == Seq::<PieceView>::empty(),
    {
        let row: [Option<Piece>; 8] = [None, None, None, None, None, None, None, None];
        let map: [[Option<Piece>; 8]; 8] = [row, row, row, row, row, row, row, row];
        let board = Self { map, graveyard: Vec::new() };
        assert forall|square: Square| !(#[trigger] board@.squares.dom().contains(square)) by {
            if square.on_board() {
                assert(board.map@[square.row] == row);
                assert(row@[square.column] is None);
            }
        }
        assert(board@.squares =~= Map::<Square, PieceView>::empty());
        assert(board@.graveyard =~= Seq::<PieceView>::empty());
        board
    }
}

} // verus!
