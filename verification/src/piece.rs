//! Pieces: their class, their side and how often they have moved.

use vstd::prelude::*;

verus! {

/// The class of a chess piece.
#[derive(Debug, Clone, Copy, PartialEq, Eq, Structural)]
pub enum PieceClass {
    King,
    Queen,
    Rook,
    Bishop,
    Knight,
    Pawn,
}

/// The two sides of a game.
#[derive(Debug, Clone, Copy, PartialEq, Eq, Structural)]
pub enum Team {
    Black,
    White,
}

/// A piece of one side, with the number of times it has been moved.
#[derive(Debug, Clone, Copy, PartialEq, Eq, Structural)]
pub struct Piece {
    class: PieceClass,
    team: Team,
    number_of_moves: u8,
}

/// What a piece is, as a mathematical value.
pub struct PieceView {
    pub class: PieceClass,
    pub team: Team,
    pub moves: nat,
}

impl PieceView {
    /// A piece that was never moved.
    pub open spec fn fresh(class: PieceClass, team: Team) -> PieceView {
        PieceView { class, team, moves: 0 }
    }

    /// Whether the piece has never been moved.
    pub open spec fn is_first_move(self) -> bool {
        self.moves == 0
    }

    /// The piece after one more relocation. The counter stops at `u8::MAX`,
    /// so a piece that has moved never looks unmoved again.
    pub open spec fn moved(self) -> PieceView {
        PieceView {
            moves: if self.moves < u8::MAX {
                self.moves + 1
            } else {
                self.moves
            },
            ..self
        }
    }

    /// The glyph that stands for the piece in a diagram.
    pub open spec fn glyph(self) -> char {
        match (self.class, self.team) {
            (PieceClass::King, Team::Black) => '\u{265A}',
            (PieceClass::King, Team::White) => '\u{2654}',
            (PieceClass::Queen, Team::Black) => '\u{265B}',
            (PieceClass::Queen, Team::White) => '\u{2655}',
            (PieceClass::Rook, Team::Black) => '\u{265C}',
            (PieceClass::Rook, Team::White) => '\u{2656}',
            (PieceClass::Bishop, Team::Black) => '\u{265D}',
            (PieceClass::Bishop, Team::White) => '\u{2657}',
            (PieceClass::Knight, Team::Black) => '\u{265E}',
            (PieceClass::Knight, Team::White) => '\u{2658}',
            (PieceClass::Pawn, Team::Black) => '\u{265F}',
            (PieceClass::Pawn, Team::White) => '\u{2659}',
        }
    }
}

impl View for Piece {
    type V = PieceView;

    closed spec fn view(&self) -> PieceView {
        PieceView { class: self.class, team: self.team, moves: self.number_of_moves as nat }
    }
}

impl Piece {
    /// Creates a piece that has not moved yet.
    pub fn new(piece_class: PieceClass, piece_team: Team) -> (piece: Self)
        ensures
            piece@ == PieceView::fresh(piece_class, piece_team),
    {
        Self { class: piece_class, team: piece_team, number_of_moves: 0 }
    }

    pub fn class(&self) -> (class: PieceClass)
        ensures
            class == self@.class,
    {
        self.class
    }

    pub fn team(&self) -> (team: Team)
        ensures
            team == self@.team,
    {
        self.team
    }

    pub fn number_of_moves(&self) -> (moves: u8)
        ensures
            moves == self@.moves,
    {
        self.number_of_moves
    }

    pub fn is_first_move(&self) -> (first: bool)
        ensures
            first == self@.is_first_move(),
    {
        return self.number_of_moves == 0;
    }

    /// The glyph that stands for the piece in a diagram.
    pub fn glyph(&self) -> (glyph: char)
        ensures
            glyph == self@.glyph(),
    {
        match self.class {
            PieceClass::King => match self.team {
                Team::Black => '\u{265A}',
                Team::White => '\u{2654}',
            },
            PieceClass::Queen => match self.team {
                Team::Black => '\u{265B}',
                Team::White => '\u{2655}',
            },
            PieceClass::Rook => match self.team {
                Team::Black => '\u{265C}',
                Team::White => '\u{2656}',
            },
            PieceClass::Bishop => match self.team {
                Team::Black => '\u{265D}',
                Team::White => '\u{2657}',
            },
            PieceClass::Knight => match self.team {
                Team::Black => '\u{265E}',
                Team::White => '\u{2658}',
            },
            PieceClass::Pawn => match self.team {
                Team::Black => '\u{265F}',
                Team::White => '\u{2659}',
            },
        }
    }

    /// The same piece after one more relocation.
    pub(crate) fn moved(self) -> (piece: Self)
        ensures
            piece@ == self@.moved(),
    {
        let count: u8 = if self.number_of_moves < u8::MAX {
            self.number_of_moves + 1
        } else {
            self.number_of_moves
        };
        Self { class: self.class, team: self.team, number_of_moves: count }
    }
}

} // verus!
