//! The movement rules, stated over the board as a mathematical value.
//!
//! The rules are the simple ones: a piece moves as its class allows, may not
//! land on a piece of its own side and captures what it lands on. Nothing is
//! said of check, castling, en passant, promotion or whose turn it is.

use crate::coordinate::{lemma_scaled, Square};
use crate::piece::{PieceClass, PieceView, Team};
use vstd::math::abs;
use vstd::prelude::*;
use vstd::relations::injective_on;
use vstd::set_lib::{lemma_int_range, lemma_len_subset, lemma_map_size, set_int_range};

verus! {

/// A board as a mathematical value: the pieces by the square they stand on,
/// and the captured pieces in the order of their capture.
pub struct BoardView {
    pub squares: Map<Square, PieceView>,
    pub graveyard: Seq<PieceView>,
}

/// The row offset of one step forward: White's pawns advance toward row 0,
/// Black's toward row 7.
pub open spec fn forward(team: Team) -> int {
    match team {
        Team::Black => 1,
        Team::White => -1,
    }
}

/// Whether an offset is a knight's jump.
pub open spec fn is_knight_jump(rows: int, columns: int) -> bool {
    (abs(rows) == 1 && abs(columns) == 2) || (abs(rows) == 2 && abs(columns) == 1)
}

/// Whether a sliding piece of the class moves in the direction given by one
/// step of `rows` and `columns`.
pub open spec fn is_direction(class: PieceClass, rows: int, columns: int) -> bool {
    match class {
        PieceClass::Bishop => abs(rows) == 1 && abs(columns) == 1,
        PieceClass::Rook => abs(rows) + abs(columns) == 1,
        PieceClass::Queen | PieceClass::King => abs(rows) <= 1 && abs(columns) <= 1 && (rows != 0
            || columns != 0),
        PieceClass::Knight | PieceClass::Pawn => false,
    }
}

/// How many steps a sliding piece of the class may take along a direction.
pub open spec fn reach(class: PieceClass) -> int {
    match class {
        PieceClass::King => 1,
        PieceClass::Queen | PieceClass::Rook | PieceClass::Bishop => 7,
        PieceClass::Knight | PieceClass::Pawn => 0,
    }
}

/// The classes on a back rank at the start, from file A to file H: the
/// queen stands on file D and the king on file E.
pub open spec fn back_rank() -> Seq<PieceClass> {
    seq![
        PieceClass::Rook,
        PieceClass::Knight,
        PieceClass::Bishop,
        PieceClass::Queen,
        PieceClass::King,
        PieceClass::Bishop,
        PieceClass::Knight,
        PieceClass::Rook,
    ]
}

/// The piece that stands on a square at the start: Black's back rank on row
/// 0 and pawns on row 1, White's pawns on row 6 and back rank on row 7.
pub open spec fn initial_piece(square: Square) -> Option<PieceView> {
    if !square.on_board() {
        None
    } else if square.row == 0 {
        Some(PieceView::fresh(back_rank()[square.column], Team::Black))
    } else if square.row == 1 {
        Some(PieceView::fresh(PieceClass::Pawn, Team::Black))
    } else if square.row == 6 {
        Some(PieceView::fresh(PieceClass::Pawn, Team::White))
    } else if square.row == 7 {
        Some(PieceView::fresh(back_rank()[square.column], Team::White))
    } else {
        None
    }
}

impl BoardView {
    /// The board at the start of a game.
    pub open spec fn initial() -> BoardView {
        BoardView {
            squares: Map::new(
                |square: Square| initial_piece(square) is Some,
                |square: Square| initial_piece(square)->0,
            ),
            graveyard: Seq::empty(),
        }
    }

    /// Every piece stands on a square of the board.
    pub open spec fn well_formed(self) -> bool {
        forall|square: Square| self.squares.contains_key(square) ==> square.on_board()
    }

    /// The piece on a square, if there is one.
    pub open spec fn piece_at(self, square: Square) -> Option<PieceView> {
        if self.squares.contains_key(square) {
            Some(self.squares[square])
        } else {
            None
        }
    }

    /// Whether no piece stands on the square.
    pub open spec fn is_free(self, square: Square) -> bool {
        !self.squares.contains_key(square)
    }

    /// Whether a piece of the given side stands on the square.
    pub open spec fn holds(self, team: Team, square: Square) -> bool {
        self.squares.contains_key(square) && self.squares[square].team == team
    }

    /// Whether a piece of the given side may land on the square: it lies on
    /// the board and holds no piece of the same side.
    pub open spec fn may_land(self, team: Team, to: Square) -> bool {
        to.on_board() && !self.holds(team, to)
    }

    /// Whether the squares before the given step of a ray are all free.
    pub open spec fn clear_before(self, from: Square, rows: int, columns: int, steps: int) -> bool {
        forall|k: int| 1 <= k < steps ==> self.is_free(#[trigger] from.step(rows, columns, k))
    }

    /// Whether a piece of the given side reaches `to` along the ray that
    /// leaves `from` in the direction of `rows` and `columns`: `to` lies on
    /// the ray within `limit` steps, the squares before it are free and the
    /// piece may land on it.
    pub open spec fn ray_reaches(
        self,
        from: Square,
        team: Team,
        rows: int,
        columns: int,
        limit: int,
        to: Square,
    ) -> bool {
        &&& self.may_land(team, to)
        &&& exists|steps: int|
            1 <= steps <= limit && to == #[trigger] from.step(rows, columns, steps)
                && self.clear_before(from, rows, columns, steps)
    }

    /// Whether a sliding piece on `from` reaches `to` along one of its rays.
    pub open spec fn slides_to(self, from: Square, piece: PieceView, to: Square) -> bool {
        exists|rows: int, columns: int|
            is_direction(piece.class, rows, columns) && #[trigger] self.ray_reaches(
                from,
                piece.team,
                rows,
                columns,
                reach(piece.class),
                to,
            )
    }

    /// Whether a knight on `from` jumps to `to`.
    pub open spec fn jumps_to(self, from: Square, piece: PieceView, to: Square) -> bool {
        is_knight_jump(to.row - from.row, to.column - from.column) && self.may_land(piece.team, to)
    }

    /// Whether a pawn on `from` moves to `to`. One step forward onto a free
    /// square; two steps forward onto a free square while the pawn has never
    /// moved, whatever stands in between; and one step forward and one to
    /// either side wherever the pawn may land, be the square free or held by
    /// the other side.
    pub open spec fn pawn_moves_to(self, from: Square, piece: PieceView, to: Square) -> bool {
        let ahead = forward(piece.team);
        ||| to == from.offset(ahead, 0) && to.on_board() && self.is_free(to)
        ||| piece.is_first_move() && to == from.offset(2 * ahead, 0) && to.on_board()
            && self.is_free(to)
        ||| (to == from.offset(ahead, -1) || to == from.offset(ahead, 1)) && self.may_land(
            piece.team,
            to,
        )
    }

    /// Whether the piece on `from`, if there is one, may move to `to`.
    pub open spec fn may_move(self, from: Square, to: Square) -> bool {
        self.piece_at(from) matches Some(piece) && match piece.class {
            PieceClass::Knight => self.jumps_to(from, piece, to),
            PieceClass::Pawn => self.pawn_moves_to(from, piece, to),
            _ => self.slides_to(from, piece, to),
        }
    }

    /// The square whose piece is captured by a move to `to`: `to` itself
    /// where a piece stands on it.
    pub open spec fn captured_by(self, to: Square) -> Option<Square> {
        if self.squares.contains_key(to) {
            Some(to)
        } else {
            None
        }
    }

    /// The legal moves of the piece on `from`: each square it may move to,
    /// with the square of the piece that the move captures.
    pub open spec fn legal_moves(self, from: Square) -> Map<Square, Option<Square>> {
        Map::new(|to: Square| self.may_move(from, to), |to: Square| self.captured_by(to))
    }

    /// The board after the piece on `from` has moved to `to`: a piece on
    /// `to` goes to the graveyard, and the moved piece counts one more move.
    pub open spec fn after_move(self, from: Square, to: Square) -> BoardView {
        BoardView {
            squares: self.squares.remove(from).insert(to, self.squares[from].moved()),
            graveyard: if self.squares.contains_key(to) {
                self.graveyard.push(self.squares[to])
            } else {
                self.graveyard
            },
        }
    }

    /// The number of pieces on the board and in the graveyard together.
    pub open spec fn total_pieces(self) -> nat {
        self.squares.len() + self.graveyard.len()
    }
}

/// The squares of the board are 64.
pub proof fn lemma_sixty_four_squares()
    ensures
        Set::new(|square: Square| square.on_board()).finite(),
        Set::new(|square: Square| square.on_board()).len() == 64,
{
    let places = set_int_range(0, 64);
    let squares = Set::new(|square: Square| square.on_board());
    let square_at = |place: int| Square { row: place / 8, column: place % 8 };
    lemma_int_range(0, 64);
    assert forall|square: Square| places.map(square_at).contains(square) == squares.contains(
        square,
    ) by {
        if squares.contains(square) {
            assert(places.contains(square.index()) && square_at(square.index()) == square);
        }
    }
    assert(places.map(square_at) =~= squares);
    assert(injective_on(square_at, places));
    lemma_map_size(places, squares, square_at);
}

/// At the start there are 32 pieces on the board and none in the graveyard.
pub proof fn lemma_initial_pieces()
    ensures
        BoardView::initial().well_formed(),
        BoardView::initial().squares.dom().finite(),
        BoardView::initial().total_pieces() == 32,
{
    let places = set_int_range(0, 32);
    let occupied = BoardView::initial().squares.dom();
    let square_at = |place: int|
        Square {
            row: if place < 16 {
                place / 8
            } else {
                place / 8 + 4
            },
            column: place % 8,
        };
    lemma_int_range(0, 32);
    assert forall|square: Square| places.map(square_at).contains(square) == occupied.contains(
        square,
    ) by {
        if occupied.contains(square) {
            let place = if square.row < 2 {
                square.index()
            } else {
                square.index() - 32
            };
            assert(places.contains(place) && square_at(place) == square);
        }
    }
    assert(places.map(square_at) =~= occupied);
    assert(injective_on(square_at, places));
    lemma_map_size(places, occupied, square_at);
}

/// A well-formed board holds finitely many pieces, at most 64.
pub proof fn lemma_finitely_many_pieces(board: BoardView)
    requires
        board.well_formed(),
    ensures
        board.squares.dom().finite(),
        board.squares.len() <= 64,
{
    lemma_sixty_four_squares();
    lemma_len_subset(board.squares.dom(), Set::new(|square: Square| square.on_board()));
}

/// A move loses no piece: the pieces on the board and in the graveyard
/// together are as many after the move as before, the graveyard keeps what
/// it held, and the board stays well-formed.
pub proof fn lemma_move_keeps_every_piece(board: BoardView, from: Square, to: Square)
    requires
        board.well_formed(),
        board.may_move(from, to),
    ensures
        board.after_move(from, to).well_formed(),
        board.after_move(from, to).total_pieces() == board.total_pieces(),
        board.graveyard.is_prefix_of(board.after_move(from, to).graveyard),
{
    lemma_finitely_many_pieces(board);
    lemma_lands_elsewhere(board, from, to);
    let after = board.after_move(from, to);
    let lifted = board.squares.dom().remove(from);
    assert(after.squares.dom() =~= lifted.insert(to));
    if board.squares.contains_key(to) {
        assert(lifted.insert(to) =~= lifted);
    }
}

/// A piece moves to a square of the board other than its own.
pub proof fn lemma_lands_elsewhere(board: BoardView, from: Square, to: Square)
    requires
        board.may_move(from, to),
    ensures
        to != from,
        to.on_board(),
        board.squares.contains_key(from),
{
    let piece = board.squares[from];
    assert(board.holds(piece.team, from));
}

/// Two rays from one square that meet again are one ray, and they meet
/// after the same number of steps.
pub proof fn lemma_rays_part(
    from: Square,
    rows: int,
    columns: int,
    steps: int,
    other_rows: int,
    other_columns: int,
    other_steps: int,
)
    requires
        -1 <= rows <= 1 && -1 <= columns <= 1 && (rows != 0 || columns != 0),
        -1 <= other_rows <= 1 && -1 <= other_columns <= 1,
        1 <= steps,
        1 <= other_steps,
        from.step(rows, columns, steps) == from.step(other_rows, other_columns, other_steps),
    ensures
        rows == other_rows,
        columns == other_columns,
        steps == other_steps,
{
    lemma_scaled(steps, rows);
    lemma_scaled(steps, columns);
    lemma_scaled(other_steps, other_rows);
    lemma_scaled(other_steps, other_columns);
}

/// A sliding piece reaches a square on one of its rays exactly if the square
/// lies within its reach, the squares before it on that ray are free and
/// the piece may land on it.
pub proof fn lemma_slides_on_ray(
    board: BoardView,
    from: Square,
    piece: PieceView,
    rows: int,
    columns: int,
    steps: int,
)
    requires
        is_direction(piece.class, rows, columns),
        1 <= steps,
    ensures
        board.slides_to(from, piece, from.step(rows, columns, steps)) <==> steps <= reach(
            piece.class,
        ) && board.clear_before(from, rows, columns, steps) && board.may_land(
            piece.team,
            from.step(rows, columns, steps),
        ),
{
    let to = from.step(rows, columns, steps);
    let limit = reach(piece.class);
    if board.slides_to(from, piece, to) {
        let (other_rows, other_columns) = choose|other_rows: int, other_columns: int|
            is_direction(piece.class, other_rows, other_columns) && #[trigger] board.ray_reaches(
                from,
                piece.team,
                other_rows,
                other_columns,
                limit,
                to,
            );
        let other_steps = choose|other_steps: int|
            1 <= other_steps <= limit && to == #[trigger] from.step(
                other_rows,
                other_columns,
                other_steps,
            ) && board.clear_before(from, other_rows, other_columns, other_steps);
        lemma_rays_part(from, rows, columns, steps, other_rows, other_columns, other_steps);
    }
    if steps <= limit && board.clear_before(from, rows, columns, steps) && board.may_land(
        piece.team,
        to,
    ) {
        assert(board.ray_reaches(from, piece.team, rows, columns, limit, to));
    }
}

/// The rays of a sliding piece are independent. Where two boards hold the
/// same sliding piece on `from` and agree on the squares of one of its rays
/// up to the square `steps` steps away, the piece may move to that square on
/// both boards or on neither, and with the same capture, whatever stands on
/// its other rays.
pub proof fn lemma_rays_are_independent(
    first: BoardView,
    second: BoardView,
    from: Square,
    rows: int,
    columns: int,
    steps: int,
)
    requires
        first.piece_at(from) is Some,
        first.piece_at(from) == second.piece_at(from),
        is_direction(first.squares[from].class, rows, columns),
        1 <= steps,
        forall|k: int|
            1 <= k <= steps ==> first.piece_at(#[trigger] from.step(rows, columns, k))
                == second.piece_at(from.step(rows, columns, k)),
    ensures
        first.legal_moves(from).contains_key(from.step(rows, columns, steps))
            == second.legal_moves(from).contains_key(from.step(rows, columns, steps)),
        first.legal_moves(from).contains_key(from.step(rows, columns, steps)) ==> first.legal_moves(
            from,
        )[from.step(rows, columns, steps)] == second.legal_moves(from)[from.step(
            rows,
            columns,
            steps,
        )],
{
    let piece = first.squares[from];
    let to = from.step(rows, columns, steps);
    lemma_slides_on_ray(first, from, piece, rows, columns, steps);
    lemma_slides_on_ray(second, from, piece, rows, columns, steps);
    assert(first.piece_at(to) == second.piece_at(to));
    assert(first.clear_before(from, rows, columns, steps) == second.clear_before(
        from,
        rows,
        columns,
        steps,
    )) by {
        assert forall|k: int| 1 <= k < steps implies first.is_free(
            #[trigger] from.step(rows, columns, k),
        ) == second.is_free(from.step(rows, columns, k)) by {
            assert(first.piece_at(from.step(rows, columns, k)) == second.piece_at(
                from.step(rows, columns, k),
            ));
        }
    }
}

} // verus!
