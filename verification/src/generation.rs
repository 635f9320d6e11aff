//! Move generation: the moves of a piece of each class, found by trying
//! its jumps or walking along its rays.

use crate::board::Board;
use crate::coordinate::{Coordinate, CoordinatePath, Square};
use crate::directions::{
    bishop_directions, knight_offsets, ray_directions, rook_directions, royal_directions,
};
use crate::legal_moves::LegalMoves;
use crate::paths::{
    among, landing_squares, lemma_among_next, lemma_jump_targets, lemma_rays_next,
    lemma_slides_along_rays, lemma_unit_directions, lemma_walk_along_ray, offset_squares,
    path_view, ray_offsets, ray_steps, rays_reach,
};
use crate::piece::{Piece, PieceClass, Team};
use crate::rules::{forward, reach};
use vstd::prelude::*;

verus! {

impl Board {
    /// Enters a square among the moves of a piece of the given side, unless a
    /// piece of the same side stands on it, and tells whether any piece does.
    pub(crate) fn enter(&self, team: Team, square: Coordinate, moves: &mut LegalMoves) -> (occupied:
        bool)
        ensures
            square@.on_board(),
            occupied == !self@.is_free(square@),
            final(moves)@ == if self@.may_land(team, square@) {
                old(moves)@.insert(square@, self@.captured_by(square@))
            } else {
                old(moves)@
            },
    {
        match self.get_piece(&square) {
            Some(other_piece) => {
                if other_piece.team() != team {
                    moves.insert(square, Some(square));
                }
                true
            },
            None => {
                moves.insert(square, None);
                false
            },
        }
    }

    /// Enters the square that lies the given offset away from `from`, if it
    /// lies on the board and is free.
    pub(crate) fn advance(
        &self,
        from: &Coordinate,
        row_offset: i8,
        column_offset: i8,
        moves: &mut LegalMoves,
    )
        ensures
            final(moves)@ == ({
                let to = from@.offset(row_offset as int, column_offset as int);
                if to.on_board() && self@.is_free(to) {
                    old(moves)@.insert(to, None)
                } else {
                    old(moves)@
                }
            }),
    {
        match from.checked_add_individual(row_offset, column_offset) {
            Ok(single_coordinate) => {
                match self.get_piece(&single_coordinate) {
                    Some(_) => {},
                    None => {
                        moves.insert(single_coordinate, None);
                    },
                }
            },
            Err(_) => {},
        }
    }

    /// Walks along a path for a piece of the given side: enters each free
    /// square, and stops at the first piece, which is entered as a capture
    /// where it belongs to the other side.
    pub(crate) fn walk(&self, team: Team, path: &CoordinatePath, moves: &mut LegalMoves)
        ensures
            final(moves)@ == old(moves)@.union_prefer_right(
                self@.walk_moves(team, path_view(path@)),
            ),
    {
        let ghost before = moves@;
        let ghost squares = path_view(path@);
        let mut index: usize = 0;
        loop
            invariant_except_break
                index <= path@.len(),
                squares == path_view(path@),
                self@.free_along(squares, index as int),
                forall|k: int| 0 <= k < index ==> (#[trigger] squares[k]).on_board(),
                forall|to: Square|
                    #![trigger moves@.contains_key(to)]
                    moves@.contains_key(to) <==> before.contains_key(to) || among(
                        squares,
                        index as int,
                        to,
                    ),
                forall|to: Square|
                    #![trigger moves@[to]]
                    among(squares, index as int, to) ==> moves@[to] == self@.captured_by(to),
                forall|to: Square|
                    #![trigger moves@[to]]
                    before.contains_key(to) && !among(squares, index as int, to) ==> moves@[to]
                        == before[to],
            ensures
                moves@ == before.union_prefer_right(self@.walk_moves(team, squares)),
            decreases path@.len() - index,
        {
            if index >= path.len() {
                proof {
                    let walked = self@.walk_moves(team, squares);
                    assert(squares.len() == index);
                    assert forall|to: Square|
                        among(squares, index as int, to) implies walked.contains_key(to) by {
                        let k = choose|k: int| 0 <= k < index && (#[trigger] squares[k]) == to;
                        assert(self@.is_free(squares[k]) && squares[k].on_board());
                    }
                    assert forall|to: Square| walked.contains_key(to) implies among(
                        squares,
                        index as int,
                        to,
                    ) by {
                        let k = choose|k: int|
                            0 <= k < squares.len() && (#[trigger] squares[k]) == to
                                && self@.free_along(squares, k);
                        assert(0 <= k < index && squares[k] == to);
                    }
                    assert(moves@ =~= before.union_prefer_right(walked));
                }
                break;
            }
            let single_coordinate: Coordinate = path[index];
            assert(squares[index as int] == single_coordinate@);
            let occupied: bool = self.enter(team, single_coordinate, moves);
            if occupied {
                proof {
                    let walked = self@.walk_moves(team, squares);
                    assert forall|to: Square| walked.contains_key(to) implies among(
                        squares,
                        index as int + 1,
                        to,
                    ) by {
                        let k = choose|k: int|
                            0 <= k < squares.len() && (#[trigger] squares[k]) == to
                                && self@.free_along(squares, k);
                        if k > index {
                            assert(self@.is_free(squares[index as int]));
                        }
                    }
                    assert forall|to: Square|
                        among(squares, index as int, to) implies walked.contains_key(to) by {
                        let k = choose|k: int| 0 <= k < index && (#[trigger] squares[k]) == to;
                        assert(self@.is_free(squares[k]) && squares[k].on_board());
                    }
                    assert(self@.may_land(team, single_coordinate@) ==> walked.contains_key(
                        single_coordinate@,
                    ));
                    assert forall|to: Square|
                        moves@.contains_key(to) <==> before.contains_key(to) || walked.contains_key(
                            to,
                        ) by {
                        lemma_among_next(squares, index as int, to);
                    }
                    assert(moves@ =~= before.union_prefer_right(walked));
                }
                break;
            }
            let ghost passed = index as int;
            index += 1;
            proof {
                assert forall|to: Square| #![trigger moves@.contains_key(to)]
                    moves@.contains_key(to) <==> before.contains_key(to) || among(
                        squares,
                        index as int,
                        to,
                    ) by {
                    lemma_among_next(squares, passed, to);
                }
                assert forall|to: Square| #![trigger moves@[to]]
                    among(squares, index as int, to) implies moves@[to] == self@.captured_by(
                    to,
                ) by {
                    lemma_among_next(squares, passed, to);
                }
                assert forall|to: Square| #![trigger moves@[to]]
                    before.contains_key(to) && !among(
                        squares,
                        index as int,
                        to,
                    ) implies moves@[to] == before[to] by {
                    lemma_among_next(squares, passed, to);
                }
            }
        }
    }

    /// The moves of a knight: its eight jumps, as far as they stay on the
    /// board and do not land on a piece of its own side.
    pub(crate) fn knight_moves(&self, from: &Coordinate, piece: Piece, moves: &mut LegalMoves)
        requires
            self@.piece_at(from@) == Some(piece@),
            piece@.class == PieceClass::Knight,
            old(moves)@ == Map::<Square, Option<Square>>::empty(),
        ensures
            final(moves)@ == self@.legal_moves(from@),
    {
        let offsets: Vec<(i8, i8)> = knight_offsets();
        let coordinates: Vec<Coordinate> = offset_squares(from, &offsets);
        let ghost squares = path_view(coordinates@);
        let team: Team = piece.team();
        let mut index: usize = 0;
        while index < coordinates.len()
            invariant
                index <= coordinates@.len(),
                squares == path_view(coordinates@),
                team == piece@.team,
                forall|to: Square|
                    #![trigger moves@.contains_key(to)]
                    moves@.contains_key(to) <==> self@.may_land(team, to) && among(
                        squares,
                        index as int,
                        to,
                    ),
                forall|to: Square|
                    #![trigger moves@.contains_key(to)]
                    moves@.contains_key(to) ==> moves@[to] == self@.captured_by(to),
            decreases coordinates@.len() - index,
        {
            let single_coordinate: Coordinate = coordinates[index];
            assert(squares[index as int] == single_coordinate@);
            self.enter(team, single_coordinate, moves);
            let ghost entered = index as int;
            index += 1;
            proof {
                assert forall|to: Square| #![trigger moves@.contains_key(to)]
                    moves@.contains_key(to) <==> self@.may_land(team, to) && among(
                        squares,
                        index as int,
                        to,
                    ) by {
                    lemma_among_next(squares, entered, to);
                }
            }
        }
        proof {
            assert forall|to: Square| moves@.contains_key(to) == self@.may_move(from@, to) by {
                lemma_jump_targets(self@, from@, piece@, to);
                if among(squares, index as int, to) {
                    let k = choose|k: int| 0 <= k < index && (#[trigger] squares[k]) == to;
                    assert(squares.contains(to));
                }
            }
            assert(moves@ =~= self@.legal_moves(from@));
        }
    }

    /// The moves of a sliding piece: along each ray of its class, the free
    /// squares up to the first piece, and that piece's square where it
    /// belongs to the other side.
    pub(crate) fn sliding_moves(&self, from: &Coordinate, piece: Piece, moves: &mut LegalMoves)
        requires
            from@.on_board(),
            self@.piece_at(from@) == Some(piece@),
            piece@.class != PieceClass::Knight,
            piece@.class != PieceClass::Pawn,
            old(moves)@ == Map::<Square, Option<Square>>::empty(),
        ensures
            final(moves)@ == self@.legal_moves(from@),
    {
        let class: PieceClass = piece.class();
        let team: Team = piece.team();
        let end: i8 = match class {
            PieceClass::King => 2,
            _ => 8,
        };
        let directions: Vec<(i8, i8)> = match class {
            PieceClass::Bishop => bishop_directions(),
            PieceClass::Rook => rook_directions(),
            PieceClass::Queen | PieceClass::King => royal_directions(),
            PieceClass::Knight | PieceClass::Pawn => Vec::new(),
        };
        let mut paths: Vec<CoordinatePath> = Vec::new();
        let mut index: usize = 0;
        while index < directions.len()
            invariant
                index <= directions@.len(),
                directions@ == ray_directions(class),
                end == reach(class) + 1,
                1 <= end <= 8,
                paths@.len() == index,
                forall|j: int|
                    0 <= j < index ==> path_view((#[trigger] paths@[j])@) == landing_squares(
                        from@,
                        ray_steps(directions@[j].0 as int, directions@[j].1 as int, end as int),
                        end - 1,
                    ),
            decreases directions@.len() - index,
        {
            let direction: (i8, i8) = directions[index];
            proof {
                lemma_unit_directions(class, index as int);
            }
            let offsets: Vec<(i8, i8)> = ray_offsets(direction.0, direction.1, end);
            let path: CoordinatePath = offset_squares(from, &offsets);
            paths.push(path);
            index += 1;
        }
        let mut index: usize = 0;
        while index < paths.len()
            invariant
                index <= paths@.len(),
                paths@.len() == directions@.len(),
                directions@ == ray_directions(class),
                from@.on_board(),
                end == reach(class) + 1,
                1 <= end <= 8,
                forall|j: int|
                    0 <= j < paths@.len() ==> path_view((#[trigger] paths@[j])@) == landing_squares(
                        from@,
                        ray_steps(directions@[j].0 as int, directions@[j].1 as int, end as int),
                        end - 1,
                    ),
                forall|to: Square|
                    #![trigger moves@.contains_key(to)]
                    moves@.contains_key(to) <==> rays_reach(
                        self@,
                        from@,
                        team,
                        directions@,
                        end - 1,
                        index as int,
                        to,
                    ),
                forall|to: Square|
                    #![trigger moves@.contains_key(to)]
                    moves@.contains_key(to) ==> moves@[to] == self@.captured_by(to),
            decreases paths@.len() - index,
        {
            let ghost before = moves@;
            let ghost walked = self@.walk_moves(team, path_view(paths@[index as int]@));
            self.walk(team, &paths[index], moves);
            let ghost passed = index as int;
            index += 1;
            proof {
                let rows = directions@[passed].0 as int;
                let columns = directions@[passed].1 as int;
                lemma_unit_directions(class, passed);
                assert forall|to: Square| #![trigger moves@.contains_key(to)]
                    moves@.contains_key(to) <==> rays_reach(
                        self@,
                        from@,
                        team,
                        directions@,
                        end - 1,
                        index as int,
                        to,
                    ) by {
                    lemma_rays_next(self@, from@, team, directions@, end - 1, passed, to);
                    lemma_walk_along_ray(self@, from@, team, rows, columns, end as int, to);
                    assert(moves@.contains_key(to) <==> before.contains_key(to)
                        || walked.contains_key(to));
                }
                assert forall|to: Square| #![trigger moves@.contains_key(to)]
                    moves@.contains_key(to) implies moves@[to] == self@.captured_by(to) by {
                    if walked.contains_key(to) {
                    } else {
                        assert(before.contains_key(to));
                    }
                }
            }
        }
        proof {
            assert forall|to: Square| moves@.contains_key(to) == self@.may_move(from@, to) by {
                lemma_slides_along_rays(self@, from@, piece@, to);
            }
            assert(moves@ =~= self@.legal_moves(from@));
        }
    }

    /// The moves of a pawn: one step forward onto a free square, two steps
    /// forward onto a free square while it has never moved, and one step
    /// forward to either side onto a square that is free or held by the
    /// other side.
    pub(crate) fn pawn_moves(&self, from: &Coordinate, piece: Piece, moves: &mut LegalMoves)
        requires
            self@.piece_at(from@) == Some(piece@),
            piece@.class == PieceClass::Pawn,
            old(moves)@ == Map::<Square, Option<Square>>::empty(),
        ensures
            final(moves)@ == self@.legal_moves(from@),
    {
        let team: Team = piece.team();
        let single_pawn_move: i8 = match team {
            Team::Black => 1,
            Team::White => -1,
        };
        self.advance(from, single_pawn_move, 0, moves);
        if piece.is_first_move() {
            self.advance(from, single_pawn_move * 2, 0, moves);
        }
        let ghost advanced = moves@;
        let sides: [i8; 2] = [-1, 1];
        let mut index: usize = 0;
        while index < 2
            invariant
                index <= 2,
                sides@ == seq![-1i8, 1i8],
                team == piece@.team,
                single_pawn_move == forward(team),
                forall|to: Square|
                    #![trigger moves@.contains_key(to)]
                    moves@.contains_key(to) <==> advanced.contains_key(to) || (self@.may_land(
                        team,
                        to,
                    ) && ((index >= 1 && to == from@.offset(single_pawn_move as int, -1)) || (index
                        >= 2 && to == from@.offset(single_pawn_move as int, 1)))),
                forall|to: Square|
                    #![trigger moves@.contains_key(to)]
                    moves@.contains_key(to) ==> moves@[to] == self@.captured_by(to),
            decreases 2 - index,
        {
            let column_offset: i8 = sides[index];
            match from.checked_add_individual(single_pawn_move, column_offset) {
                Ok(single_coordinate) => {
                    self.enter(team, single_coordinate, moves);
                },
                Err(_) => {},
            }
            index += 1;
        }
        proof {
            assert forall|to: Square| moves@.contains_key(to) == self@.may_move(from@, to) by {
                assert(self@.may_move(from@, to) == self@.pawn_moves_to(from@, piece@, to));
            }
            assert(moves@ =~= self@.legal_moves(from@));
        }
    }
}

} // verus!
