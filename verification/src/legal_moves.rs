//! The result of move generation: the squares a piece may move to.

use crate::coordinate::{Coordinate, Square};
use crate::paths::{among, path_view};
use std::collections::HashMap;
use vstd::prelude::*;
use vstd::relations::injective_on;
use vstd::set_lib::lemma_map_size;

verus! {

/// The square of a capture, as a mathematical value.
pub open spec fn capture_view(capture: Option<Coordinate>) -> Option<Square> {
    match capture {
        Some(coordinate) => Some(coordinate@),
        None => None,
    }
}

/// The number under which a square is filed: its place in reading order.
spec fn filed_under(square: Square) -> u8 {
    (square.row * 8 + square.column) as u8
}

/// The squares a piece may move to. Each goes with the coordinate of the
/// piece that a move there captures, or with `None` where it captures none.
#[derive(Debug)]
pub struct LegalMoves {
    entries: HashMap<u8, Option<Coordinate>>,
}

impl View for LegalMoves {
    type V = Map<Square, Option<Square>>;

    closed spec fn view(&self) -> Map<Square, Option<Square>> {
        Map::new(
            |to: Square| to.on_board() && self.entries@.contains_key(filed_under(to)),
            |to: Square| capture_view(self.entries@[filed_under(to)]),
        )
    }
}

impl LegalMoves {
    #[verifier::type_invariant]
    closed spec fn filed_by_square(self) -> bool {
        forall|key: u8| self.entries@.contains_key(key) ==> key < 64
    }

    /// No moves at all.
    pub fn new() -> (moves: LegalMoves)
        ensures
            moves@ == Map::<Square, Option<Square>>::empty(),
    {
        let moves = LegalMoves { entries: HashMap::new() };
        assert(moves@ =~= Map::<Square, Option<Square>>::empty());
        moves
    }

    /// Records that the piece may move to `to`, capturing the piece on
    /// `capture` if one is given. An earlier entry for `to` is replaced.
    pub fn insert(&mut self, to: Coordinate, capture: Option<Coordinate>)
        ensures
            final(self)@ == old(self)@.insert(to@, capture_view(capture)),
    {
        proof {
            use_type_invariant(&*self);
        }
        let key: u8 = (to.row() * 8 + to.column()) as u8;
        let mut entries: HashMap<u8, Option<Coordinate>> = HashMap::new();
        std::mem::swap(&mut self.entries, &mut entries);
        entries.insert(key, capture);
        std::mem::swap(&mut self.entries, &mut entries);
        assert(self@ =~= old(self)@.insert(to@, capture_view(capture)));
    }

    /// Whether the piece may move to `to`.
    pub fn contains_key(&self, to: &Coordinate) -> (found: bool)
        ensures
            found == self@.contains_key(to@),
    {
        let key: u8 = (to.row() * 8 + to.column()) as u8;
        self.entries.contains_key(&key)
    }

    /// What a move to `to` captures: `None` where the piece may not move
    /// there, and otherwise the coordinate of the captured piece, if any.
    pub fn get(&self, to: &Coordinate) -> (entry: Option<Option<Coordinate>>)
        ensures
            match entry {
                Some(capture) => self@.contains_key(to@) && self@[to@] == capture_view(capture),
                None => !self@.contains_key(to@),
            },
    {
        let key: u8 = (to.row() * 8 + to.column()) as u8;
        match self.entries.get(&key) {
            Some(capture) => Some(*capture),
            None => None,
        }
    }

    /// The number of squares that the piece may move to.
    pub fn len(&self) -> (count: usize)
        ensures
            count == self@.len(),
    {
        proof {
            use_type_invariant(self);
            self.lemma_as_many_entries();
        }
        self.entries.len()
    }

    /// Whether the piece may not move at all.
    pub fn is_empty(&self) -> (none: bool)
        ensures
            none == (self@.len() == 0),
    {
        proof {
            use_type_invariant(self);
            self.lemma_as_many_entries();
        }
        self.entries.len() == 0
    }

    /// The squares that the piece may move to, in reading order: each once,
    /// row by row from the top and from left to right within a row.
    pub fn destinations(&self) -> (squares: Vec<Coordinate>)
        ensures
            forall|k: int|
                0 <= k < squares@.len() ==> self@.contains_key(#[trigger] path_view(squares@)[k]),
            forall|to: Square|
                self@.contains_key(to) ==> among(path_view(squares@), squares@.len() as int, to),
            forall|a: int, b: int|
                0 <= a < b < squares@.len() ==> (#[trigger] path_view(squares@)[a]).index() < (
                #[trigger] path_view(squares@)[b]).index(),
    {
        let mut squares: Vec<Coordinate> = Vec::new();
        let mut place: u8 = 0;
        while place < 64
            invariant
                place <= 64,
                forall|k: int|
                    0 <= k < squares@.len() ==> self@.contains_key(
                        #[trigger] path_view(squares@)[k],
                    ) && path_view(squares@)[k].index() < place,
                forall|to: Square|
                    self@.contains_key(to) && to.index() < place ==> among(
                        path_view(squares@),
                        squares@.len() as int,
                        to,
                    ),
                forall|a: int, b: int|
                    0 <= a < b < squares@.len() ==> (#[trigger] path_view(squares@)[a]).index() < (
                    #[trigger] path_view(squares@)[b]).index(),
            decreases 64 - place,
        {
            let coordinate: Coordinate = Coordinate::try_from((place / 8, place % 8)).unwrap();
            let ghost listed = path_view(squares@);
            if self.contains_key(&coordinate) {
                squares.push(coordinate);
                proof {
                    let extended = path_view(squares@);
                    assert(extended =~= listed.push(coordinate@));
                    assert forall|to: Square|
                        self@.contains_key(to) && to.index() < place + 1 implies among(
                        extended,
                        extended.len() as int,
                        to,
                    ) by {
                        if to.index() < place {
                            let k = choose|k: int|
                                0 <= k < listed.len() && (#[trigger] listed[k]) == to;
                            assert(extended[k] == to);
                        } else {
                            assert(to == coordinate@);
                            assert(extended[extended.len() - 1] == to);
                        }
                    }
                }
            } else {
                proof {
                    assert forall|to: Square|
                        self@.contains_key(to) && to.index() < place + 1 implies among(
                        listed,
                        listed.len() as int,
                        to,
                    ) by {
                        if to.index() >= place {
                            assert(to == coordinate@);
                        }
                    }
                }
            }
            place += 1;
        }
        squares
    }

    /// There are as many entries as squares in the view.
    proof fn lemma_as_many_entries(self)
        requires
            self.filed_by_square(),
        ensures
            self.entries@.len() == self@.len(),
    {
        let keys = self.entries@.dom();
        let squares = self@.dom();
        let square_of = |key: u8| Square { row: key as int / 8, column: key as int % 8 };
        assert(injective_on(square_of, keys));
        assert forall|to: Square| keys.map(square_of).contains(to) == squares.contains(to) by {
            if squares.contains(to) {
                assert(keys.contains(filed_under(to)) && square_of(filed_under(to)) == to);
            }
        }
        assert(keys.map(square_of) =~= squares);
        lemma_map_size(keys, squares, square_of);
    }
}

} // verus!
