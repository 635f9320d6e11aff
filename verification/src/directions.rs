//! The offsets by which pieces move: the jumps of a knight and the
//! directions of the sliding pieces.

use crate::piece::PieceClass;
use crate::rules::{is_direction, is_knight_jump};
use itertools::Itertools;
use vstd::math::abs;
use vstd::prelude::*;

verus! {

/// Where the pair of the items at positions `first` and `second` stands among
/// the ordered pairs of `count` items, when the pairs are listed by position.
spec fn pair_position(count: int, first: int, second: int) -> int {
    first * (count - 1) + if second < first {
        second
    } else {
        second - 1
    }
}

/// The contents of a list of lists.
spec fn rows(lists: Seq<Vec<i8>>) -> Seq<Seq<i8>> {
    lists.map_values(|list: Vec<i8>| list@)
}

/// The items of a sequence without repetitions: each item stays where it
/// occurs first.
spec fn first_occurrences(items: Seq<Seq<i8>>) -> Seq<Seq<i8>>
    decreases items.len(),
{
    if items.len() == 0 {
        items
    } else {
        let earlier = first_occurrences(items.drop_last());
        if earlier.contains(items.last()) {
            earlier
        } else {
            earlier.push(items.last())
        }
    }
}

/// `Itertools::permutations` with a length of two: every ordered pair of items
/// at two different positions, once each, and none where there are fewer than
/// two items. The pairs come in the order of their positions, first by the
/// position of the first item and then by that of the second, and equal items
/// at different positions are kept apart. The bound on the number of items
/// keeps the number of pairs small.
#[verifier::external_body]
fn permutations(items: &Vec<i8>, length: usize) -> (pairs: Vec<Vec<i8>>)
    requires
        length == 2,
        items@.len() <= 16,
    ensures
        pairs@.len() == items@.len() * (items@.len() - 1),
        forall|first: int, second: int|
            0 <= first < items@.len() && 0 <= second < items@.len() && first != second
                ==> (#[trigger] pairs@[pair_position(items@.len() as int, first, second)])@
                == seq![items@[first], items@[second]],
{
    items.iter().cloned().permutations(length).collect()
}

/// `Itertools::unique`: the lists without those that are equal to an earlier
/// one, each kept where it came first and in the order in which they came.
#[verifier::external_body]
fn unique(lists: Vec<Vec<i8>>) -> (distinct: Vec<Vec<i8>>)
    ensures
        rows(distinct@) == first_occurrences(rows(lists@)),
{
    lists.into_iter().unique().collect()
}

/// The ordered pairs of four items, in the order of their positions.
spec fn pairs_of_four(items: Seq<i8>) -> Seq<Seq<i8>> {
    seq![
        seq![items[0], items[1]],
        seq![items[0], items[2]],
        seq![items[0], items[3]],
        seq![items[1], items[0]],
        seq![items[1], items[2]],
        seq![items[1], items[3]],
        seq![items[2], items[0]],
        seq![items[2], items[1]],
        seq![items[2], items[3]],
        seq![items[3], items[0]],
        seq![items[3], items[1]],
        seq![items[3], items[2]],
    ]
}

/// Whether every list holds two items, each a length of at most two squares.
spec fn are_short_pairs(lists: Seq<Seq<i8>>) -> bool {
    forall|k: int|
        0 <= k < lists.len() ==> (#[trigger] lists[k]).len() == 2 && -2 <= lists[k][0] <= 2 && -2
            <= lists[k][1] <= 2
}

/// The ordered pairs of four short lengths are short pairs.
proof fn lemma_pairs_of_four_are_short(items: Seq<i8>)
    requires
        items.len() == 4,
        forall|k: int| 0 <= k < 4 ==> -2 <= #[trigger] items[k] <= 2,
    ensures
        are_short_pairs(pairs_of_four(items)),
{
    let pairs = pairs_of_four(items);
    assert forall|k: int| 0 <= k < pairs.len() implies (#[trigger] pairs[k]).len() == 2 && -2
        <= pairs[k][0] <= 2 && -2 <= pairs[k][1] <= 2 by {
        if k == 0 {
        } else if k == 1 {
        } else if k == 2 {
        } else if k == 3 {
        } else if k == 4 {
        } else if k == 5 {
        } else if k == 6 {
        } else if k == 7 {
        } else if k == 8 {
        } else if k == 9 {
        } else if k == 10 {
        } else {
            assert(k == 11);
        }
    }
}

/// What `permutations` says of four items, written out.
proof fn lemma_pairs_of_four(items: Seq<i8>, pairs: Seq<Vec<i8>>)
    requires
        items.len() == 4,
        pairs.len() == 12,
        forall|first: int, second: int|
            0 <= first < 4 && 0 <= second < 4 && first != second
                ==> (#[trigger] pairs[pair_position(4, first, second)])@
                == seq![items[first], items[second]],
    ensures
        rows(pairs) == pairs_of_four(items),
{
    assert(pairs[pair_position(4, 0, 1)]@ == seq![items[0], items[1]]);
    assert(pairs[pair_position(4, 0, 2)]@ == seq![items[0], items[2]]);
    assert(pairs[pair_position(4, 0, 3)]@ == seq![items[0], items[3]]);
    assert(pairs[pair_position(4, 1, 0)]@ == seq![items[1], items[0]]);
    assert(pairs[pair_position(4, 1, 2)]@ == seq![items[1], items[2]]);
    assert(pairs[pair_position(4, 1, 3)]@ == seq![items[1], items[3]]);
    assert(pairs[pair_position(4, 2, 0)]@ == seq![items[2], items[0]]);
    assert(pairs[pair_position(4, 2, 1)]@ == seq![items[2], items[1]]);
    assert(pairs[pair_position(4, 2, 3)]@ == seq![items[2], items[3]]);
    assert(pairs[pair_position(4, 3, 0)]@ == seq![items[3], items[0]]);
    assert(pairs[pair_position(4, 3, 1)]@ == seq![items[3], items[1]]);
    assert(pairs[pair_position(4, 3, 2)]@ == seq![items[3], items[2]]);
}

/// The eight jumps of a knight, as row and column offsets.
pub open spec fn knight_jumps() -> Seq<(i8, i8)> {
    seq![
        (1i8, 2i8),
        (1i8, -2i8),
        (2i8, 1i8),
        (2i8, -1i8),
        (-1i8, 2i8),
        (-1i8, -2i8),
        (-2i8, 1i8),
        (-2i8, -1i8),
    ]
}

/// The four diagonal directions.
pub open spec fn diagonal_directions() -> Seq<(i8, i8)> {
    seq![(-1i8, -1i8), (-1i8, 1i8), (1i8, -1i8), (1i8, 1i8)]
}

/// The four directions along a row or a column.
pub open spec fn straight_directions() -> Seq<(i8, i8)> {
    seq![(0i8, -1i8), (-1i8, 0i8), (0i8, 1i8), (1i8, 0i8)]
}

/// The directions in which a piece of the class slides: those of a rook,
/// those of a bishop, or both.
pub open spec fn ray_directions(class: PieceClass) -> Seq<(i8, i8)> {
    match class {
        PieceClass::Bishop => diagonal_directions(),
        PieceClass::Rook => straight_directions(),
        PieceClass::Queen | PieceClass::King => straight_directions() + diagonal_directions(),
        PieceClass::Knight | PieceClass::Pawn => Seq::empty(),
    }
}

/// The listed jumps are exactly the offsets that are a knight's jump.
pub(crate) proof fn lemma_knight_jumps(rows: int, columns: int)
    ensures
        is_knight_jump(rows, columns) <==> exists|j: int|
            0 <= j < knight_jumps().len() && (#[trigger] knight_jumps()[j]).0 == rows
                && knight_jumps()[j].1 == columns,
{
    let jumps = knight_jumps();
    if is_knight_jump(rows, columns) {
        let j: int = if rows == 1 {
            if columns == 2 {
                0
            } else {
                1
            }
        } else if rows == 2 {
            if columns == 1 {
                2
            } else {
                3
            }
        } else if rows == -1 {
            if columns == 2 {
                4
            } else {
                5
            }
        } else {
            if columns == 1 {
                6
            } else {
                7
            }
        };
        assert(jumps[j].0 == rows && jumps[j].1 == columns);
    }
    assert forall|j: int| 0 <= j < jumps.len() implies is_knight_jump(
        (#[trigger] jumps[j]).0 as int,
        jumps[j].1 as int,
    ) by {
        if j == 0 {
        } else if j == 1 {
        } else if j == 2 {
        } else if j == 3 {
        } else if j == 4 {
        } else if j == 5 {
        } else if j == 6 {
        } else {
            assert(j == 7);
        }
    }
}

/// The listed directions of a class are exactly the directions in which a
/// piece of the class slides.
pub(crate) proof fn lemma_ray_directions(class: PieceClass, rows: int, columns: int)
    ensures
        is_direction(class, rows, columns) <==> exists|j: int|
            0 <= j < ray_directions(class).len() && (#[trigger] ray_directions(class)[j]).0 == rows
                && ray_directions(class)[j].1 == columns,
{
    let directions = ray_directions(class);
    let straight = straight_directions();
    let diagonal = diagonal_directions();
    if is_direction(class, rows, columns) {
        let in_straight: int = if rows == 0 {
            if columns == -1 {
                0
            } else {
                2
            }
        } else if rows == -1 {
            1
        } else {
            3
        };
        let in_diagonal: int = if rows == -1 {
            if columns == -1 {
                0
            } else {
                1
            }
        } else {
            if columns == -1 {
                2
            } else {
                3
            }
        };
        let j: int = match class {
            PieceClass::Bishop => in_diagonal,
            PieceClass::Rook => in_straight,
            _ => if rows == 0 || columns == 0 {
                in_straight
            } else {
                4 + in_diagonal
            },
        };
        assert(directions[j].0 == rows && directions[j].1 == columns);
    }
    assert forall|j: int| 0 <= j < directions.len() implies is_direction(
        class,
        (#[trigger] directions[j]).0 as int,
        directions[j].1 as int,
    ) by {
        assert(forall|k: int| 0 <= k < 4 ==> is_direction(
            PieceClass::Rook,
            (#[trigger] straight[k]).0 as int,
            straight[k].1 as int,
        )) by {
            assert(straight[0] == (0i8, -1i8) && straight[1] == (-1i8, 0i8));
            assert(straight[2] == (0i8, 1i8) && straight[3] == (1i8, 0i8));
        }
        assert(forall|k: int| 0 <= k < 4 ==> is_direction(
            PieceClass::Bishop,
            (#[trigger] diagonal[k]).0 as int,
            diagonal[k].1 as int,
        )) by {
            assert(diagonal[0] == (-1i8, -1i8) && diagonal[1] == (-1i8, 1i8));
            assert(diagonal[2] == (1i8, -1i8) && diagonal[3] == (1i8, 1i8));
        }
        match class {
            PieceClass::Bishop => {},
            PieceClass::Rook => {},
            PieceClass::Queen | PieceClass::King => {
                if j < 4 {
                    assert(directions[j] == straight[j]);
                } else {
                    assert(directions[j] == diagonal[j - 4]);
                }
            },
            _ => {},
        }
    }
}

/// Whether a pair of lengths is a knight's jump: one step one way and two
/// steps the other.
spec fn is_jump(pair: Seq<i8>) -> bool {
    abs(pair[0] as int) + abs(pair[1] as int) == 3
}

/// The jumps among the first `count` pairs, in their order.
spec fn jumps_among(pairs: Seq<Seq<i8>>, count: int) -> Seq<(i8, i8)>
    decreases count,
{
    if count <= 0 {
        Seq::empty()
    } else {
        let earlier = jumps_among(pairs, count - 1);
        let pair = pairs[count - 1];
        if is_jump(pair) {
            earlier.push((pair[0], pair[1]))
        } else {
            earlier
        }
    }
}

/// The first `count` lists, each of two items, as tuples.
spec fn as_tuples(lists: Seq<Seq<i8>>, count: int) -> Seq<(i8, i8)> {
    Seq::new(count as nat, |k: int| (lists[k][0], lists[k][1]))
}

/// The size of a length, whatever its sign.
fn magnitude(length: i8) -> (size: i8)
    requires
        length != i8::MIN,
    ensures
        size == abs(length as int),
{
    if length < 0 {
        -length
    } else {
        length
    }
}

/// The eight offsets by which a knight jumps: the ordered pairs of the
/// lengths 1, 2, -1 and -2 that go one step one way and two steps the other.
pub fn knight_offsets() -> (offsets: Vec<(i8, i8)>)
    ensures
        offsets@ == knight_jumps(),
{
    let lengths: Vec<i8> = vec![1, 2, -1, -2];
    let pairs: Vec<Vec<i8>> = permutations(&lengths, 2);
    proof {
        lemma_pairs_of_four(lengths@, pairs@);
        lemma_pairs_of_four_are_short(lengths@);
    }
    let mut offsets: Vec<(i8, i8)> = Vec::new();
    let mut index: usize = 0;
    while index < pairs.len()
        invariant
            index <= pairs@.len(),
            rows(pairs@) == pairs_of_four(seq![1i8, 2i8, -1i8, -2i8]),
            are_short_pairs(rows(pairs@)),
            offsets@ == jumps_among(rows(pairs@), index as int),
        decreases pairs@.len() - index,
    {
        assert(rows(pairs@)[index as int] == pairs@[index as int]@);
        let pair: &Vec<i8> = &pairs[index];
        let row_offset: i8 = pair[0];
        let column_offset: i8 = pair[1];
        if magnitude(row_offset) + magnitude(column_offset) == 3 {
            offsets.push((row_offset, column_offset));
        }
        index += 1;
    }
    proof {
        reveal_with_fuel(jumps_among, 13);
        assert(offsets@ =~= knight_jumps());
    }
    offsets
}

/// The four directions of a bishop: the distinct ordered pairs of the signs
/// -1, -1, 1 and 1.
pub fn bishop_directions() -> (directions: Vec<(i8, i8)>)
    ensures
        directions@ == diagonal_directions(),
{
    let signs: Vec<i8> = vec![-1, -1, 1, 1];
    let pairs: Vec<Vec<i8>> = permutations(&signs, 2);
    proof {
        lemma_pairs_of_four(signs@, pairs@);
    }
    let distinct: Vec<Vec<i8>> = unique(pairs);
    proof {
        lemma_distinct_sign_pairs();
        assert(are_short_pairs(distinct_sign_pairs())) by {
            lemma_sign_pairs_are_short();
        }
    }
    let mut directions: Vec<(i8, i8)> = Vec::new();
    let mut index: usize = 0;
    while index < distinct.len()
        invariant
            index <= distinct@.len(),
            rows(distinct@) == distinct_sign_pairs(),
            are_short_pairs(rows(distinct@)),
            directions@ == as_tuples(rows(distinct@), index as int),
        decreases distinct@.len() - index,
    {
        assert(rows(distinct@)[index as int] == distinct@[index as int]@);
        let pair: &Vec<i8> = &distinct[index];
        directions.push((pair[0], pair[1]));
        index += 1;
        assert(directions@ =~= as_tuples(rows(distinct@), index as int));
    }
    proof {
        let listed = rows(distinct@);
        assert(listed[0] == seq![-1i8, -1i8] && listed[1] == seq![-1i8, 1i8]);
        assert(listed[2] == seq![1i8, -1i8] && listed[3] == seq![1i8, 1i8]);
        assert(listed.len() == distinct@.len());
        assert(distinct_sign_pairs().len() == 4);
        assert(directions@.len() == 4);
        assert(directions@[0] == (-1i8, -1i8) && directions@[1] == (-1i8, 1i8));
        assert(directions@[2] == (1i8, -1i8) && directions@[3] == (1i8, 1i8));
        assert(directions@ =~= diagonal_directions());
    }
    directions
}

/// The four lists of two signs are short pairs.
proof fn lemma_sign_pairs_are_short()
    ensures
        are_short_pairs(distinct_sign_pairs()),
{
    let pairs = distinct_sign_pairs();
    assert forall|k: int| 0 <= k < pairs.len() implies (#[trigger] pairs[k]).len() == 2 && -2
        <= pairs[k][0] <= 2 && -2 <= pairs[k][1] <= 2 by {
        if k == 0 {
        } else if k == 1 {
        } else if k == 2 {
        } else {
            assert(k == 3);
        }
    }
}

/// The four lists of two signs.
spec fn distinct_sign_pairs() -> Seq<Seq<i8>> {
    seq![seq![-1i8, -1i8], seq![-1i8, 1i8], seq![1i8, -1i8], seq![1i8, 1i8]]
}

/// One step of `first_occurrences`, along the prefixes of a sequence.
proof fn lemma_next_occurrence(items: Seq<Seq<i8>>, count: int, earlier: Seq<Seq<i8>>)
    requires
        0 <= count < items.len(),
        first_occurrences(items.take(count)) == earlier,
    ensures
        first_occurrences(items.take(count + 1)) == if earlier.contains(items[count]) {
            earlier
        } else {
            earlier.push(items[count])
        },
{
    assert(items.take(count + 1).drop_last() =~= items.take(count));
}

/// The distinct ordered pairs of the signs -1, -1, 1 and 1.
proof fn lemma_distinct_sign_pairs()
    ensures
        first_occurrences(pairs_of_four(seq![-1i8, -1i8, 1i8, 1i8])) == distinct_sign_pairs(),
{
    let a = seq![-1i8, -1i8];
    let b = seq![-1i8, 1i8];
    let c = seq![1i8, -1i8];
    let d = seq![1i8, 1i8];
    let all = pairs_of_four(seq![-1i8, -1i8, 1i8, 1i8]);
    assert(all =~~= seq![a, b, b, a, b, b, c, c, d, c, c, d]);
    assert(a != b && a != c && a != d && b != c && b != d && c != d) by {
        assert(a[0] == -1 && a[1] == -1);
        assert(b[0] == -1 && b[1] == 1);
        assert(c[0] == 1 && c[1] == -1);
        assert(d[0] == 1 && d[1] == 1);
    }
    let one = seq![a];
    let two = seq![a, b];
    let three = seq![a, b, c];
    let four = seq![a, b, c, d];
    assert(two[1] == b && three[2] == c && four[3] == d);
    assert(one.contains(a)) by {
        assert(one[0] == a);
    }
    assert(two.contains(a) && two.contains(b)) by {
        assert(two[0] == a && two[1] == b);
    }
    assert(three.contains(c)) by {
        assert(three[2] == c);
    }
    assert(four.contains(c) && four.contains(d)) by {
        assert(four[2] == c && four[3] == d);
    }
    let none = all.take(0);
    assert(first_occurrences(none) == none);
    lemma_next_occurrence(all, 0, none);
    assert(none.push(a) =~= one);
    lemma_next_occurrence(all, 1, one);
    assert(one.push(b) =~= two);
    lemma_next_occurrence(all, 2, two);
    lemma_next_occurrence(all, 3, two);
    lemma_next_occurrence(all, 4, two);
    lemma_next_occurrence(all, 5, two);
    lemma_next_occurrence(all, 6, two);
    assert(two.push(c) =~= three);
    lemma_next_occurrence(all, 7, three);
    lemma_next_occurrence(all, 8, three);
    assert(three.push(d) =~= four);
    lemma_next_occurrence(all, 9, four);
    lemma_next_occurrence(all, 10, four);
    lemma_next_occurrence(all, 11, four);
    assert(all.take(12) =~= all);
    assert(four =~~= distinct_sign_pairs());
}

/// The four directions of a rook: along the row and along the column, first
/// toward lower indices and then toward higher ones.
pub fn rook_directions() -> (directions: Vec<(i8, i8)>)
    ensures
        directions@ == straight_directions(),
{
    let multipliers: Vec<i8> = vec![-1, 1];
    let mut directions: Vec<(i8, i8)> = Vec::new();
    let mut index: usize = 0;
    while index < multipliers.len()
        invariant
            index <= 2,
            multipliers@ == seq![-1i8, 1i8],
            directions@ == straight_directions().take(2 * index),
        decreases multipliers@.len() - index,
    {
        let multiplier: i8 = multipliers[index];
        directions.push((0, multiplier));
        directions.push((multiplier, 0));
        index += 1;
        assert(directions@ =~= straight_directions().take(2 * index));
    }
    assert(directions@ =~= straight_directions());
    directions
}

/// The eight directions of a queen and of a king: those of a rook, then
/// those of a bishop.
pub fn royal_directions() -> (directions: Vec<(i8, i8)>)
    ensures
        directions@ == straight_directions() + diagonal_directions(),
{
    let mut directions: Vec<(i8, i8)> = rook_directions();
    let mut diagonals: Vec<(i8, i8)> = bishop_directions();
    directions.append(&mut diagonals);
    directions
}

} // verus!
