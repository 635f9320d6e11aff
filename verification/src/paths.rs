//! Paths across the board: the squares that a list of offsets leads to, and
//! what a piece finds when it walks along them.

use crate::coordinate::{lemma_scaled, Coordinate, Square};
use crate::directions::{
    knight_jumps, lemma_knight_jumps, lemma_ray_directions, ray_directions,
};
use crate::piece::{PieceClass, PieceView, Team};
use crate::rules::{is_direction, reach, BoardView};
use vstd::prelude::*;

verus! {

/// The squares of a path, as mathematical values.
pub open spec fn path_view(path: Seq<Coordinate>) -> Seq<Square> {
    path.map_values(|coordinate: Coordinate| coordinate@)
}

/// The square that an offset leads to.
pub open spec fn shifted(from: Square, offset: (i8, i8)) -> Square {
    from.offset(offset.0 as int, offset.1 as int)
}

/// The squares that the first `count` offsets lead to from `from`, in the
/// order of the offsets and without those that lie off the board.
pub open spec fn landing_squares(from: Square, offsets: Seq<(i8, i8)>, count: int) -> Seq<Square>
    decreases count,
{
    if count <= 0 {
        Seq::empty()
    } else {
        let earlier = landing_squares(from, offsets, count - 1);
        let square = shifted(from, offsets[count - 1]);
        if square.on_board() {
            earlier.push(square)
        } else {
            earlier
        }
    }
}

/// The offsets of the steps before step `end` along a direction, nearest
/// first.
pub open spec fn ray_steps(rows: int, columns: int, end: int) -> Seq<(i8, i8)> {
    Seq::new((end - 1) as nat, |k: int| (((k + 1) * rows) as i8, ((k + 1) * columns) as i8))
}

/// Whether `to` is one of the first `count` squares of a path.
pub open spec fn among(path: Seq<Square>, count: int, to: Square) -> bool {
    exists|k: int| 0 <= k < count && (#[trigger] path[k]) == to
}

/// One more square of the path is counted in.
pub(crate) proof fn lemma_among_next(path: Seq<Square>, count: int, to: Square)
    requires
        0 <= count < path.len(),
    ensures
        among(path, count + 1, to) <==> among(path, count, to) || path[count] == to,
{
    if among(path, count + 1, to) {
        let k = choose|k: int| 0 <= k < count + 1 && (#[trigger] path[k]) == to;
        if k < count {
            assert(among(path, count, to));
        }
    }
    if among(path, count, to) {
        let k = choose|k: int| 0 <= k < count && (#[trigger] path[k]) == to;
        assert(0 <= k < count + 1 && path[k] == to);
    }
}

impl BoardView {
    /// Whether the first `count` squares of a path are free.
    pub open spec fn free_along(self, path: Seq<Square>, count: int) -> bool {
        forall|j: int| 0 <= j < count ==> self.is_free(#[trigger] path[j])
    }

    /// Whether a piece of the given side that walks along the path until it
    /// meets a piece enters `to`: the squares before `to` are free, and the
    /// piece may land on `to`.
    pub open spec fn walk_enters(self, team: Team, path: Seq<Square>, to: Square) -> bool {
        self.may_land(team, to) && exists|k: int|
            0 <= k < path.len() && (#[trigger] path[k]) == to && self.free_along(path, k)
    }

    /// The moves that a walk along the path gives.
    pub open spec fn walk_moves(self, team: Team, path: Seq<Square>) -> Map<
        Square,
        Option<Square>,
    > {
        Map::new(|to: Square| self.walk_enters(team, path, to), |to: Square| self.captured_by(to))
    }
}

/// The landing squares are the squares on the board that one of the offsets
/// leads to.
pub(crate) proof fn lemma_landing_squares(from: Square, offsets: Seq<(i8, i8)>, count: int)
    requires
        0 <= count <= offsets.len(),
    ensures
        forall|k: int|
            0 <= k < landing_squares(from, offsets, count).len() ==> (#[trigger] landing_squares(
                from,
                offsets,
                count,
            )[k]).on_board() && exists|j: int|
                0 <= j < count && landing_squares(from, offsets, count)[k] == shifted(
                    from,
                    #[trigger] offsets[j],
                ),
        forall|j: int|
            0 <= j < count && shifted(from, #[trigger] offsets[j]).on_board() ==> landing_squares(
                from,
                offsets,
                count,
            ).contains(shifted(from, offsets[j])),
    decreases count,
{
    if count > 0 {
        lemma_landing_squares(from, offsets, count - 1);
        let earlier = landing_squares(from, offsets, count - 1);
        let landing = landing_squares(from, offsets, count);
        let square = shifted(from, offsets[count - 1]);
        assert forall|k: int| 0 <= k < landing.len() implies (#[trigger] landing[k]).on_board()
            && exists|j: int|
            0 <= j < count && landing[k] == shifted(from, #[trigger] offsets[j]) by {
            if k < earlier.len() {
                assert(landing[k] == earlier[k]);
                let j = choose|j: int|
                    0 <= j < count - 1 && earlier[k] == shifted(from, #[trigger] offsets[j]);
                assert(landing[k] == shifted(from, offsets[j]));
            } else {
                assert(landing[k] == shifted(from, offsets[count - 1]));
            }
        }
        assert forall|j: int|
            0 <= j < count && shifted(from, #[trigger] offsets[j]).on_board()
            implies landing.contains(shifted(from, offsets[j])) by {
            if j < count - 1 {
                let k = choose|k: int|
                    0 <= k < earlier.len() && earlier[k] == shifted(from, offsets[j]);
                assert(landing[k] == shifted(from, offsets[j]));
            } else {
                assert(landing[landing.len() - 1] == square);
            }
        }
    }
}

/// A step between the start of a ray and a later step on the board lies on
/// the board.
pub(crate) proof fn lemma_steps_between(from: Square, rows: int, columns: int, near: int, far: int)
    requires
        from.on_board(),
        -1 <= rows <= 1,
        -1 <= columns <= 1,
        0 <= near <= far,
        from.step(rows, columns, far).on_board(),
    ensures
        from.step(rows, columns, near).on_board(),
{
    lemma_scaled(near, rows);
    lemma_scaled(near, columns);
    lemma_scaled(far, rows);
    lemma_scaled(far, columns);
}

/// What a step of a ray is as an offset.
pub(crate) proof fn lemma_ray_step(rows: int, columns: int, end: int, k: int)
    requires
        -1 <= rows <= 1,
        -1 <= columns <= 1,
        1 <= end <= 8,
        0 <= k < end - 1,
    ensures
        ray_steps(rows, columns, end)[k].0 == (k + 1) * rows,
        ray_steps(rows, columns, end)[k].1 == (k + 1) * columns,
        -7 <= (k + 1) * rows <= 7,
        -7 <= (k + 1) * columns <= 7,
{
    lemma_scaled(k + 1, rows);
    lemma_scaled(k + 1, columns);
}

/// The landing squares of a ray are its steps up to the last one on the
/// board: once a ray has left the board it does not come back.
pub(crate) proof fn lemma_ray_path(from: Square, rows: int, columns: int, end: int, count: int)
    requires
        from.on_board(),
        -1 <= rows <= 1,
        -1 <= columns <= 1,
        1 <= end <= 8,
        0 <= count <= end - 1,
    ensures
        ({
            let path = landing_squares(from, ray_steps(rows, columns, end), count);
            &&& path.len() <= count
            &&& forall|k: int|
                0 <= k < path.len() ==> #[trigger] path[k] == from.step(rows, columns, k + 1)
                    && path[k].on_board()
            &&& forall|n: int|
                path.len() < n <= count ==> !(#[trigger] from.step(rows, columns, n)).on_board()
        }),
    decreases count,
{
    if count > 0 {
        lemma_ray_path(from, rows, columns, end, count - 1);
        lemma_ray_step(rows, columns, end, count - 1);
        let steps = ray_steps(rows, columns, end);
        let earlier = landing_squares(from, steps, count - 1);
        let path = landing_squares(from, steps, count);
        let square = shifted(from, steps[count - 1]);
        assert(square == from.step(rows, columns, count));
        if square.on_board() {
            if earlier.len() < count - 1 {
                let gap: int = earlier.len() as int + 1;
                lemma_steps_between(from, rows, columns, gap, count);
                assert(!from.step(rows, columns, gap).on_board());
            }
            assert(path == earlier.push(square));
        }
    }
}

/// A walk along the landing squares of a ray enters the squares that the
/// ray reaches.
pub(crate) proof fn lemma_walk_along_ray(
    board: BoardView,
    from: Square,
    team: Team,
    rows: int,
    columns: int,
    end: int,
    to: Square,
)
    requires
        from.on_board(),
        -1 <= rows <= 1,
        -1 <= columns <= 1,
        1 <= end <= 8,
    ensures
        board.walk_enters(team, landing_squares(from, ray_steps(rows, columns, end), end - 1), to)
            == board.ray_reaches(from, team, rows, columns, end - 1, to),
{
    let path = landing_squares(from, ray_steps(rows, columns, end), end - 1);
    lemma_ray_path(from, rows, columns, end, end - 1);
    if board.walk_enters(team, path, to) {
        let k = choose|k: int|
            0 <= k < path.len() && (#[trigger] path[k]) == to && board.free_along(path, k);
        assert forall|n: int| 1 <= n < k + 1 implies board.is_free(
            #[trigger] from.step(rows, columns, n),
        ) by {
            assert(path[n - 1] == from.step(rows, columns, n));
        }
        assert(to == from.step(rows, columns, k + 1));
    }
    if board.ray_reaches(from, team, rows, columns, end - 1, to) {
        let steps = choose|steps: int|
            1 <= steps <= end - 1 && to == #[trigger] from.step(rows, columns, steps)
                && board.clear_before(from, rows, columns, steps);
        assert(steps <= path.len());
        assert(path[steps - 1] == to);
        assert forall|j: int| 0 <= j < steps - 1 implies board.is_free(#[trigger] path[j]) by {
            assert(path[j] == from.step(rows, columns, j + 1));
        }
    }
}

/// A knight jumps to the landing squares of its jumps on which it may land.
pub(crate) proof fn lemma_jump_targets(board: BoardView, from: Square, piece: PieceView, to: Square)
    ensures
        board.jumps_to(from, piece, to) <==> board.may_land(piece.team, to) && landing_squares(
            from,
            knight_jumps(),
            8,
        ).contains(to),
{
    let jumps = knight_jumps();
    let landing = landing_squares(from, jumps, 8);
    lemma_landing_squares(from, jumps, 8);
    lemma_knight_jumps(to.row - from.row, to.column - from.column);
    if board.jumps_to(from, piece, to) {
        let j = choose|j: int|
            0 <= j < jumps.len() && (#[trigger] jumps[j]).0 == to.row - from.row && jumps[j].1
                == to.column - from.column;
        assert(shifted(from, jumps[j]) == to);
    }
    if board.may_land(piece.team, to) && landing.contains(to) {
        let k = choose|k: int| 0 <= k < landing.len() && landing[k] == to;
        let j = choose|j: int| 0 <= j < 8 && landing[k] == shifted(from, #[trigger] jumps[j]);
        assert(jumps[j].0 == to.row - from.row && jumps[j].1 == to.column - from.column);
    }
}

/// Whether the ray of one of the first `count` directions reaches `to`.
pub open spec fn rays_reach(
    board: BoardView,
    from: Square,
    team: Team,
    directions: Seq<(i8, i8)>,
    limit: int,
    count: int,
    to: Square,
) -> bool {
    exists|j: int|
        0 <= j < count && board.ray_reaches(
            from,
            team,
            (#[trigger] directions[j]).0 as int,
            directions[j].1 as int,
            limit,
            to,
        )
}

/// One more direction is counted in.
pub(crate) proof fn lemma_rays_next(
    board: BoardView,
    from: Square,
    team: Team,
    directions: Seq<(i8, i8)>,
    limit: int,
    count: int,
    to: Square,
)
    requires
        0 <= count < directions.len(),
    ensures
        rays_reach(board, from, team, directions, limit, count + 1, to) <==> rays_reach(
            board,
            from,
            team,
            directions,
            limit,
            count,
            to,
        ) || board.ray_reaches(
            from,
            team,
            directions[count].0 as int,
            directions[count].1 as int,
            limit,
            to,
        ),
{
    if rays_reach(board, from, team, directions, limit, count + 1, to) {
        let j = choose|j: int|
            0 <= j < count + 1 && board.ray_reaches(
                from,
                team,
                (#[trigger] directions[j]).0 as int,
                directions[j].1 as int,
                limit,
                to,
            );
        if j < count {
            assert(rays_reach(board, from, team, directions, limit, count, to));
        }
    }
    if rays_reach(board, from, team, directions, limit, count, to) {
        let j = choose|j: int|
            0 <= j < count && board.ray_reaches(
                from,
                team,
                (#[trigger] directions[j]).0 as int,
                directions[j].1 as int,
                limit,
                to,
            );
        assert(0 <= j < count + 1);
    }
    if board.ray_reaches(
        from,
        team,
        directions[count].0 as int,
        directions[count].1 as int,
        limit,
        to,
    ) {
        assert(0 <= count < count + 1);
    }
}

/// A sliding piece reaches the squares that the rays of its listed
/// directions reach.
pub(crate) proof fn lemma_slides_along_rays(
    board: BoardView,
    from: Square,
    piece: PieceView,
    to: Square,
)
    ensures
        board.slides_to(from, piece, to) <==> rays_reach(
            board,
            from,
            piece.team,
            ray_directions(piece.class),
            reach(piece.class),
            ray_directions(piece.class).len() as int,
            to,
        ),
{
    let directions = ray_directions(piece.class);
    if board.slides_to(from, piece, to) {
        let (rows, columns) = choose|rows: int, columns: int|
            is_direction(piece.class, rows, columns) && #[trigger] board.ray_reaches(
                from,
                piece.team,
                rows,
                columns,
                reach(piece.class),
                to,
            );
        lemma_ray_directions(piece.class, rows, columns);
        let j = choose|j: int|
            0 <= j < directions.len() && (#[trigger] directions[j]).0 == rows && directions[j].1
                == columns;
        assert(board.ray_reaches(
            from,
            piece.team,
            directions[j].0 as int,
            directions[j].1 as int,
            reach(piece.class),
            to,
        ));
    }
    if rays_reach(
        board,
        from,
        piece.team,
        directions,
        reach(piece.class),
        directions.len() as int,
        to,
    ) {
        let j = choose|j: int|
            0 <= j < directions.len() && board.ray_reaches(
                from,
                piece.team,
                (#[trigger] directions[j]).0 as int,
                directions[j].1 as int,
                reach(piece.class),
                to,
            );
        lemma_ray_directions(piece.class, directions[j].0 as int, directions[j].1 as int);
    }
}

/// Each listed direction of a class takes at most one step along a row and
/// at most one along a column.
pub(crate) proof fn lemma_unit_directions(class: PieceClass, j: int)
    requires
        0 <= j < ray_directions(class).len(),
    ensures
        -1 <= ray_directions(class)[j].0 <= 1,
        -1 <= ray_directions(class)[j].1 <= 1,
{
    let direction = ray_directions(class)[j];
    lemma_ray_directions(class, direction.0 as int, direction.1 as int);
}

/// The offsets of the steps before step `end` along a direction: one step,
/// two steps and so on.
pub(crate) fn ray_offsets(row_multiplier: i8, column_multiplier: i8, end: i8) -> (offsets: Vec<
    (i8, i8),
>)
    requires
        -1 <= row_multiplier <= 1,
        -1 <= column_multiplier <= 1,
        1 <= end <= 8,
    ensures
        offsets@ == ray_steps(row_multiplier as int, column_multiplier as int, end as int),
{
    let mut offsets: Vec<(i8, i8)> = Vec::new();
    let mut n: i8 = 1;
    while n < end
        invariant
            -1 <= row_multiplier <= 1,
            -1 <= column_multiplier <= 1,
            1 <= n <= end <= 8,
            offsets@ == ray_steps(row_multiplier as int, column_multiplier as int, n as int),
        decreases end - n,
    {
        proof {
            lemma_ray_step(row_multiplier as int, column_multiplier as int, end as int, n - 1);
        }
        offsets.push((n * row_multiplier, n * column_multiplier));
        n += 1;
        assert(offsets@ =~= ray_steps(row_multiplier as int, column_multiplier as int, n as int));
    }
    offsets
}

/// The coordinates that the offsets lead to from `from`, in the order of the
/// offsets and without those that leave the board.
pub(crate) fn offset_squares(from: &Coordinate, offsets: &Vec<(i8, i8)>) -> (path: Vec<Coordinate>)
    ensures
        path_view(path@) == landing_squares(from@, offsets@, offsets@.len() as int),
{
    let mut path: Vec<Coordinate> = Vec::new();
    let mut index: usize = 0;
    while index < offsets.len()
        invariant
            index <= offsets@.len(),
            path_view(path@) == landing_squares(from@, offsets@, index as int),
        decreases offsets@.len() - index,
    {
        let offset: (i8, i8) = offsets[index];
        let ghost earlier = path@;
        match from.checked_add_individual(offset.0, offset.1) {
            Ok(square) => {
                path.push(square);
                assert(path_view(path@) =~= path_view(earlier).push(square@));
            },
            Err(_) => {},
        }
        index += 1;
    }
    path
}

} // verus!
