//! Where the cells lie: row-major indices, the four directions, and the
//! lanes along which tiles travel.

use vstd::prelude::*;

verus! {

/// Cells along one side of the board.
pub const SIZE: usize = 4;

/// Cells on the whole board.
pub const LENGTH: usize = 16;

/// The edge toward which a move sends the tiles.
#[derive(Debug, Copy, Clone, PartialEq, Eq, Structural)]
pub enum Direction {
    Up,
    Down,
    Left,
    Right,
}

/// The cell next to `i` on the side of `dir`, or `None` where `i` lies on
/// that edge. A step never leaves the row or column of `i`.
pub open spec fn spec_space_to(dir: Direction, i: int) -> Option<int> {
    match dir {
        Direction::Up => if i / 4 == 0 { None } else { Some(i - 4) },
        Direction::Down => if i / 4 == 3 { None } else { Some(i + 4) },
        Direction::Left => if i % 4 == 0 { None } else { Some(i - 1) },
        Direction::Right => if i % 4 == 3 { None } else { Some(i + 1) },
    }
}

/// The lane of cell `i` for moves toward `dir`: its row for a horizontal
/// move, its column for a vertical one.
pub open spec fn lane_of(dir: Direction, i: int) -> int {
    match dir {
        Direction::Up | Direction::Down => i % 4,
        Direction::Left | Direction::Right => i / 4,
    }
}

/// How many steps toward `dir` separate cell `i` from the edge.
pub open spec fn depth_of(dir: Direction, i: int) -> int {
    match dir {
        Direction::Up => i / 4,
        Direction::Down => 3 - i / 4,
        Direction::Left => i % 4,
        Direction::Right => 3 - i % 4,
    }
}

/// The cell of lane `lane` that lies `depth` steps from the edge of `dir`.
pub open spec fn cell_at(dir: Direction, lane: int, depth: int) -> int {
    match dir {
        Direction::Up => depth * 4 + lane,
        Direction::Down => (3 - depth) * 4 + lane,
        Direction::Left => lane * 4 + depth,
        Direction::Right => lane * 4 + (3 - depth),
    }
}

/// The cell visited at step `k` of a move toward `dir`: ascending indices
/// for `Up` and `Left`, descending ones for `Down` and `Right`, so that in
/// every lane the cells nearer the edge come first.
pub open spec fn scan_at(dir: Direction, k: int) -> int {
    match dir {
        Direction::Up | Direction::Left => k,
        Direction::Down | Direction::Right => 15 - k,
    }
}

/// Row and column of a cell.
pub fn to_row_col(i: usize) -> (rc: (usize, usize))
    ensures
        rc.0 == i / 4,
        rc.1 == i % 4,
{
    (i / SIZE, i % SIZE)
}

/// The cell at a row and a column.
pub fn from_row_col(r: usize, c: usize) -> (i: usize)
    requires
        r * 4 + c <= usize::MAX,
    ensures
        i == r * 4 + c,
{
    r * SIZE + c
}

/// The neighbour of `i` on the side of `dir`, if `i` is not on that edge.
/// A cell of the board has its neighbours on the board.
pub fn space_to(dir: Direction, i: usize) -> (n: Option<usize>)
    requires
        i + 4 <= usize::MAX,
    ensures
        match n {
            Some(j) => spec_space_to(dir, i as int) == Some(j as int) && (i < LENGTH ==> j
                < LENGTH),
            None => spec_space_to(dir, i as int) is None,
        },
{
    let (r, c) = to_row_col(i);
    match dir {
        Direction::Up => if r == 0 {
            None
        } else {
            Some(from_row_col(r - 1, c))
        },
        Direction::Down => if r == SIZE - 1 {
            None
        } else {
            Some(from_row_col(r + 1, c))
        },
        Direction::Left => if c == 0 {
            None
        } else {
            Some(from_row_col(r, c - 1))
        },
        Direction::Right => if c == SIZE - 1 {
            None
        } else {
            Some(from_row_col(r, c + 1))
        },
    }
}

/// The order in which a move toward `dir` visits the cells.
pub fn scan_sequence(dir: Direction) -> (order: Vec<usize>)
    ensures
        order@.len() == LENGTH,
        forall|k: int| 0 <= k < LENGTH ==> order@[k] as int == scan_at(dir, k),
{
    let ascending = match dir {
        Direction::Up | Direction::Left => true,
        Direction::Down | Direction::Right => false,
    };
    let mut order: Vec<usize> = Vec::new();
    let mut k: usize = 0;
    while k < LENGTH
        invariant
            k <= LENGTH,
            order@.len() == k,
            ascending == (dir == Direction::Up || dir == Direction::Left),
            forall|j: int| 0 <= j < k ==> order@[j] as int == scan_at(dir, j),
        decreases LENGTH - k,
    {
        if ascending {
            order.push(k);
        } else {
            order.push(LENGTH - 1 - k);
        }
        k += 1;
    }
    order
}

/// Stepping toward the edge stays in the lane and comes one cell nearer.
pub proof fn lemma_step_toward_edge(dir: Direction, i: int)
    requires
        0 <= i < 16,
    ensures
        0 <= lane_of(dir, i) < 4,
        0 <= depth_of(dir, i) < 4,
        cell_at(dir, lane_of(dir, i), depth_of(dir, i)) == i,
        spec_space_to(dir, i) is None <==> depth_of(dir, i) == 0,
        spec_space_to(dir, i) matches Some(n) ==> 0 <= n < 16 && lane_of(dir, n) == lane_of(dir, i)
            && depth_of(dir, n) == depth_of(dir, i) - 1,
{
}

/// Lane and depth name each cell once.
pub proof fn lemma_cell_coordinates(dir: Direction, lane: int, depth: int)
    requires
        0 <= lane < 4,
        0 <= depth < 4,
    ensures
        0 <= cell_at(dir, lane, depth) < 16,
        lane_of(dir, cell_at(dir, lane, depth)) == lane,
        depth_of(dir, cell_at(dir, lane, depth)) == depth,
{
}

} // verus!
