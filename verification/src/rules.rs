//! What a move does to the sixteen cells, stated lane by lane.

use crate::geometry::{cell_at, depth_of, lane_of, lemma_cell_coordinates, spec_space_to, Direction};
use crate::line::{lane_gain, merge_count, packed, settled_tile, settled_tiles, slid};
use crate::tile::Tile;
use vstd::prelude::*;

verus! {

/// Sixteen tiles as the board holds them between moves.
pub open spec fn settled_board(tiles: Seq<Tile>) -> bool {
    tiles.len() == 16 && settled_tiles(tiles)
}

/// The lane `l` of the board for moves toward `dir`, edge first.
pub open spec fn lane(tiles: Seq<Tile>, dir: Direction, l: int) -> Seq<Tile> {
    Seq::new(4, |d: int| tiles[cell_at(dir, l, d)])
}

/// The board after a move toward `dir`: every lane slid on its own.
pub open spec fn moved_tiles(tiles: Seq<Tile>, dir: Direction) -> Seq<Tile> {
    Seq::new(16, |i: int| slid(lane(tiles, dir, lane_of(dir, i)))[depth_of(dir, i)])
}

/// What a move toward `dir` adds to the score: the value of every tile
/// that a merge makes, over the four lanes.
pub open spec fn move_gain(tiles: Seq<Tile>, dir: Direction) -> nat {
    lane_gain(lane(tiles, dir, 0)) + lane_gain(lane(tiles, dir, 1)) + lane_gain(
        lane(tiles, dir, 2),
    ) + lane_gain(lane(tiles, dir, 3))
}

/// How many merges a move toward `dir` makes, over the four lanes.
pub open spec fn move_merges(tiles: Seq<Tile>, dir: Direction) -> nat {
    merge_count(packed(lane(tiles, dir, 0))) + merge_count(packed(lane(tiles, dir, 1)))
        + merge_count(packed(lane(tiles, dir, 2))) + merge_count(packed(lane(tiles, dir, 3)))
}

/// The tile at `i` has room to move toward `dir`: its neighbour on that
/// side is empty or holds its equal.
pub open spec fn movable(tiles: Seq<Tile>, dir: Direction, i: int) -> bool {
    &&& 0 <= i < 16
    &&& !(tiles[i] is Empty)
    &&& spec_space_to(dir, i) matches Some(n) && (tiles[n] is Empty || tiles[n] == tiles[i])
}

/// A move toward `dir` changes the board: some tile has room to move.
pub open spec fn can_slide(tiles: Seq<Tile>, dir: Direction) -> bool {
    exists|i: int| movable(tiles, dir, i)
}

/// The lanes of a settled board hold settled tiles.
pub proof fn lemma_lane_settled(tiles: Seq<Tile>, dir: Direction, l: int)
    requires
        settled_board(tiles),
        0 <= l < 4,
    ensures
        settled_tiles(lane(tiles, dir, l)),
        lane(tiles, dir, l).len() == 4,
{
    assert forall|d: int| 0 <= d < 4 implies settled_tile(
        #[trigger] lane(tiles, dir, l)[d],
    ) by {
        lemma_cell_coordinates(dir, l, d);
    }
}

/// The positions of the empty cells, in ascending order.
pub open spec fn empty_cells(tiles: Seq<Tile>) -> Seq<int>
    decreases tiles.len(),
{
    if tiles.len() == 0 {
        Seq::empty()
    } else {
        let rest = empty_cells(tiles.drop_last());
        if tiles.last() is Empty {
            rest.push(tiles.len() - 1)
        } else {
            rest
        }
    }
}

/// No cell is empty.
pub open spec fn full(tiles: Seq<Tile>) -> bool {
    forall|i: int| 0 <= i < tiles.len() ==> !((#[trigger] tiles[i]) is Empty)
}

/// The game can go on: a cell is empty, or a move toward some edge
/// changes the board.
pub open spec fn has_moves(tiles: Seq<Tile>) -> bool {
    ||| !full(tiles)
    ||| can_slide(tiles, Direction::Up)
    ||| can_slide(tiles, Direction::Down)
    ||| can_slide(tiles, Direction::Left)
    ||| can_slide(tiles, Direction::Right)
}

/// `after` is `before` with one new tile, of rank 1 or 2, in a cell that
/// was empty.
pub open spec fn spawned(before: Seq<Tile>, after: Seq<Tile>) -> bool {
    exists|i: int|
        0 <= i < before.len() && (#[trigger] before[i]) is Empty && (after == before.update(
            i,
            Tile::Occupied(1),
        ) || after == before.update(i, Tile::Occupied(2)))
}

/// `empty_cells` lists every empty cell once, and nothing else.
pub proof fn lemma_empty_cells(tiles: Seq<Tile>)
    ensures
        empty_cells(tiles).len() <= tiles.len(),
        forall|k: int|
            0 <= k < empty_cells(tiles).len() ==> 0 <= (#[trigger] empty_cells(tiles)[k])
                < tiles.len() && tiles[empty_cells(tiles)[k]] is Empty,
        forall|k: int, m: int|
            0 <= k < m < empty_cells(tiles).len() ==> empty_cells(tiles)[k] < empty_cells(
                tiles,
            )[m],
        forall|i: int|
            0 <= i < tiles.len() && (#[trigger] tiles[i]) is Empty ==> empty_cells(
                tiles,
            ).contains(i),
        empty_cells(tiles).len() == 0 <==> full(tiles),
    decreases tiles.len(),
{
    if tiles.len() > 0 {
        let front = tiles.drop_last();
        let rest = empty_cells(front);
        let cells = empty_cells(tiles);
        lemma_empty_cells(front);
        assert forall|i: int| 0 <= i < tiles.len() && (#[trigger] tiles[i]) is Empty implies cells.contains(
            i,
        ) by {
            if i < tiles.len() - 1 {
                assert(front[i] is Empty);
                let k = choose|k: int| 0 <= k < rest.len() && rest[k] == i;
                assert(cells[k] == i);
            } else {
                assert(cells[cells.len() - 1] == i);
            }
        }
        if cells.len() == 0 {
            assert forall|i: int| 0 <= i < tiles.len() implies !((#[trigger] tiles[i]) is Empty) by {
                if tiles[i] is Empty {
                    assert(cells.contains(i));
                }
            }
        } else {
            assert(tiles[cells[0]] is Empty);
        }
    }
}

/// What a board takes in one more cell.
pub proof fn lemma_empty_cells_take(tiles: Seq<Tile>, i: int)
    requires
        0 <= i < tiles.len(),
    ensures
        empty_cells(tiles.take(i + 1)) == (if tiles[i] is Empty {
            empty_cells(tiles.take(i)).push(i)
        } else {
            empty_cells(tiles.take(i))
        }),
{
    assert(tiles.take(i + 1).drop_last() =~= tiles.take(i));
}

} // verus!
