//! What holds of every move, proved from the lane model.

use crate::geometry::{
    cell_at, depth_of, lane_of, lemma_cell_coordinates, lemma_step_toward_edge, Direction,
};
use crate::line::{
    lane_movable, lemma_lane_counts, lemma_lane_value, lemma_moving_lane, lemma_quiet_lane,
    lemma_sources, merge_count, movable_at, packed, slid, sources, tile_count, tile_value,
    tile_weight, tiles_of, value_weight,
};
use crate::rules::{
    can_slide, lane, lemma_lane_settled, movable, move_merges, moved_tiles, settled_board,
};
use crate::sweep::{lemma_movable_in_lane, lemma_total_by_lanes};
use crate::tile::Tile;
use vstd::prelude::*;

verus! {

/// The lanes of the board after a move are the lanes before it, each slid
/// on its own.
pub proof fn moved_lanes_are_slid(tiles: Seq<Tile>, dir: Direction, l: int)
    requires
        tiles.len() == 16,
        0 <= l < 4,
    ensures
        lane(moved_tiles(tiles, dir), dir, l) == slid(lane(tiles, dir, l)),
{
    assert forall|d: int| 0 <= d < 4 implies lane(moved_tiles(tiles, dir), dir, l)[d] == slid(
        lane(tiles, dir, l),
    )[d] by {
        lemma_cell_coordinates(dir, l, d);
    }
    assert(lane(moved_tiles(tiles, dir), dir, l) =~= slid(lane(tiles, dir, l)));
}

/// Where no tile has room to move toward `dir`, the move leaves every
/// cell as it is.
pub proof fn blocked_move_changes_nothing(tiles: Seq<Tile>, dir: Direction)
    requires
        settled_board(tiles),
        !can_slide(tiles, dir),
    ensures
        moved_tiles(tiles, dir) == tiles,
{
    assert forall|i: int| 0 <= i < 16 implies moved_tiles(tiles, dir)[i] == tiles[i] by {
        let l = lane_of(dir, i);
        let d = depth_of(dir, i);
        let whole = lane(tiles, dir, l);
        lemma_step_toward_edge(dir, i);
        lemma_lane_settled(tiles, dir, l);
        if lane_movable(whole) {
            let q = choose|q: int| movable_at(whole, q);
            lemma_movable_in_lane(tiles, dir, l, q);
            assert(movable(tiles, dir, cell_at(dir, l, q)));
        }
        lemma_quiet_lane(whole);
        assert(whole[d] == tiles[i]);
    }
    assert(moved_tiles(tiles, dir) =~= tiles);
}

/// Where some tile has room to move toward `dir`, the move changes the
/// board.
pub proof fn free_move_changes_board(tiles: Seq<Tile>, dir: Direction)
    requires
        settled_board(tiles),
        can_slide(tiles, dir),
    ensures
        moved_tiles(tiles, dir) != tiles,
{
    let i = choose|i: int| movable(tiles, dir, i);
    let l = lane_of(dir, i);
    let whole = lane(tiles, dir, l);
    lemma_step_toward_edge(dir, i);
    lemma_lane_settled(tiles, dir, l);
    lemma_movable_in_lane(tiles, dir, l, depth_of(dir, i));
    assert(movable_at(whole, depth_of(dir, i)));
    lemma_moving_lane(whole);
    moved_lanes_are_slid(tiles, dir, l);
}

/// A move never adds a tile: each merge takes one away, and sliding
/// takes none.
pub proof fn move_conserves_tiles(tiles: Seq<Tile>, dir: Direction)
    requires
        settled_board(tiles),
    ensures
        tile_count(moved_tiles(tiles, dir)) + move_merges(tiles, dir) == tile_count(tiles),
        tile_count(moved_tiles(tiles, dir)) <= tile_count(tiles),
{
    lemma_total_by_lanes(tiles, dir, tile_weight());
    lemma_total_by_lanes(moved_tiles(tiles, dir), dir, tile_weight());
    assert forall|l: int| 0 <= l < 4 implies tile_count(
        #[trigger] lane(moved_tiles(tiles, dir), dir, l),
    ) + merge_count(packed(lane(tiles, dir, l))) == tile_count(
        lane(tiles, dir, l),
    ) by {
        moved_lanes_are_slid(tiles, dir, l);
        lemma_lane_settled(tiles, dir, l);
        lemma_lane_counts(lane(tiles, dir, l));
    }
    assert(tile_count(lane(moved_tiles(tiles, dir), dir, 0)) >= 0);
    assert(tile_count(lane(moved_tiles(tiles, dir), dir, 1)) >= 0);
    assert(tile_count(lane(moved_tiles(tiles, dir), dir, 2)) >= 0);
    assert(tile_count(lane(moved_tiles(tiles, dir), dir, 3)) >= 0);
}

/// No tile merges twice in one move: in every lane, the tiles after the
/// move stand, in order, for exactly the tiles before it, each for one
/// tile or for two of the rank below its own.
pub proof fn merged_tiles_have_two_sources(tiles: Seq<Tile>, dir: Direction, l: int)
    requires
        settled_board(tiles),
        0 <= l < 4,
    ensures
        sources(packed(lane(tiles, dir, l))) == tiles_of(lane(tiles, dir, l)),
        lane(moved_tiles(tiles, dir), dir, l) == slid(lane(tiles, dir, l)),
{
    lemma_lane_settled(tiles, dir, l);
    lemma_sources(lane(tiles, dir, l));
    moved_lanes_are_slid(tiles, dir, l);
}

/// A move keeps the sum of the values on the board: what a merge takes
/// away in two tiles it gives back in one.
pub proof fn move_keeps_total_value(tiles: Seq<Tile>, dir: Direction)
    requires
        settled_board(tiles),
    ensures
        tile_value(moved_tiles(tiles, dir)) == tile_value(tiles),
{
    lemma_total_by_lanes(tiles, dir, value_weight());
    lemma_total_by_lanes(moved_tiles(tiles, dir), dir, value_weight());
    assert forall|l: int| 0 <= l < 4 implies tile_value(
        #[trigger] lane(moved_tiles(tiles, dir), dir, l),
    ) == tile_value(lane(tiles, dir, l)) by {
        moved_lanes_are_slid(tiles, dir, l);
        lemma_lane_settled(tiles, dir, l);
        lemma_lane_value(lane(tiles, dir, l));
    }
}

} // verus!
