//! The sweep that carries out a move: the cells are visited one by one,
//! those nearer the edge first, and the tile of each slides as far as it
//! can. The lemmas here show that the sweep arrives at what the lane model
//! says.

use crate::geometry::{
    cell_at, depth_of, lane_of, lemma_cell_coordinates, lemma_step_toward_edge, scan_at,
    spec_space_to, Direction,
};
use crate::line::{
    lemma_packed_shape, lemma_packed_take, lemma_shifts_iff_movable, lemma_total_of_four,
    lemma_total_padded, lemma_total_take, movable_at, packed, packed_tile, padded, partial,
    score_sum, score_weight, settled_tiles, shifts_at, total,
};
use crate::rules::{
    can_slide, lane, lemma_lane_settled, movable, move_gain, moved_tiles, settled_board,
};
use crate::tile::Tile;
use vstd::prelude::*;

verus! {

/// Where the tile `t`, standing at `i`, comes to rest, and as what: it
/// passes empty cells, merges into the first tile it meets if that is its
/// settled equal, and otherwise stops before it or at the edge.
pub open spec fn landing(tiles: Seq<Tile>, dir: Direction, i: int, t: Tile) -> (int, Tile)
    decreases depth_of(dir, i),
{
    if 0 <= i < 16 {
        match spec_space_to(dir, i) {
            Some(n) => {
                if tiles[n] is Empty {
                    landing(tiles, dir, n, t)
                } else if t.spec_can_merge(tiles[n]) {
                    (n, t.spec_next())
                } else {
                    (i, t)
                }
            },
            None => (i, t),
        }
    } else {
        (i, t)
    }
}

/// Sliding the tile at `i` moves it.
pub open spec fn tile_moves(tiles: Seq<Tile>, dir: Direction, i: int) -> bool {
    !(tiles[i] is Empty) && landing(tiles, dir, i, tiles[i]).0 != i
}

/// The board after the tile at `i` alone has slid.
pub open spec fn after_tile(tiles: Seq<Tile>, dir: Direction, i: int) -> Seq<Tile> {
    if tile_moves(tiles, dir, i) {
        let to = landing(tiles, dir, i, tiles[i]);
        tiles.update(i, Tile::Empty).update(to.0, to.1)
    } else {
        tiles
    }
}

/// How many cells of lane `l` are among the first `k` that a move toward
/// `dir` visits.
pub open spec fn progress(dir: Direction, k: int, l: int) -> int {
    match dir {
        Direction::Left => if l < k / 4 {
            4
        } else if l == k / 4 {
            k % 4
        } else {
            0
        },
        Direction::Right => if l > 3 - k / 4 {
            4
        } else if l == 3 - k / 4 {
            k % 4
        } else {
            0
        },
        Direction::Up => k / 4 + if l < k % 4 {
            1int
        } else {
            0int
        },
        Direction::Down => k / 4 + if l > 3 - k % 4 {
            1int
        } else {
            0int
        },
    }
}

/// The board `cur` is what the first `k` steps of a move toward `dir`
/// make of `orig`.
pub open spec fn swept(orig: Seq<Tile>, cur: Seq<Tile>, dir: Direction, k: int) -> bool {
    &&& cur.len() == 16
    &&& forall|l: int|
        0 <= l < 4 ==> #[trigger] lane(cur, dir, l) == partial(
            lane(orig, dir, l),
            progress(dir, k, l),
        )
}

/// Each step of a move visits the next cell of some lane.
pub proof fn lemma_progress_step(dir: Direction, k: int)
    requires
        0 <= k < 16,
    ensures
        progress(dir, k, lane_of(dir, scan_at(dir, k))) == depth_of(dir, scan_at(dir, k)),
        forall|l: int|
            0 <= l < 4 ==> #[trigger] progress(dir, k + 1, l) == progress(dir, k, l) + if l
                == lane_of(dir, scan_at(dir, k)) {
                1int
            } else {
                0int
            },
        forall|l: int| 0 <= l < 4 ==> #[trigger] progress(dir, 0, l) == 0,
        forall|l: int| 0 <= l < 4 ==> #[trigger] progress(dir, 16, l) == 4,
        forall|l: int| 0 <= l < 4 ==> 0 <= #[trigger] progress(dir, k, l) <= 4,
{
}

/// `landing` read within one lane: where the tile `t`, standing at depth
/// `s` of the lane `here`, comes to rest, and as what.
pub open spec fn lane_landing(here: Seq<Tile>, s: int, t: Tile) -> (int, Tile)
    decreases s,
{
    if 0 < s {
        if here[s - 1] is Empty {
            lane_landing(here, s - 1, t)
        } else if t.spec_can_merge(here[s - 1]) {
            (s - 1, t.spec_next())
        } else {
            (s, t)
        }
    } else {
        (s, t)
    }
}

/// The lane `here` after the tile at depth `p` alone has slid.
pub open spec fn lane_after(here: Seq<Tile>, p: int) -> Seq<Tile> {
    let to = lane_landing(here, p, here[p]);
    if !(here[p] is Empty) && to.0 != p {
        here.update(p, Tile::Empty).update(to.0, to.1)
    } else {
        here
    }
}

/// A tile lands in its own lane, where the lane alone says.
pub proof fn lemma_landing_in_lane(tiles: Seq<Tile>, dir: Direction, l: int, s: int, t: Tile)
    requires
        tiles.len() == 16,
        0 <= l < 4,
        0 <= s < 4,
    ensures
        0 <= lane_landing(lane(tiles, dir, l), s, t).0 <= s,
        landing(tiles, dir, cell_at(dir, l, s), t) == (
            cell_at(dir, l, lane_landing(lane(tiles, dir, l), s, t).0),
            lane_landing(lane(tiles, dir, l), s, t).1,
        ),
    decreases s,
{
    let i = cell_at(dir, l, s);
    lemma_cell_coordinates(dir, l, s);
    lemma_step_toward_edge(dir, i);
    if s > 0 {
        let n = spec_space_to(dir, i)->0;
        lemma_cell_coordinates(dir, l, s - 1);
        assert(n == cell_at(dir, l, s - 1));
        assert(lane(tiles, dir, l)[s - 1] == tiles[n]);
        if tiles[n] is Empty {
            lemma_landing_in_lane(tiles, dir, l, s - 1, t);
        }
    }
}

/// Within a lane, a tile behind a run of empty cells lands at the start
/// of the run, or merges into the tile before the run if that is its
/// equal.
pub proof fn lemma_lane_landing(here: Seq<Tile>, m: int, s: int, t: Tile)
    requires
        0 <= m <= s < here.len(),
        forall|d: int| m <= d < s ==> here[d] is Empty,
        m > 0 ==> !(here[m - 1] is Empty),
    ensures
        lane_landing(here, s, t) == (if m > 0 && t.spec_can_merge(here[m - 1]) {
            (m - 1, t.spec_next())
        } else {
            (m, t)
        }),
    decreases s - m,
{
    if m < s {
        lemma_lane_landing(here, m, s - 1, t);
    }
}

/// One step within a lane: after the first `p` cells, sliding the tile at
/// `p` gives the lane after the first `p + 1`, and changes the lane
/// exactly when the model says so.
pub proof fn lemma_lane_step(whole: Seq<Tile>, p: int)
    requires
        settled_tiles(whole),
        0 <= p < whole.len(),
    ensures
        partial(whole, p)[p] == whole[p],
        lane_after(partial(whole, p), p) == partial(whole, p + 1),
        shifts_at(whole, p) <==> !(whole[p] is Empty) && lane_landing(
            partial(whole, p),
            p,
            whole[p],
        ).0 != p,
{
    let here = partial(whole, p);
    let done = packed(whole.take(p));
    let m = done.len() as int;
    let t = whole[p];
    assert(settled_tiles(whole.take(p)));
    lemma_packed_shape(whole.take(p));
    lemma_packed_take(whole, p);
    assert(here[p] == t);
    if m > 0 {
        assert(packed_tile(done[m - 1]));
        assert(here[m - 1] == done[m - 1]);
    }
    lemma_lane_landing(here, m, p, t);
    assert(lane_after(here, p) =~= partial(whole, p + 1));
}

/// Sliding one tile changes its own lane as the lane alone says, and no
/// other lane.
pub proof fn lemma_after_tile_lanes(tiles: Seq<Tile>, dir: Direction, i: int, l2: int)
    requires
        tiles.len() == 16,
        0 <= i < 16,
        0 <= l2 < 4,
    ensures
        after_tile(tiles, dir, i).len() == 16,
        lane(after_tile(tiles, dir, i), dir, l2) == (if l2 == lane_of(dir, i) {
            lane_after(lane(tiles, dir, l2), depth_of(dir, i))
        } else {
            lane(tiles, dir, l2)
        }),
        l2 == lane_of(dir, i) ==> (tile_moves(tiles, dir, i) <==> !(tiles[i] is Empty)
            && lane_landing(lane(tiles, dir, l2), depth_of(dir, i), tiles[i]).0 != depth_of(
            dir,
            i,
        )),
{
    let l = lane_of(dir, i);
    let p = depth_of(dir, i);
    let next = after_tile(tiles, dir, i);
    lemma_step_toward_edge(dir, i);
    lemma_landing_in_lane(tiles, dir, l, p, tiles[i]);
    let to = lane_landing(lane(tiles, dir, l), p, tiles[i]);
    lemma_cell_coordinates(dir, l, to.0);
    assert(lane(tiles, dir, l)[p] == tiles[i]);
    assert forall|d: int| 0 <= d < 4 implies lane(next, dir, l2)[d] == (if l2 == l {
        lane_after(lane(tiles, dir, l2), p)[d]
    } else {
        lane(tiles, dir, l2)[d]
    }) by {
        lemma_cell_coordinates(dir, l2, d);
    }
    if l2 == l {
        assert(lane(next, dir, l2) =~= lane_after(lane(tiles, dir, l2), p));
    } else {
        assert(lane(next, dir, l2) =~= lane(tiles, dir, l2));
    }
}

/// One step of a move: sliding the tile of the next cell brings its lane
/// one cell further and leaves the other lanes alone. The tile moves
/// exactly when the lane model says that the step changes the lane.
pub proof fn lemma_sweep_step(orig: Seq<Tile>, cur: Seq<Tile>, dir: Direction, k: int)
    requires
        settled_board(orig),
        0 <= k < 16,
        swept(orig, cur, dir, k),
    ensures
        cur[scan_at(dir, k)] == orig[scan_at(dir, k)],
        swept(orig, after_tile(cur, dir, scan_at(dir, k)), dir, k + 1),
        tile_moves(cur, dir, scan_at(dir, k)) <==> shifts_at(
            lane(orig, dir, lane_of(dir, scan_at(dir, k))),
            depth_of(dir, scan_at(dir, k)),
        ),
{
    let i = scan_at(dir, k);
    let l = lane_of(dir, i);
    let p = depth_of(dir, i);
    let whole = lane(orig, dir, l);
    let next = after_tile(cur, dir, i);
    lemma_progress_step(dir, k);
    lemma_step_toward_edge(dir, i);
    lemma_lane_settled(orig, dir, l);
    lemma_lane_step(whole, p);
    assert(lane(cur, dir, l) == partial(whole, p));
    assert(lane(cur, dir, l)[p] == cur[i]);
    assert(whole[p] == orig[i]);
    assert forall|l2: int| 0 <= l2 < 4 implies #[trigger] lane(next, dir, l2) == partial(
        lane(orig, dir, l2),
        progress(dir, k + 1, l2),
    ) by {
        lemma_after_tile_lanes(cur, dir, i, l2);
    }
    lemma_after_tile_lanes(cur, dir, i, l);
}

/// Before the first step the board is as it was.
pub proof fn lemma_sweep_start(orig: Seq<Tile>, dir: Direction)
    requires
        settled_board(orig),
    ensures
        swept(orig, orig, dir, 0),
{
    lemma_progress_step(dir, 0);
    assert forall|l: int| 0 <= l < 4 implies #[trigger] lane(orig, dir, l) == partial(
        lane(orig, dir, l),
        progress(dir, 0, l),
    ) by {
        let whole = lane(orig, dir, l);
        assert(whole.take(0) =~= Seq::<Tile>::empty());
        assert(whole =~= partial(whole, 0));
    }
}

/// The total of sixteen tiles is the total of their four lanes.
pub proof fn lemma_total_by_lanes(tiles: Seq<Tile>, dir: Direction, w: spec_fn(Tile) -> nat)
    requires
        tiles.len() == 16,
    ensures
        total(tiles, w) == total(lane(tiles, dir, 0), w) + total(lane(tiles, dir, 1), w) + total(
            lane(tiles, dir, 2),
            w,
        ) + total(lane(tiles, dir, 3), w),
{
    assert(tiles.take(0) =~= Seq::<Tile>::empty());
    assert(tiles.take(16) =~= tiles);
    lemma_total_take(tiles, 0, w);
    lemma_total_take(tiles, 1, w);
    lemma_total_take(tiles, 2, w);
    lemma_total_take(tiles, 3, w);
    lemma_total_take(tiles, 4, w);
    lemma_total_take(tiles, 5, w);
    lemma_total_take(tiles, 6, w);
    lemma_total_take(tiles, 7, w);
    lemma_total_take(tiles, 8, w);
    lemma_total_take(tiles, 9, w);
    lemma_total_take(tiles, 10, w);
    lemma_total_take(tiles, 11, w);
    lemma_total_take(tiles, 12, w);
    lemma_total_take(tiles, 13, w);
    lemma_total_take(tiles, 14, w);
    lemma_total_take(tiles, 15, w);
    lemma_total_of_four(lane(tiles, dir, 0), w);
    lemma_total_of_four(lane(tiles, dir, 1), w);
    lemma_total_of_four(lane(tiles, dir, 2), w);
    lemma_total_of_four(lane(tiles, dir, 3), w);
}

/// After the last step every lane is packed: settling the marks gives the
/// board that the lane model names, and the marks add up to its gain.
pub proof fn lemma_sweep_end(orig: Seq<Tile>, cur: Seq<Tile>, dir: Direction)
    requires
        settled_board(orig),
        swept(orig, cur, dir, 16),
    ensures
        forall|i: int| 0 <= i < 16 ==> (#[trigger] cur[i]).spec_finalize() == moved_tiles(orig, dir)[i],
        forall|i: int| 0 <= i < 16 ==> (#[trigger] cur[i]) is Empty || packed_tile(cur[i]),
        score_sum(cur) == move_gain(orig, dir),
{
    lemma_progress_step(dir, 0);
    assert forall|l: int| 0 <= l < 4 implies #[trigger] lane(cur, dir, l) == padded(
        packed(lane(orig, dir, l)),
        4,
    ) && total(lane(cur, dir, l), score_weight()) == total(
        packed(lane(orig, dir, l)),
        score_weight(),
    ) && (forall|d: int|
        0 <= d < 4 ==> (#[trigger] lane(cur, dir, l)[d]) is Empty || packed_tile(
            lane(cur, dir, l)[d],
        )) by {
        let whole = lane(orig, dir, l);
        lemma_lane_settled(orig, dir, l);
        assert(whole.take(4) =~= whole);
        lemma_packed_shape(whole);
        assert(partial(whole, 4) =~= padded(packed(whole), 4));
        lemma_total_padded(packed(whole), 4, score_weight());
    }
    assert forall|i: int| 0 <= i < 16 implies (#[trigger] cur[i]).spec_finalize() == moved_tiles(
        orig,
        dir,
    )[i] && (cur[i] is Empty || packed_tile(cur[i])) by {
        lemma_step_toward_edge(dir, i);
        let l = lane_of(dir, i);
        let d = depth_of(dir, i);
        assert(lane(cur, dir, l)[d] == cur[i]);
    }
    lemma_total_by_lanes(cur, dir, score_weight());
}

/// The step `j` of a move toward `dir` changes the board `orig`.
pub open spec fn step_shifts(orig: Seq<Tile>, dir: Direction, j: int) -> bool {
    shifts_at(lane(orig, dir, lane_of(dir, scan_at(dir, j))), depth_of(dir, scan_at(dir, j)))
}

/// Having room to move, read on the board and read within the lane, is
/// one thing.
pub proof fn lemma_movable_in_lane(tiles: Seq<Tile>, dir: Direction, l: int, q: int)
    requires
        tiles.len() == 16,
        0 <= l < 4,
        0 <= q < 4,
    ensures
        movable(tiles, dir, cell_at(dir, l, q)) <==> movable_at(lane(tiles, dir, l), q),
{
    let i = cell_at(dir, l, q);
    lemma_cell_coordinates(dir, l, q);
    lemma_step_toward_edge(dir, i);
    if q > 0 {
        lemma_cell_coordinates(dir, l, q - 1);
        assert(spec_space_to(dir, i) == Some(cell_at(dir, l, q - 1)));
    }
}

/// A step of the sweep that changes the board shows a tile with room to
/// move.
proof fn lemma_shift_shows_room(orig: Seq<Tile>, dir: Direction, j: int)
    requires
        settled_board(orig),
        0 <= j < 16,
        step_shifts(orig, dir, j),
    ensures
        can_slide(orig, dir),
{
    let i = scan_at(dir, j);
    let l = lane_of(dir, i);
    let whole = lane(orig, dir, l);
    lemma_step_toward_edge(dir, i);
    lemma_lane_settled(orig, dir, l);
    assert(0 <= depth_of(dir, i) < 4 && shifts_at(whole, depth_of(dir, i)));
    lemma_shifts_iff_movable(whole, 4);
    let q = choose|q: int| 0 <= q < 4 && movable_at(whole, q);
    lemma_movable_in_lane(orig, dir, l, q);
    assert(movable(orig, dir, cell_at(dir, l, q)));
}

/// A tile with room to move makes some step of the sweep change the
/// board.
proof fn lemma_room_shows_shift(orig: Seq<Tile>, dir: Direction, i: int)
    requires
        settled_board(orig),
        movable(orig, dir, i),
    ensures
        exists|j: int| 0 <= j < 16 && step_shifts(orig, dir, j),
{
    let l = lane_of(dir, i);
    let d = depth_of(dir, i);
    let whole = lane(orig, dir, l);
    lemma_step_toward_edge(dir, i);
    lemma_lane_settled(orig, dir, l);
    lemma_movable_in_lane(orig, dir, l, d);
    assert(0 <= d < 4 && movable_at(whole, d));
    lemma_shifts_iff_movable(whole, 4);
    let q = choose|q: int| 0 <= q < 4 && shifts_at(whole, q);
    lemma_cell_coordinates(dir, l, q);
    let c = cell_at(dir, l, q);
    let j = scan_at(dir, c);
    assert(scan_at(dir, j) == c);
    assert(0 <= j < 16 && step_shifts(orig, dir, j));
}

/// Some step of the sweep changes the board exactly when some tile has
/// room to move.
pub proof fn lemma_sweep_moves(orig: Seq<Tile>, dir: Direction)
    requires
        settled_board(orig),
    ensures
        (exists|j: int| 0 <= j < 16 && step_shifts(orig, dir, j)) <==> can_slide(orig, dir),
{
    if exists|j: int| 0 <= j < 16 && step_shifts(orig, dir, j) {
        let j = choose|j: int| 0 <= j < 16 && step_shifts(orig, dir, j);
        lemma_shift_shows_room(orig, dir, j);
    }
    if can_slide(orig, dir) {
        let i = choose|i: int| movable(orig, dir, i);
        lemma_room_shows_shift(orig, dir, i);
    }
}

} // verus!
