//! One lane of the board, read from the edge the tiles move toward.
//!
//! A move treats each lane alone. Its tiles are taken from the edge
//! outward; each one either merges into the tile placed last, when that
//! tile is settled and of the same rank, or is placed next to it.

use crate::tile::{Tile, MAX_RANK};
use vstd::arithmetic::power2::{lemma_pow2_unfold, pow2};
use vstd::prelude::*;

verus! {

/// A tile as the board holds it between moves: empty, or settled with a
/// rank from 1 to `MAX_RANK`.
pub open spec fn settled_tile(t: Tile) -> bool {
    match t {
        Tile::Empty => true,
        Tile::Occupied(r) => 1 <= r <= MAX_RANK,
        Tile::WillOccupy(_) => false,
    }
}

/// Every tile of the sequence is as the board holds it between moves.
pub open spec fn settled_tiles(s: Seq<Tile>) -> bool {
    forall|j: int| 0 <= j < s.len() ==> settled_tile(#[trigger] s[j])
}

/// The tiles of `s` after sliding toward index 0, without the empty cells
/// behind them. A tile made by a merge is marked `WillOccupy`, which keeps
/// it from merging again.
pub open spec fn packed(s: Seq<Tile>) -> Seq<Tile>
    decreases s.len(),
{
    if s.len() == 0 {
        Seq::empty()
    } else {
        let rest = packed(s.drop_last());
        let t = s.last();
        if t is Empty {
            rest
        } else if rest.len() > 0 && t.spec_can_merge(rest.last()) {
            rest.drop_last().push(t.spec_next())
        } else {
            rest.push(t)
        }
    }
}

/// The lane `s` once its first `p` cells have slid: the packed tiles, then
/// empty cells up to `p`, then the cells not reached yet.
pub open spec fn partial(s: Seq<Tile>, p: int) -> Seq<Tile> {
    let done = packed(s.take(p));
    Seq::new(
        s.len(),
        |j: int|
            if j < done.len() {
                done[j]
            } else if j < p {
                Tile::Empty
            } else {
                s[j]
            },
    )
}

/// The lane `s` after a move: every tile slid, every mark settled.
pub open spec fn slid(s: Seq<Tile>) -> Seq<Tile> {
    let done = packed(s);
    Seq::new(
        s.len(),
        |j: int|
            if j < done.len() {
                done[j].spec_finalize()
            } else {
                Tile::Empty
            },
    )
}

/// The sum of the weights `w` of the tiles of `s`.
pub open spec fn total(s: Seq<Tile>, w: spec_fn(Tile) -> nat) -> nat
    decreases s.len(),
{
    if s.len() == 0 {
        0
    } else {
        total(s.drop_last(), w) + w(s.last())
    }
}

/// The weight that counts what a tile adds to the score.
pub open spec fn score_weight() -> spec_fn(Tile) -> nat {
    |t: Tile| t.spec_score()
}

/// The weight that counts the tiles: one for every cell that is not empty.
pub open spec fn tile_weight() -> spec_fn(Tile) -> nat {
    |t: Tile|
        if t is Empty {
            0nat
        } else {
            1nat
        }
}

/// The weight that counts the merges: one for every marked tile.
pub open spec fn merge_weight() -> spec_fn(Tile) -> nat {
    |t: Tile|
        if t is WillOccupy {
            1nat
        } else {
            0nat
        }
}

/// The weight that counts the values: `2^r` for every tile of rank `r`.
pub open spec fn value_weight() -> spec_fn(Tile) -> nat {
    |t: Tile|
        if t is Empty {
            0nat
        } else {
            pow2(t.rank() as nat)
        }
}

/// The sum of what each tile of `s` adds to the score.
pub open spec fn score_sum(s: Seq<Tile>) -> nat {
    total(s, score_weight())
}

/// The number of cells of `s` that hold a tile.
pub open spec fn tile_count(s: Seq<Tile>) -> nat {
    total(s, tile_weight())
}

/// The sum of the values of the tiles of `s`.
pub open spec fn tile_value(s: Seq<Tile>) -> nat {
    total(s, value_weight())
}

/// The number of tiles of `s` that a merge made in the move in progress.
pub open spec fn merge_count(s: Seq<Tile>) -> nat {
    total(s, merge_weight())
}

/// The tiles `done`, followed by empty cells up to the length `n`.
pub open spec fn padded(done: Seq<Tile>, n: nat) -> Seq<Tile> {
    Seq::new(
        n,
        |j: int|
            if j < done.len() {
                done[j]
            } else {
                Tile::Empty
            },
    )
}

/// What a move adds to the score in the lane `s`: the value of every tile
/// that a merge made.
pub open spec fn lane_gain(s: Seq<Tile>) -> nat {
    score_sum(packed(s))
}

/// The tile at `p` has room to move: the cell before it is empty or holds
/// its equal.
pub open spec fn movable_at(s: Seq<Tile>, p: int) -> bool {
    &&& 0 < p < s.len()
    &&& !(s[p] is Empty)
    &&& (s[p - 1] is Empty || s[p - 1] == s[p])
}

/// Some tile of the lane has room to move.
pub open spec fn lane_movable(s: Seq<Tile>) -> bool {
    exists|p: int| movable_at(s, p)
}

/// Sliding the tile at `p`, after those before it, changes the lane.
pub open spec fn shifts_at(s: Seq<Tile>, p: int) -> bool {
    let done = packed(s.take(p));
    &&& 0 <= p < s.len()
    &&& !(s[p] is Empty)
    &&& (done.len() < p || (done.len() > 0 && s[p].spec_can_merge(done.last())))
}

/// A packed tile is never empty; it is settled, or marked with a rank that
/// a merge of two settled tiles gives.
pub open spec fn packed_tile(t: Tile) -> bool {
    match t {
        Tile::Empty => false,
        Tile::Occupied(r) => 1 <= r <= MAX_RANK,
        Tile::WillOccupy(r) => 2 <= r <= MAX_RANK + 1,
    }
}

/// What sliding one more cell does to the packed tiles.
pub proof fn lemma_packed_take(s: Seq<Tile>, p: int)
    requires
        0 <= p < s.len(),
    ensures
        packed(s.take(p + 1)) == ({
            let rest = packed(s.take(p));
            let t = s[p];
            if t is Empty {
                rest
            } else if rest.len() > 0 && t.spec_can_merge(rest.last()) {
                rest.drop_last().push(t.spec_next())
            } else {
                rest.push(t)
            }
        }),
{
    assert(s.take(p + 1).drop_last() =~= s.take(p));
}

/// Packing settled tiles keeps them in the lane and leaves no empty cell
/// among them.
pub proof fn lemma_packed_shape(s: Seq<Tile>)
    requires
        settled_tiles(s),
    ensures
        packed(s).len() <= s.len(),
        forall|j: int| 0 <= j < packed(s).len() ==> packed_tile(#[trigger] packed(s)[j]),
    decreases s.len(),
{
    if s.len() > 0 {
        lemma_packed_shape(s.drop_last());
    }
}

/// A lane whose first `p` cells hold no tile with room to move is packed
/// that far already, and sliding these cells changes nothing.
pub proof fn lemma_quiet_prefix(s: Seq<Tile>, p: int)
    requires
        settled_tiles(s),
        0 <= p <= s.len(),
        forall|q: int| 0 <= q < p ==> !movable_at(s, q),
    ensures
        packed(s.take(p)).len() <= p,
        packed(s.take(p)) == s.take(packed(s.take(p)).len() as int),
        forall|j: int| packed(s.take(p)).len() <= j < p ==> s[j] is Empty,
        partial(s, p) == s,
        forall|q: int| 0 <= q < p ==> !shifts_at(s, q),
    decreases p,
{
    if p == 0 {
        assert(s.take(0) =~= Seq::<Tile>::empty());
        assert(partial(s, 0) =~= s);
    } else {
        lemma_quiet_prefix(s, p - 1);
        lemma_packed_take(s, p - 1);
        let before = packed(s.take(p - 1));
        let m = before.len() as int;
        let t = s[p - 1];
        assert(!movable_at(s, p - 1));
        assert(settled_tile(t));
        if t is Empty {
        } else {
            if m < p - 1 {
                assert(s[p - 2] is Empty);
            }
            assert(m == p - 1);
            if m > 0 {
                assert(before.last() == s[p - 2]);
                assert(settled_tile(s[p - 2]));
            }
            assert(packed(s.take(p)) =~= s.take(p));
        }
        assert(partial(s, p) =~= s);
    }
}

/// Among the first `p` cells of a lane, sliding changes something exactly
/// when some tile has room to move.
pub proof fn lemma_shifts_iff_movable(s: Seq<Tile>, p: int)
    requires
        settled_tiles(s),
        0 <= p <= s.len(),
    ensures
        (exists|q: int| 0 <= q < p && shifts_at(s, q)) <==> (exists|q: int|
            0 <= q < p && movable_at(s, q)),
    decreases p,
{
    if p > 0 {
        lemma_shifts_iff_movable(s, p - 1);
        if exists|q: int| 0 <= q < p - 1 && movable_at(s, q) {
            let q1 = choose|q: int| 0 <= q < p - 1 && movable_at(s, q);
            let q2 = choose|q: int| 0 <= q < p - 1 && shifts_at(s, q);
            assert(0 <= q1 < p && movable_at(s, q1));
            assert(0 <= q2 < p && shifts_at(s, q2));
        } else {
            lemma_quiet_prefix(s, p - 1);
            let m = packed(s.take(p - 1)).len() as int;
            let t = s[p - 1];
            assert(settled_tile(t));
            assert(settled_tiles(s.take(p - 1)));
            lemma_packed_shape(s.take(p - 1));
            if m > 0 {
                assert(packed(s.take(p - 1)).last() == s[m - 1]);
                assert(packed_tile(packed(s.take(p - 1))[m - 1]));
            }
            if m < p - 1 {
                assert(s[p - 2] is Empty);
            }
            assert(shifts_at(s, p - 1) <==> movable_at(s, p - 1));
            if shifts_at(s, p - 1) {
                assert(0 <= p - 1 < p && shifts_at(s, p - 1));
                assert(0 <= p - 1 < p && movable_at(s, p - 1));
            }
        }
    }
}

/// A lane in which no tile has room to move is left as it is.
pub proof fn lemma_quiet_lane(s: Seq<Tile>)
    requires
        settled_tiles(s),
        !lane_movable(s),
    ensures
        slid(s) == s,
{
    lemma_quiet_prefix(s, s.len() as int);
    assert(s.take(s.len() as int) =~= s);
    assert forall|j: int| 0 <= j < s.len() implies slid(s)[j] == s[j] by {
        assert(settled_tile(s[j]));
    }
    assert(slid(s) =~= s);
}

/// The total of a sequence grows by the weight of each tile appended.
pub proof fn lemma_total_push(s: Seq<Tile>, t: Tile, w: spec_fn(Tile) -> nat)
    ensures
        total(s.push(t), w) == total(s, w) + w(t),
{
    assert(s.push(t).drop_last() =~= s);
}

/// The total over the first `i + 1` tiles is the total over the first
/// `i`, and the weight of the tile at `i`.
pub proof fn lemma_total_take(s: Seq<Tile>, i: int, w: spec_fn(Tile) -> nat)
    requires
        0 <= i < s.len(),
    ensures
        total(s.take(i + 1), w) == total(s.take(i), w) + w(s[i]),
        total(s.take(i + 1), w) <= total(s, w),
    decreases s.len() - i,
{
    assert(s.take(i + 1).drop_last() =~= s.take(i));
    if i + 1 < s.len() {
        lemma_total_take(s, i + 1, w);
    } else {
        assert(s.take(i + 1) =~= s);
    }
}

/// Empty cells behind the tiles add nothing to a total that gives an
/// empty cell no weight.
pub proof fn lemma_total_padded(done: Seq<Tile>, n: nat, w: spec_fn(Tile) -> nat)
    requires
        done.len() <= n,
        w(Tile::Empty) == 0,
    ensures
        total(padded(done, n), w) == total(done, w),
    decreases n,
{
    if n == done.len() {
        assert(padded(done, n) =~= done);
    } else {
        assert(padded(done, n).drop_last() =~= padded(done, (n - 1) as nat));
        lemma_total_padded(done, (n - 1) as nat, w);
    }
}

/// The total of four tiles.
pub proof fn lemma_total_of_four(s: Seq<Tile>, w: spec_fn(Tile) -> nat)
    requires
        s.len() == 4,
    ensures
        total(s, w) == w(s[0]) + w(s[1]) + w(s[2]) + w(s[3]),
{
    lemma_total_take(s, 0, w);
    lemma_total_take(s, 1, w);
    lemma_total_take(s, 2, w);
    lemma_total_take(s, 3, w);
    assert(s.take(4) =~= s);
    assert(s.take(0) =~= Seq::<Tile>::empty());
}

/// What has been packed stays: sliding more cells leaves the packed tiles
/// below the last one as they are, and the last one too once it is marked;
/// the packed tiles never get fewer.
pub proof fn lemma_packed_stays(s: Seq<Tile>, p: int, q: int)
    requires
        settled_tiles(s),
        0 <= p <= q <= s.len(),
    ensures
        packed(s.take(p)).len() <= packed(s.take(q)).len(),
        forall|j: int|
            0 <= j < packed(s.take(p)).len() - 1 ==> packed(s.take(q))[j] == packed(
                s.take(p),
            )[j],
        packed(s.take(p)).len() > 0 && packed(s.take(p)).last() is WillOccupy ==> packed(
            s.take(q),
        )[packed(s.take(p)).len() - 1] == packed(s.take(p)).last(),
    decreases q - p,
{
    if p < q {
        lemma_packed_stays(s, p, q - 1);
        lemma_packed_take(s, q - 1);
        assert(settled_tile(s[q - 1]));
    }
}

/// A lane in which some tile has room to move does not stay as it is.
pub proof fn lemma_moving_lane(s: Seq<Tile>)
    requires
        settled_tiles(s),
        lane_movable(s),
    ensures
        slid(s) != s,
{
    let n = s.len() as int;
    let w = choose|p: int| movable_at(s, p);
    assert(0 <= w < n && movable_at(s, w));
    lemma_shifts_iff_movable(s, n);
    let p = first_shift(s, n);
    lemma_first_shift(s, n);
    // Up to the first tile that moves, the lane is packed as it stands.
    lemma_quiet_prefix_of_shifts(s, p);
    lemma_packed_take(s, p);
    lemma_packed_stays(s, p + 1, n);
    assert(s.take(n) =~= s);
    lemma_packed_shape(s);
    assert(settled_tiles(s.take(p)));
    lemma_packed_shape(s.take(p));
    let before = packed(s.take(p));
    let m = before.len() as int;
    let t = s[p];
    assert(settled_tile(t));
    if m > 0 && t.spec_can_merge(before.last()) {
        assert(before.last() == s[m - 1]);
        assert(packed(s.take(p + 1)).last() == t.spec_next());
        assert(packed(s)[m - 1] == t.spec_next());
        assert(slid(s)[m - 1] == t.spec_next().spec_finalize());
        assert(slid(s)[m - 1] != s[m - 1]);
    } else {
        assert(m < p);
        assert(s[m] is Empty);
        assert(packed(s.take(p + 1)).len() == m + 1);
        assert(packed_tile(packed(s)[m]));
        assert(!(slid(s)[m] is Empty));
    }
}

/// The first of the first `p` cells whose slide changes the lane; `p`
/// where there is none.
pub open spec fn first_shift(s: Seq<Tile>, p: int) -> int
    decreases p,
{
    if p <= 0 {
        0
    } else if first_shift(s, p - 1) < p - 1 {
        first_shift(s, p - 1)
    } else if shifts_at(s, p - 1) {
        p - 1
    } else {
        p
    }
}

/// `first_shift` names the first cell whose slide changes the lane.
pub proof fn lemma_first_shift(s: Seq<Tile>, p: int)
    requires
        0 <= p <= s.len(),
    ensures
        0 <= first_shift(s, p) <= p,
        forall|q: int| 0 <= q < first_shift(s, p) ==> !shifts_at(s, q),
        first_shift(s, p) < p ==> shifts_at(s, first_shift(s, p)),
    decreases p,
{
    if p > 0 {
        lemma_first_shift(s, p - 1);
    }
}

/// Where sliding the first `p` cells changes nothing, no tile among them
/// has room to move, and the lane is packed that far.
pub proof fn lemma_quiet_prefix_of_shifts(s: Seq<Tile>, p: int)
    requires
        settled_tiles(s),
        0 <= p <= s.len(),
        forall|q: int| 0 <= q < p ==> !shifts_at(s, q),
    ensures
        forall|q: int| 0 <= q < p ==> !movable_at(s, q),
        packed(s.take(p)).len() <= p,
        packed(s.take(p)) == s.take(packed(s.take(p)).len() as int),
        forall|j: int| packed(s.take(p)).len() <= j < p ==> s[j] is Empty,
{
    lemma_shifts_iff_movable(s, p);
    assert forall|q: int| 0 <= q < p implies !movable_at(s, q) by {
        if movable_at(s, q) {
            let q2 = choose|q2: int| 0 <= q2 < p && shifts_at(s, q2);
            assert(false);
        }
    }
    lemma_quiet_prefix(s, p);
}

/// A total that gives every tile the weight one counts the tiles.
pub proof fn lemma_count_packed(done: Seq<Tile>)
    requires
        forall|j: int| 0 <= j < done.len() ==> !((#[trigger] done[j]) is Empty),
    ensures
        tile_count(done) == done.len(),
    decreases done.len(),
{
    if done.len() > 0 {
        lemma_count_packed(done.drop_last());
    }
}

/// Every tile of a lane is found again after sliding: alone, or as one of
/// the two that a marked tile stands for.
pub proof fn lemma_lane_counts(s: Seq<Tile>)
    requires
        settled_tiles(s),
    ensures
        tile_count(s) == packed(s).len() + merge_count(packed(s)),
        tile_count(slid(s)) == packed(s).len(),
    decreases s.len(),
{
    lemma_packed_shape(s);
    if s.len() > 0 {
        let front = s.drop_last();
        lemma_lane_counts(front);
        lemma_packed_shape(front);
        let rest = packed(front);
        let t = s.last();
        assert(settled_tile(t));
        if t is Empty {
        } else if rest.len() > 0 && t.spec_can_merge(rest.last()) {
            assert(rest.last() is Occupied);
            lemma_total_push(rest.drop_last(), t.spec_next(), merge_weight());
            assert(rest.drop_last().push(rest.last()) =~= rest);
            lemma_total_push(rest.drop_last(), rest.last(), merge_weight());
        } else {
            lemma_total_push(rest, t, merge_weight());
        }
    }
    let settled = packed(s).map_values(|t: Tile| t.spec_finalize());
    assert(slid(s) =~= padded(settled, s.len()));
    lemma_total_padded(settled, s.len(), tile_weight());
    lemma_count_packed(settled);
}

/// The tiles of a lane in their order, without the empty cells.
pub open spec fn tiles_of(s: Seq<Tile>) -> Seq<Tile>
    decreases s.len(),
{
    if s.len() == 0 {
        Seq::empty()
    } else if s.last() is Empty {
        tiles_of(s.drop_last())
    } else {
        tiles_of(s.drop_last()).push(s.last())
    }
}

/// The tiles that packed tiles stand for: a settled tile for itself, a
/// marked tile of rank `r` for two settled tiles of rank `r - 1`.
pub open spec fn sources(done: Seq<Tile>) -> Seq<Tile>
    decreases done.len(),
{
    if done.len() == 0 {
        Seq::empty()
    } else {
        match done.last() {
            Tile::WillOccupy(r) => sources(done.drop_last()).push(
                Tile::Occupied((r - 1) as u8),
            ).push(Tile::Occupied((r - 1) as u8)),
            t => sources(done.drop_last()).push(t),
        }
    }
}

/// Sliding a lane pairs its tiles off at most once: the packed tiles
/// stand, in order, for exactly the tiles of the lane, each for one tile
/// or for two equal ones.
pub proof fn lemma_sources(s: Seq<Tile>)
    requires
        settled_tiles(s),
    ensures
        sources(packed(s)) == tiles_of(s),
    decreases s.len(),
{
    if s.len() > 0 {
        let front = s.drop_last();
        lemma_sources(front);
        lemma_packed_shape(front);
        let rest = packed(front);
        let t = s.last();
        assert(settled_tile(t));
        if t is Empty {
        } else if rest.len() > 0 && t.spec_can_merge(rest.last()) {
            let now = rest.drop_last().push(t.spec_next());
            assert(now.drop_last() =~= rest.drop_last());
            assert(sources(now) =~= sources(rest).push(t));
        } else {
            assert(rest.push(t).drop_last() =~= rest);
        }
    }
}

/// Settling the marks changes no value.
pub proof fn lemma_settled_value(done: Seq<Tile>)
    ensures
        tile_value(done.map_values(|t: Tile| t.spec_finalize())) == tile_value(done),
    decreases done.len(),
{
    let settled = done.map_values(|t: Tile| t.spec_finalize());
    if done.len() > 0 {
        lemma_settled_value(done.drop_last());
        assert(settled.drop_last() =~= done.drop_last().map_values(|t: Tile| t.spec_finalize()));
    }
}

/// Sliding a lane keeps the sum of its values: a merge makes of two
/// tiles one that is worth both.
pub proof fn lemma_lane_value(s: Seq<Tile>)
    requires
        settled_tiles(s),
    ensures
        tile_value(packed(s)) == tile_value(s),
        tile_value(slid(s)) == tile_value(s),
    decreases s.len(),
{
    lemma_packed_shape(s);
    if s.len() > 0 {
        let front = s.drop_last();
        lemma_lane_value(front);
        lemma_packed_shape(front);
        let rest = packed(front);
        let t = s.last();
        assert(settled_tile(t));
        if t is Empty {
        } else if rest.len() > 0 && t.spec_can_merge(rest.last()) {
            lemma_total_push(rest.drop_last(), t.spec_next(), value_weight());
            assert(rest.drop_last().push(rest.last()) =~= rest);
            lemma_total_push(rest.drop_last(), rest.last(), value_weight());
            lemma_pow2_unfold((t.rank() + 1) as nat);
        } else {
            lemma_total_push(rest, t, value_weight());
        }
    }
    let settled = packed(s).map_values(|t: Tile| t.spec_finalize());
    assert(slid(s) =~= padded(settled, s.len()));
    lemma_total_padded(settled, s.len(), value_weight());
    lemma_settled_value(packed(s));
}

} // verus!
