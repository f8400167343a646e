//! The board: sixteen tiles in row-major order, and the score.

use crate::geometry::{depth_of, lemma_step_toward_edge, scan_sequence, space_to, Direction, LENGTH};
use crate::geometry::{scan_at, spec_space_to};
use crate::line::{
    lemma_total_take, packed_tile, score_sum, score_weight, settled_tile, settled_tiles,
};
use crate::chance::{random_index, random_ratio};
use crate::rules::{
    can_slide, empty_cells, full, has_moves, lemma_empty_cells, lemma_empty_cells_take, move_gain,
    moved_tiles, settled_board, spawned,
};
use crate::sweep::{
    after_tile, landing, lemma_sweep_end, lemma_sweep_moves, lemma_sweep_start, lemma_sweep_step,
    step_shifts, swept, tile_moves,
};
use crate::tile::{Tile, MAX_RANK, MAX_SCORED_RANK};
use vstd::arithmetic::power2::{lemma2_to64, lemma_pow2_strictly_increases, pow2};
use vstd::prelude::*;

verus! {

/// Of ten new tiles, how many are of rank 2 on average; the others are of
/// rank 1.
pub const HIGH_TILE_SHARE: u32 = 1;

/// The number of new tiles that `HIGH_TILE_SHARE` is a share of.
pub const HIGH_TILE_OUT_OF: u32 = 10;

/// The value of a rank fits the score counter exactly up to
/// `MAX_SCORED_RANK`.
proof fn lemma_scored_rank(r: u8)
    ensures
        r <= MAX_SCORED_RANK <==> pow2(r as nat) <= u32::MAX,
{
    lemma2_to64();
    if r < 31 {
        lemma_pow2_strictly_increases(r as nat, 31);
    }
    if r > 32 {
        lemma_pow2_strictly_increases(32, r as nat);
    }
}

/// Where a sliding tile comes to rest, and as what.
struct TileMovement {
    tile: Tile,
    new_position: usize,
}

/// Sixteen tiles, row by row, and the score that the merges have earned.
#[derive(Debug, PartialEq, Eq)]
pub struct Board {
    pub tiles: Vec<Tile>,
    pub score: u32,
}

/// A board as the contracts see it.
pub struct BoardState {
    pub tiles: Seq<Tile>,
    pub score: int,
}

impl View for Board {
    type V = BoardState;

    open spec fn view(&self) -> BoardState {
        BoardState { tiles: self.tiles@, score: self.score as int }
    }
}

impl Clone for Board {
    /// A board with the same tiles and the same score.
    fn clone(&self) -> (b: Board)
        ensures
            b@ == self@,
    {
        Board { tiles: self.copy_tiles(), score: self.score }
    }
}

impl Board {
    /// The board is as it stands between moves: sixteen cells, each empty
    /// or settled with a rank from 1 to `MAX_RANK`.
    pub open spec fn wf(&self) -> bool {
        settled_board(self.tiles@)
    }

    /// The empty board, with no score.
    pub fn new() -> (b: Board)
        ensures
            b.tiles@ == Seq::new(16, |i: int| Tile::Empty),
            b.score == 0,
            b.wf(),
    {
        let mut tiles: Vec<Tile> = Vec::new();
        let mut i: usize = 0;
        while i < LENGTH
            invariant
                i <= LENGTH,
                tiles@.len() == i,
                forall|j: int| 0 <= j < i ==> tiles@[j] is Empty,
            decreases LENGTH - i,
        {
            tiles.push(Tile::Empty);
            i += 1;
        }
        assert(tiles@ =~= Seq::new(16, |i: int| Tile::Empty));
        Board { tiles, score: 0 }
    }

    /// A copy of the tiles.
    fn copy_tiles(&self) -> (tiles: Vec<Tile>)
        ensures
            tiles@ == self.tiles@,
    {
        let mut tiles: Vec<Tile> = Vec::new();
        let mut i: usize = 0;
        while i < self.tiles.len()
            invariant
                i <= self.tiles.len(),
                tiles@ == self.tiles@.take(i as int),
            decreases self.tiles.len() - i,
        {
            tiles.push(self.tiles[i]);
            assert(self.tiles@.take(i + 1) =~= self.tiles@.take(i as int).push(self.tiles@[i as int]));
            i += 1;
        }
        assert(self.tiles@.take(self.tiles.len() as int) =~= self.tiles@);
        tiles
    }

    /// Settles every marked tile and adds what the marks are worth to the
    /// score.
    fn finalize(self) -> (b: Board)
        requires
            forall|i: int|
                0 <= i < self.tiles@.len() ==> (#[trigger] self.tiles@[i]) is Empty || packed_tile(
                    self.tiles@[i],
                ),
            self.score + score_sum(self.tiles@) <= u32::MAX,
        ensures
            b.tiles@.len() == self.tiles@.len(),
            forall|i: int|
                0 <= i < self.tiles@.len() ==> #[trigger] b.tiles@[i]
                    == self.tiles@[i].spec_finalize(),
            b.score == self.score + score_sum(self.tiles@),
            settled_tiles(b.tiles@),
    {
        let mut score: u32 = 0;
        let mut tiles: Vec<Tile> = Vec::new();
        let mut i: usize = 0;
        assert(self.tiles@.take(0) =~= Seq::<Tile>::empty());
        while i < self.tiles.len()
            invariant
                i <= self.tiles.len(),
                tiles@.len() == i,
                score == score_sum(self.tiles@.take(i as int)),
                self.score + score_sum(self.tiles@) <= u32::MAX,
                forall|j: int|
                    0 <= j < self.tiles@.len() ==> (#[trigger] self.tiles@[j]) is Empty
                        || packed_tile(self.tiles@[j]),
                forall|j: int|
                    0 <= j < i ==> #[trigger] tiles@[j] == self.tiles@[j].spec_finalize(),
                forall|j: int| 0 <= j < i ==> settled_tile(#[trigger] tiles@[j]),
            decreases self.tiles.len() - i,
        {
            let t = self.tiles[i];
            proof {
                lemma_total_take(self.tiles@, i as int, score_weight());
                assert(t is Empty || packed_tile(t));
                if let Tile::WillOccupy(r) = t {
                    lemma_scored_rank(r);
                }
            }
            score = score + t.score();
            tiles.push(t.finalize());
            i += 1;
        }
        assert(self.tiles@.take(self.tiles.len() as int) =~= self.tiles@);
        Board { tiles, score: self.score + score }
    }

    /// The neighbour of `i` on the side of `dir`, with the tile it holds.
    fn tile_to(&self, dir: Direction, i: usize) -> (r: Option<(usize, Tile)>)
        requires
            self.tiles@.len() == LENGTH,
            i < LENGTH,
        ensures
            match r {
                Some((n, t)) => spec_space_to(dir, i as int) == Some(n as int) && n < LENGTH && t
                    == self.tiles@[n as int],
                None => spec_space_to(dir, i as int) is None,
            },
    {
        match space_to(dir, i) {
            Some(n) => Some((n, self.tiles[n])),
            None => None,
        }
    }

    /// Where the tile `t`, standing at `i`, comes to rest when it slides
    /// toward `dir`; that may be `i` itself.
    fn find_tile_movement(&self, dir: Direction, i: usize, t: Tile) -> (r: TileMovement)
        requires
            self.tiles@.len() == LENGTH,
            i < LENGTH,
            t matches Tile::Occupied(rank) ==> rank < u8::MAX,
        ensures
            (r.new_position as int, r.tile) == landing(self.tiles@, dir, i as int, t),
            r.new_position < LENGTH,
        decreases depth_of(dir, i as int),
    {
        proof {
            lemma_step_toward_edge(dir, i as int);
        }
        match self.tile_to(dir, i) {
            Some((n, o)) => {
                if o == Tile::Empty {
                    self.find_tile_movement(dir, n, t)
                } else if t.can_merge(o) {
                    TileMovement { new_position: n, tile: t.next() }
                } else {
                    TileMovement { new_position: i, tile: t }
                }
            },
            None => TileMovement { new_position: i, tile: t },
        }
    }

    /// Slides the tile at `i` toward `dir`; says whether it moved.
    fn move_tile(&mut self, dir: Direction, i: usize) -> (moved: bool)
        requires
            old(self).tiles@.len() == LENGTH,
            i < LENGTH,
            old(self).tiles@[i as int] matches Tile::Occupied(rank) ==> rank < u8::MAX,
        ensures
            final(self).tiles@ == after_tile(old(self).tiles@, dir, i as int),
            moved == tile_moves(old(self).tiles@, dir, i as int),
            final(self).score == old(self).score,
    {
        let c = self.tiles[i];
        if c == Tile::Empty {
            false
        } else {
            let r = self.find_tile_movement(dir, i, c);
            if r.new_position == i {
                false
            } else {
                self.tiles.set(i, Tile::Empty);
                self.tiles.set(r.new_position, r.tile);
                true
            }
        }
    }

    /// Slides every tile toward `dir`, in the order of the sweep. The tiles
    /// that merges made stay marked. Says whether any tile moved.
    fn sweep(&self, dir: Direction) -> (r: (Board, bool))
        requires
            self.wf(),
        ensures
            swept(self.tiles@, r.0.tiles@, dir, 16),
            r.0.score == self.score,
            r.1 == can_slide(self.tiles@, dir),
    {
        let mut board = self.clone();
        let order = scan_sequence(dir);
        let mut did_move = false;
        let mut k: usize = 0;
        proof {
            lemma_sweep_start(self.tiles@, dir);
        }
        while k < LENGTH
            invariant
                k <= LENGTH,
                self.wf(),
                order@.len() == LENGTH,
                forall|j: int| 0 <= j < LENGTH ==> order@[j] as int == scan_at(dir, j),
                swept(self.tiles@, board.tiles@, dir, k as int),
                board.score == self.score,
                did_move <==> exists|j: int| 0 <= j < k && step_shifts(self.tiles@, dir, j),
            decreases LENGTH - k,
        {
            let i = order[k];
            proof {
                lemma_sweep_step(self.tiles@, board.tiles@, dir, k as int);
            }
            let moved = board.move_tile(dir, i);
            proof {
                if moved {
                    assert(0 <= k < k + 1 && step_shifts(self.tiles@, dir, k as int));
                }
            }
            did_move = did_move || moved;
            k += 1;
        }
        proof {
            lemma_sweep_moves(self.tiles@, dir);
        }
        (board, did_move)
    }

    /// Whether a move toward `dir` would change the board.
    pub fn can_move(&self, dir: Direction) -> (b: bool)
        requires
            self.wf(),
        ensures
            b == can_slide(self.tiles@, dir),
    {
        let mut board = self.clone();
        let order = scan_sequence(dir);
        let mut k: usize = 0;
        proof {
            lemma_sweep_start(self.tiles@, dir);
            lemma_sweep_moves(self.tiles@, dir);
        }
        while k < LENGTH
            invariant
                k <= LENGTH,
                self.wf(),
                order@.len() == LENGTH,
                forall|j: int| 0 <= j < LENGTH ==> order@[j] as int == scan_at(dir, j),
                swept(self.tiles@, board.tiles@, dir, k as int),
                forall|j: int| 0 <= j < k ==> !step_shifts(self.tiles@, dir, j),
                (exists|j: int| 0 <= j < 16 && step_shifts(self.tiles@, dir, j)) <==> can_slide(
                    self.tiles@,
                    dir,
                ),
            decreases LENGTH - k,
        {
            let i = order[k];
            proof {
                lemma_sweep_step(self.tiles@, board.tiles@, dir, k as int);
            }
            if board.move_tile(dir, i) {
                assert(0 <= k < 16 && step_shifts(self.tiles@, dir, k as int));
                return true;
            }
            k += 1;
        }
        false
    }

    /// Slides and merges the tiles toward `dir`. `None` where nothing
    /// would change; otherwise the new board, with every lane slid and the
    /// value of every tile that a merge made added to the score.
    pub fn move_board(&self, dir: Direction) -> (res: Option<Board>)
        requires
            self.wf(),
            self.score + move_gain(self.tiles@, dir) <= u32::MAX,
        ensures
            res is Some <==> can_slide(self.tiles@, dir),
            res matches Some(b) ==> b.tiles@ == moved_tiles(self.tiles@, dir) && b.score
                == self.score + move_gain(self.tiles@, dir) && b.wf(),
    {
        let (board, did_move) = self.sweep(dir);
        if did_move {
            proof {
                lemma_sweep_end(self.tiles@, board.tiles@, dir);
            }
            let b = board.finalize();
            assert(b.tiles@ =~= moved_tiles(self.tiles@, dir));
            Some(b)
        } else {
            None
        }
    }

    /// The positions of the empty cells, in ascending order.
    pub fn empty_tiles(&self) -> (cells: Vec<usize>)
        ensures
            cells@.len() == empty_cells(self.tiles@).len(),
            forall|k: int|
                0 <= k < cells@.len() ==> cells@[k] as int == empty_cells(self.tiles@)[k],
    {
        let mut cells: Vec<usize> = Vec::new();
        let mut i: usize = 0;
        assert(self.tiles@.take(0) =~= Seq::<Tile>::empty());
        while i < self.tiles.len()
            invariant
                i <= self.tiles.len(),
                cells@.len() == empty_cells(self.tiles@.take(i as int)).len(),
                forall|k: int|
                    0 <= k < cells@.len() ==> cells@[k] as int == empty_cells(
                        self.tiles@.take(i as int),
                    )[k],
            decreases self.tiles.len() - i,
        {
            proof {
                lemma_empty_cells_take(self.tiles@, i as int);
            }
            if self.tiles[i] == Tile::Empty {
                cells.push(i);
            }
            i += 1;
        }
        assert(self.tiles@.take(self.tiles.len() as int) =~= self.tiles@);
        cells
    }

    /// Puts a new tile on the board, in the empty cell that `pick` selects
    /// among the empty cells in ascending order, counting round: of rank
    /// 2 if `high`, of rank 1 if not. `None` where no cell is empty.
    pub fn add_tile_with(&self, pick: usize, high: bool) -> (res: Option<Board>)
        ensures
            res is None <==> full(self.tiles@),
            res matches Some(b) ==> b.tiles@ == self.tiles@.update(
                empty_cells(self.tiles@)[pick as int % empty_cells(self.tiles@).len() as int],
                Tile::Occupied(
                    if high {
                        2u8
                    } else {
                        1u8
                    },
                ),
            ) && b.score == self.score && spawned(self.tiles@, b.tiles@) && (self.wf()
                ==> b.wf()),
    {
        let empty_tiles = self.empty_tiles();
        let empty_count: usize = empty_tiles.len();
        proof {
            lemma_empty_cells(self.tiles@);
        }
        if empty_count > 0 {
            let mut board = self.clone();
            let selected = pick % empty_count;
            let value: u8 = if high {
                2
            } else {
                1
            };
            let at = empty_tiles[selected];
            assert(self.tiles@[at as int] is Empty);
            board.tiles.set(at, Tile::Occupied(value));
            Some(board)
        } else {
            None
        }
    }

    /// Puts a new tile in an empty cell drawn at random: of rank 2 once in
    /// ten times, of rank 1 otherwise. `None` where no cell is empty.
    pub fn add_tile(&self) -> (res: Option<Board>)
        ensures
            res is None <==> full(self.tiles@),
            res matches Some(b) ==> spawned(self.tiles@, b.tiles@) && b.score == self.score && (
            self.wf() ==> b.wf()),
    {
        let pick = random_index();
        let high = random_ratio(HIGH_TILE_SHARE, HIGH_TILE_OUT_OF);
        self.add_tile_with(pick, high)
    }

    /// Whether the game can go on: a cell is empty, or some move changes
    /// the board.
    pub fn has_possible_moves(&self) -> (b: bool)
        requires
            self.wf(),
        ensures
            b == has_moves(self.tiles@),
    {
        proof {
            lemma_empty_cells(self.tiles@);
        }
        self.empty_tiles().len() > 0 || self.can_move(Direction::Up) || self.can_move(
            Direction::Down,
        ) || self.can_move(Direction::Left) || self.can_move(Direction::Right)
    }

    /// Whether the board is as it should stand between moves.
    pub fn is_valid(&self) -> (b: bool)
        ensures
            b == self.wf(),
    {
        if self.tiles.len() != LENGTH {
            return false;
        }
        let mut i: usize = 0;
        while i < LENGTH
            invariant
                i <= LENGTH,
                self.tiles@.len() == LENGTH,
                forall|j: int| 0 <= j < i ==> settled_tile(#[trigger] self.tiles@[j]),
            decreases LENGTH - i,
        {
            let ok = match self.tiles[i] {
                Tile::Empty => true,
                Tile::Occupied(r) => 1 <= r && r <= MAX_RANK,
                Tile::WillOccupy(_) => false,
            };
            if !ok {
                return false;
            }
            i += 1;
        }
        true
    }

    /// Whether what the marked tiles are worth together is no more than
    /// `room`.
    fn marks_fit(&self, room: u32) -> (b: bool)
        requires
            self.tiles@.len() == LENGTH,
        ensures
            b == (score_sum(self.tiles@) <= room),
    {
        let mut worth: u32 = 0;
        let mut i: usize = 0;
        assert(self.tiles@.take(0) =~= Seq::<Tile>::empty());
        while i < LENGTH
            invariant
                i <= LENGTH,
                self.tiles@.len() == LENGTH,
                worth == score_sum(self.tiles@.take(i as int)),
                worth <= room,
            decreases LENGTH - i,
        {
            proof {
                lemma_total_take(self.tiles@, i as int, score_weight());
            }
            if let Tile::WillOccupy(r) = self.tiles[i] {
                proof {
                    lemma_scored_rank(r);
                }
                if r > MAX_SCORED_RANK {
                    return false;
                }
                let value = self.tiles[i].score();
                if value > room - worth {
                    return false;
                }
                worth = worth + value;
            }
            i += 1;
        }
        assert(self.tiles@.take(LENGTH as int) =~= self.tiles@);
        true
    }

    /// Whether the score after a move toward `dir` fits the counter, which
    /// is what `move_board` asks for.
    pub fn move_fits(&self, dir: Direction) -> (b: bool)
        requires
            self.wf(),
        ensures
            b == (self.score + move_gain(self.tiles@, dir) <= u32::MAX),
    {
        let (board, _) = self.sweep(dir);
        proof {
            lemma_sweep_end(self.tiles@, board.tiles@, dir);
        }
        board.marks_fit(u32::MAX - self.score)
    }
}

} // verus!
