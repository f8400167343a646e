//! A single cell of the board.

use vstd::arithmetic::power2::{lemma2_to64, lemma_pow2_strictly_increases, pow2};
use vstd::bits::lemma_u32_shl_is_mul;
use vstd::prelude::*;

verus! {

/// The highest rank of a settled tile. A rank is a byte, and a merge
/// raises it by one.
pub const MAX_RANK: u8 = 254;

/// The highest rank whose value `2^rank` fits the score counter.
pub const MAX_SCORED_RANK: u8 = 31;

/// What a cell holds. A rank `r` stands for the value `2^r`.
#[derive(Debug, Copy, Clone, PartialEq, Eq, Structural)]
pub enum Tile {
    /// No tile.
    Empty,
    /// A settled tile of the given rank.
    Occupied(u8),
    /// A tile that two equal tiles merged into during the move in progress.
    /// It cannot merge again before the move ends; `finalize` settles it.
    WillOccupy(u8),
}

impl Tile {
    /// The rank as a mathematical integer; an empty cell has rank 0.
    pub open spec fn rank(self) -> int {
        match self {
            Tile::Empty => 0,
            Tile::Occupied(r) => r as int,
            Tile::WillOccupy(r) => r as int,
        }
    }

    /// The tile after a merge with its equal: one rank higher, and marked.
    pub open spec fn spec_next(self) -> Tile {
        match self {
            Tile::Occupied(r) => Tile::WillOccupy((r + 1) as u8),
            other => other,
        }
    }

    /// The tile once the move has ended.
    pub open spec fn spec_finalize(self) -> Tile {
        match self {
            Tile::WillOccupy(r) => Tile::Occupied(r),
            other => other,
        }
    }

    /// What the tile adds to the score when the move ends: its value if it
    /// was merged in this move, nothing otherwise.
    pub open spec fn spec_score(self) -> nat {
        match self {
            Tile::WillOccupy(r) => pow2(r as nat),
            _ => 0,
        }
    }

    /// Two tiles merge exactly when both are settled and of one rank.
    pub open spec fn spec_can_merge(self, o: Tile) -> bool {
        self is Occupied && self == o
    }

    /// `Occupied(r)` becomes `WillOccupy(r + 1)`; anything else stays.
    pub fn next(self) -> (t: Tile)
        requires
            self matches Tile::Occupied(r) ==> r < u8::MAX,
        ensures
            t == self.spec_next(),
    {
        match self {
            Tile::Occupied(n) => Tile::WillOccupy(n + 1),
            x => x,
        }
    }

    /// `WillOccupy(r)` becomes `Occupied(r)`; anything else stays.
    pub fn finalize(self) -> (t: Tile)
        ensures
            t == self.spec_finalize(),
    {
        match self {
            Tile::WillOccupy(n) => Tile::Occupied(n),
            x => x,
        }
    }

    /// `2^r` for `WillOccupy(r)`, zero for anything else.
    pub fn score(self) -> (s: u32)
        requires
            self matches Tile::WillOccupy(r) ==> r <= MAX_SCORED_RANK,
        ensures
            s == self.spec_score(),
    {
        match self {
            Tile::WillOccupy(x) => {
                proof {
                    lemma2_to64();
                    if x < 31 {
                        lemma_pow2_strictly_increases(x as nat, 31);
                    }
                    lemma_u32_shl_is_mul(1u32, x as u32);
                }
                1u32 << x
            },
            _ => 0,
        }
    }

    /// Whether `self` may merge into `o`: both settled, ranks equal.
    pub fn can_merge(self, o: Self) -> (b: bool)
        ensures
            b == self.spec_can_merge(o),
    {
        if let Tile::Occupied(_) = self {
            self == o
        } else {
            false
        }
    }
}

} // verus!
