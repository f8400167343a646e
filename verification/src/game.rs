//! A game in progress: the board in play and the boards before it, which
//! a move can be taken back to.

use crate::board::{Board, BoardState};
use crate::command::Command;
use crate::rules::{can_slide, full, has_moves, move_gain, moved_tiles, spawned};
use crate::tile::Tile;
use vstd::prelude::*;

verus! {

/// The board in play, and the earlier boards, oldest first.
pub struct Game {
    pub board: Board,
    pub history: Vec<Board>,
}

/// A game as the contracts see it.
pub struct GameState {
    pub board: BoardState,
    pub history: Seq<BoardState>,
}

impl View for Game {
    type V = GameState;

    open spec fn view(&self) -> GameState {
        GameState { board: self.board@, history: self.history@.map_values(|b: Board| b@) }
    }
}

/// The game `before` takes up the board `next`: a new tile is put on it
/// and the board in play goes to the history. Where `next` has no empty
/// cell the game ends as it stands.
pub open spec fn taken_up(before: GameState, next: BoardState, after: GameState, go_on: bool) -> bool {
    if full(next.tiles) {
        !go_on && after == before
    } else {
        &&& go_on
        &&& spawned(next.tiles, after.board.tiles)
        &&& after.board.score == next.score
        &&& after.history == before.history.push(before.board)
    }
}

/// What a command makes of the game `before`, and whether the game goes
/// on after it.
pub open spec fn played(before: GameState, command: Command, after: GameState, go_on: bool) -> bool {
    match command {
        Command::Quit => !go_on && after == before,
        Command::Back => go_on && if before.history.len() > 0 {
            after.board == before.history.last() && after.history == before.history.drop_last()
        } else {
            after == before
        },
        Command::Restart => taken_up(
            before,
            BoardState { tiles: Seq::new(16, |i: int| Tile::Empty), score: 0 },
            after,
            go_on,
        ),
        Command::Move(dir) => if can_slide(before.board.tiles, dir) {
            taken_up(
                before,
                BoardState {
                    tiles: moved_tiles(before.board.tiles, dir),
                    score: before.board.score + move_gain(before.board.tiles, dir),
                },
                after,
                go_on,
            )
        } else {
            go_on && after == before
        },
    }
}

impl Game {
    /// Every board of the game is as a board stands between moves.
    pub open spec fn wf(&self) -> bool {
        &&& self.board.wf()
        &&& forall|i: int| 0 <= i < self.history@.len() ==> (#[trigger] self.history@[i]).wf()
    }

    /// A new game: one tile on an empty board, no score, no history.
    pub fn new() -> (g: Game)
        ensures
            g.wf(),
            g@.history.len() == 0,
            g@.board.score == 0,
            spawned(Seq::new(16, |i: int| Tile::Empty), g@.board.tiles),
    {
        let empty = Board::new();
        assert(empty.tiles@[0] is Empty);
        let board = empty.add_tile().unwrap();
        Game { board, history: Vec::new() }
    }

    /// Whether every board of the game is as a board stands between moves.
    pub fn is_valid(&self) -> (b: bool)
        ensures
            b == self.wf(),
    {
        if !self.board.is_valid() {
            return false;
        }
        let mut i: usize = 0;
        while i < self.history.len()
            invariant
                i <= self.history.len(),
                forall|j: int| 0 <= j < i ==> (#[trigger] self.history@[j]).wf(),
            decreases self.history.len() - i,
        {
            if !self.history[i].is_valid() {
                return false;
            }
            i += 1;
        }
        true
    }

    /// Whether the game has come to its end: no cell is empty and no move
    /// changes the board.
    pub fn is_over(&self) -> (over: bool)
        requires
            self.wf(),
        ensures
            over == !has_moves(self@.board.tiles),
    {
        !self.board.has_possible_moves()
    }

    /// Whether the score after `command` fits the counter, which is what
    /// `apply` asks for.
    pub fn fits(&self, command: Command) -> (b: bool)
        requires
            self.wf(),
        ensures
            b == (command matches Command::Move(dir) ==> self@.board.score + move_gain(
                self@.board.tiles,
                dir,
            ) <= u32::MAX),
    {
        match command {
            Command::Move(dir) => self.board.move_fits(dir),
            _ => true,
        }
    }

    /// Carries out a command. A move that changes the board, and a new
    /// start, put a new tile on the board and keep the board before them
    /// in the history; taking a move back returns to the last board kept.
    /// Says whether the game goes on.
    pub fn apply(&mut self, command: Command) -> (go_on: bool)
        requires
            old(self).wf(),
            command matches Command::Move(dir) ==> old(self)@.board.score + move_gain(
                old(self)@.board.tiles,
                dir,
            ) <= u32::MAX,
        ensures
            final(self).wf(),
            played(old(self)@, command, final(self)@, go_on),
    {
        let next = match command {
            Command::Quit => {
                return false;
            },
            Command::Move(dir) => self.board.move_board(dir),
            Command::Restart => Some(Board::new()),
            Command::Back => {
                if let Some(r) = self.history.pop() {
                    assert(r == old(self).history@.last());
                    assert(self.history@.map_values(|b: Board| b@) =~= old(self)@.history.drop_last());
                    self.board = r;
                }
                None
            },
        };
        if let Some(r) = next {
            if let Some(r) = r.add_tile() {
                let mut before = r;
                core::mem::swap(&mut self.board, &mut before);
                self.history.push(before);
                assert(self.history@.map_values(|b: Board| b@) =~= old(self)@.history.push(
                    old(self)@.board,
                ));
                true
            } else {
                false
            }
        } else {
            true
        }
    }
}

} // verus!
