//! What the player can ask for, and which key asks for it.

use crate::geometry::Direction;
use vstd::prelude::*;

verus! {

/// A request of the player.
#[derive(Debug, Copy, Clone, PartialEq, Eq, Structural)]
pub enum Command {
    /// Slide the tiles toward an edge.
    Move(Direction),
    /// Take the last move back.
    Back,
    /// Leave the game.
    Quit,
    /// Start again on an empty board.
    Restart,
}

/// What came from the keyboard.
#[derive(Debug, Copy, Clone, PartialEq, Eq, Structural)]
pub enum Input {
    /// The input has ended.
    Closed,
    /// Reading failed.
    Failed,
    /// The key of a character.
    Char(char),
    /// Any other key.
    Other,
}

impl Command {
    /// The command that an input stands for: `h`, `j`, `k`, `l` move left,
    /// down, up and right, `b` takes a move back, `r` starts again, and
    /// `q`, the end of the input or a failure to read it leave the game.
    /// Any other key stands for nothing.
    pub open spec fn spec_from_input(input: Input) -> Option<Command> {
        match input {
            Input::Closed => Some(Command::Quit),
            Input::Failed => Some(Command::Quit),
            Input::Char(c) => if c == 'h' {
                Some(Command::Move(Direction::Left))
            } else if c == 'j' {
                Some(Command::Move(Direction::Down))
            } else if c == 'k' {
                Some(Command::Move(Direction::Up))
            } else if c == 'l' {
                Some(Command::Move(Direction::Right))
            } else if c == 'q' {
                Some(Command::Quit)
            } else if c == 'b' {
                Some(Command::Back)
            } else if c == 'r' {
                Some(Command::Restart)
            } else {
                None
            },
            Input::Other => None,
        }
    }

    /// The command that an input stands for, or `None` for a key that
    /// stands for nothing: the player is told so and asked again.
    pub fn from_input(input: Input) -> (command: Option<Command>)
        ensures
            command == Command::spec_from_input(input),
    {
        match input {
            Input::Closed => Some(Command::Quit),
            Input::Failed => Some(Command::Quit),
            Input::Char('h') => Some(Command::Move(Direction::Left)),
            Input::Char('j') => Some(Command::Move(Direction::Down)),
            Input::Char('k') => Some(Command::Move(Direction::Up)),
            Input::Char('l') => Some(Command::Move(Direction::Right)),
            Input::Char('q') => Some(Command::Quit),
            Input::Char('b') => Some(Command::Back),
            Input::Char('r') => Some(Command::Restart),
            _ => None,
        }
    }
}

} // verus!
