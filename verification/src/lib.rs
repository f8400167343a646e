//! The rules of a sliding-tile merge puzzle on a four-by-four board: tiles
//! slide toward an edge, equal neighbours merge once per move, and every
//! merge adds the value of the tile it makes to the score.

pub mod board;
mod chance;
pub mod command;
pub mod display;
pub mod game;
pub mod geometry;
pub mod line;
pub mod rules;
mod sweep;
pub mod theorems;
pub mod tile;

pub use board::Board;
pub use command::Command;
pub use geometry::Direction;
pub use tile::Tile;
