//! A sliding-ice puzzle on a fixed 5x5 board.
//!
//! A single marker slides over the ice in one of the four cardinal directions
//! until a wall or the edge of the board stops it. The crate holds the board
//! and its text form, the rule that generates every legal slide, and the test
//! for a solved board.

pub mod board;
pub mod codec;
pub mod direction;
pub mod moves;
pub mod object;
pub mod pos;

pub use board::{Board, IceRunner};
pub use codec::IceMazeParseError;
pub use direction::Direction;
pub use moves::{get_next_loc, Move};
pub use object::Object;
pub use pos::Pos;
