//! Generation and solving of colour-count puzzles on a hexagonal board.
//!
//! Every position of the board holds one of three colours, and every straight
//! chord across the board carries a clue: how many positions of each colour
//! lie on it. Geometry lives in `position`, `line`, `segment`, `ring` and
//! `hexagon`; the puzzle model in `cell`, `board` and `puzzle`; the two
//! deduction rules, as mathematical functions, in `deduction`, and their
//! executable form in `solver`; the generation pipeline in `generator`,
//! `validator`, `refiner` and `heart`.

pub mod board;
pub mod cell;
pub mod deduction;
pub mod generator;
pub mod heart;
pub mod hexagon;
pub mod line;
pub mod position;
pub mod puzzle;
mod random;
pub mod refiner;
pub mod ring;
pub mod segment;
pub mod solver;
pub mod validator;

pub use position::{Axis, Coordinate, Coordinates, Direction, Distance, Position, PositionError};

