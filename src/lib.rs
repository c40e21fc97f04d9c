//! Encodes 4×4, 6×6 and 9×9 Sudoku puzzles as binary integer linear
//! programs and renders those programs as LP text.

pub mod args;
pub mod encoder;
pub mod geometry;
pub mod laws;
pub mod lp_format;
pub mod model;
pub mod puzzle;

pub use crate::args::AppArgs;
pub use crate::encoder::{encode, EncodeError, Family};
pub use crate::geometry::{geometry_for_len, Geometry};
pub use crate::lp_format::{format_lp, puzzle_to_lp};
pub use crate::model::{Constraint, IlpModel, Relation};
pub use crate::puzzle::{is_well_formed_puzzle, normalize_puzzle};
