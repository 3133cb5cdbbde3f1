//! Reader for Touchstone network-parameter files (`.sNp`, versions 1 and 2).
//!
//! The library works on bytes: it splits a file into physical lines, folds
//! them through a small state machine and reshapes the collected values into a
//! `(frequencies, rank, rank)` tensor. Numbers are kept as validated decimal
//! literals, so nothing is rounded on the way.

pub mod result;
pub mod arrays;
pub mod frequency;
pub mod layout;
pub mod network;
pub mod number;
pub mod options;
pub mod parser;
pub mod text;
pub mod touchstone;

pub use crate::frequency::{FreqUnit, Frequency};
pub use crate::network::Network;
pub use crate::number::Number;
pub use crate::result::{ErrorKind, ParseError};
pub use crate::touchstone::Touchstone;
