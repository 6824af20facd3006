#![verifier::loop_isolation(false)]
//! Rule engine for a Hive-style two-player tile game on a hexagonal grid.
//!
//! The crate is organised bottom-up: hex coordinates, pieces and fields,
//! the board with its connectivity queries, the move-legality rules, and
//! finally a labelled-tree codec for game-state snapshots and moves.

pub mod board;
pub mod codec;
pub mod coords;
pub mod errors;
pub mod field;
pub mod pieces;
pub mod reach;
pub mod rules;
pub mod text;
pub mod xml_node;
