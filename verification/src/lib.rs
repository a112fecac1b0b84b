//! Search and evaluation core of a two-player, perfect-information board
//! game engine: a fixed-depth negamax search with alpha-beta pruning over an
//! explicit tree of legal continuations, a phase-interpolated piece-square
//! evaluator, and the score/mate-distance bookkeeping that propagates up the
//! recursion.
//!
//! The board representation and the legal-move generator are external
//! collaborators: they hand the engine a [`search::Node`] tree whose boards,
//! move texts and move flags they produced, and the engine never mutates a
//! position in place.

pub mod board;
pub mod perft;
pub mod report;
pub mod search;
pub mod tables;
