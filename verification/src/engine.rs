//! The search engine and the scores it works with.
use vstd::prelude::*;

pub mod ieee;
pub mod minimax;
pub mod order;
pub mod score;
pub mod search;

use crate::board::packedmove::PackedMove;

verus! {

/// The engine: how many positions it has looked at, the best line it has
/// found so far, and which side moves in the position it was asked about.
pub struct Engine {
    /// It stops at the greatest `i32`.
    pub nodeCount: i32,
    /// One place for each depth, the place of the full depth first.
    pub recentMoveList: Vec<PackedMove>,
    pub startStateIsRed: bool,
}

} // verus!
