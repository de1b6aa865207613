//! The explicit configuration threaded through a search invocation.

use vstd::prelude::*;

verus! {

/// Parameters of one search invocation, all in ticks of the caller's
/// chosen fixed-point scale. Nothing here is ambient or global: the two
/// anchors, the step constant, the goal precision and the per-move cost
/// are passed explicitly to every component that needs them.
#[derive(Clone, Copy, Debug, PartialEq, Eq, Structural)]
pub struct SearchConfig {
    /// Lower interpolation anchor (conventionally the coordinate 0).
    pub anchor_low: i64,
    /// Upper interpolation anchor (conventionally the coordinate 1).
    pub anchor_high: i64,
    /// Offset of the two constant-step moves.
    pub step: i64,
    /// Goal proximity threshold: a state closer than this to the goal
    /// terminates the search.
    pub precision: u64,
    /// Cost of one move, in the same ticks as the heuristic distance
    /// (a caller that counts one unit per move passes its tick scale).
    pub move_cost: u64,
}

} // verus!
