//! The scalar state type and the metric used both as heuristic and as the
//! goal-proximity test.

use vstd::prelude::*;

verus! {

/// A state of the search space: one scalar coordinate, held as an exact
/// fixed-point tick count. Two states are the same node only if their tick
/// values are identical; approximate closeness is reserved for the goal
/// test.
#[derive(Clone, Copy, Debug, PartialEq, Eq, Structural)]
pub struct Point {
    pub ticks: i64,
}

/// Distance between two coordinates: the absolute difference.
pub open spec fn dist(a: int, b: int) -> int {
    if a >= b {
        a - b
    } else {
        b - a
    }
}

impl Point {
    pub fn new(ticks: i64) -> (r: Point)
        ensures
            r.ticks == ticks,
    {
        Point { ticks }
    }

    /// The metric: absolute difference of the two coordinates. The widest
    /// possible gap, from one end of the coordinate range to the other,
    /// still fits in the unsigned result.
    pub fn distance_to(&self, other: &Point) -> (r: u64)
        ensures
            r as int == dist(self.ticks as int, other.ticks as int),
    {
        let a: i128 = self.ticks as i128;
        let b: i128 = other.ticks as i128;
        let d: i128 = if a >= b {
            a - b
        } else {
            b - a
        };
        d as u64
    }
}

/// The A* heuristic estimate from a state to the goal: the metric itself.
pub fn heuristic(point: &Point, target: &Point) -> (r: u64)
    ensures
        r as int == dist(point.ticks as int, target.ticks as int),
{
    point.distance_to(target)
}

} // verus!
