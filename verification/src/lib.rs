//! Best-first (A*) search over a one-dimensional continuous state space.
//!
//! States are scalar coordinates held as exact fixed-point "ticks": the
//! caller picks a scale (ticks per unit) and hands every coordinate,
//! distance threshold and step constant to the engine as integers. State
//! equality and deduplication are exact on the tick value; only the goal
//! test is approximate, against a configured precision.
//!
//! Successors of a state are generated on demand by four symbolic moves
//! (interpolate toward either anchor, step down, step up). The engine keeps
//! a lazy-deletion priority frontier, a cost/score ledger with back
//! pointers, and reconstructs the path with per-edge action labels on
//! success.

pub mod action;
pub mod config;
pub mod frontier;
pub mod ledger;
pub mod moves;
pub mod search;
pub mod point;
