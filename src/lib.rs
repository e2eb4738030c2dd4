//! A force-directed graph layout core.
//!
//! The coordinate and strength types are left to the caller: the passes here
//! fix which pairs of nodes act on each other, in what order, which node is
//! held still, and how the results reach the nodes and the edge caches. The
//! force formulas themselves are handed in as functions.

pub mod adjacency;
pub mod color;
pub mod edge;
pub mod input;
pub mod physics;
pub mod schedule;
pub mod state;
