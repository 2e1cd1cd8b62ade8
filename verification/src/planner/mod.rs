//! The planner's search structures, heuristics and policies.
//!
//! - `engine`: decisions of the search loop on branches.
//! - `expander`: candidate discovery and requirement matching.
//! - `types`: the branch and its chain bookkeeping.
//! - `controller`, `policy`, `goal_selection`, `stats`, `simulation`: search
//!   configuration, termination and goal ordering.
use crate::planner::types::PlanBranch;
use vstd::prelude::*;

pub mod controller;
pub mod engine;
pub mod expander;
pub mod goal_selection;
pub mod policy;
pub mod simulation;
pub mod stats;
pub mod types;

verus! {

/// Dijkstra / uniform-cost heuristic: the priority of a branch is its exact
/// path cost.
#[derive(Clone, Copy, Debug)]
pub struct DijkstraHeuristic;

impl DijkstraHeuristic {
    /// Priority of a branch in the open queue (lower first): its cost, as a
    /// 64-bit float bit pattern.
    pub fn compute_priority(&self, branch: &PlanBranch) -> (r: u64)
        ensures
            r == branch.cost,
    {
        branch.cost
    }

    /// Name shown in debug output.
    pub fn name(&self) -> (r: &'static str)
        ensures
            r@ == "Dijkstra"@,
    {
        "Dijkstra"
    }
}

/// A* heuristic with no remaining-cost estimate yet (h = 0): it orders
/// branches exactly as [`DijkstraHeuristic`] does.
#[derive(Clone, Copy, Debug)]
pub struct AStarHeuristic;

impl AStarHeuristic {
    /// Priority of a branch in the open queue: its cost plus a zero estimate.
    pub fn compute_priority(&self, branch: &PlanBranch) -> (r: u64)
        ensures
            r == branch.cost,
    {
        branch.cost
    }

    /// Name shown in debug output.
    pub fn name(&self) -> (r: &'static str)
        ensures
            r@ == "A* (h=0 placeholder)"@,
    {
        "A* (h=0 placeholder)"
    }
}

/// When the search stops.
#[derive(Debug, Clone, Copy, PartialEq, Eq, Structural)]
pub enum TerminationStrategy {
    /// Return the first complete plan found.
    FirstComplete,
    /// Keep searching for the cheapest plan.
    BestCost,
}

} // verus!
