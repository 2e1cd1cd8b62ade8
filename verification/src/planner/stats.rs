//! Search statistics: branches expanded and pruned, depth reached, plans found.
use crate::plan_tree::INFINITY_BITS;
use vstd::prelude::*;

verus! {

/// Counters of one search. The best cost is a 64-bit float bit pattern; elapsed
/// time is measured by the caller.
#[derive(Debug, Clone, Copy, PartialEq, Eq)]
pub struct SearchStats {
    pub branches_expanded: usize,
    pub branches_pruned: usize,
    pub max_depth_reached: usize,
    pub valid_plans_found: usize,
    pub best_cost: u64,
}

impl SearchStats {
    /// Fresh counters: everything zero and the best cost infinite.
    pub fn new() -> (r: Self)
        ensures
            r.branches_expanded == 0,
            r.branches_pruned == 0,
            r.max_depth_reached == 0,
            r.valid_plans_found == 0,
            r.best_cost == INFINITY_BITS,
    {
        SearchStats {
            branches_expanded: 0,
            branches_pruned: 0,
            max_depth_reached: 0,
            valid_plans_found: 0,
            best_cost: INFINITY_BITS,
        }
    }
}

impl Default for SearchStats {
    fn default() -> (r: Self)
        ensures
            r.branches_expanded == 0,
            r.branches_pruned == 0,
            r.max_depth_reached == 0,
            r.valid_plans_found == 0,
            r.best_cost == INFINITY_BITS,
    {
        SearchStats::new()
    }
}

} // verus!
