//! Termination policies: when a search for one goal stops.
use crate::planner::stats::SearchStats;
use vstd::prelude::*;

verus! {

/// Strategy for deciding when to stop searching.
pub trait TerminationPolicy {
    /// Called once when the search for a goal begins.
    fn on_search_start(&mut self, max_depth: usize);

    /// Returns true if the search should stop, given its counters and the
    /// milliseconds elapsed since it began.
    fn should_terminate(&self, stats: &SearchStats, elapsed_ms: u64) -> bool;

    /// Called when a valid plan is found; the cost is a 64-bit float bit pattern.
    fn on_valid_plan_found(&mut self, cost: u64, stats: &SearchStats);
}

/// A time or branch budget is exhausted; a limit of 0 disables that budget.
pub open spec fn budget_exceeded(max_time_ms: u64, max_branches: usize, stats: SearchStats, elapsed_ms: u64) -> bool {
    (max_time_ms > 0 && elapsed_ms >= max_time_ms) || (max_branches > 0 && stats.branches_expanded
        >= max_branches)
}

fn budget_exceeded_exec(max_time_ms: u64, max_branches: usize, stats: &SearchStats, elapsed_ms: u64) -> (r: bool)
    ensures
        r == budget_exceeded(max_time_ms, max_branches, *stats, elapsed_ms),
{
    if max_time_ms > 0 && elapsed_ms >= max_time_ms {
        return true;
    }
    if max_branches > 0 && stats.branches_expanded >= max_branches {
        return true;
    }
    false
}

/// Stops after the first valid plan is found.
#[derive(Debug)]
pub struct FirstValidPolicy {}

impl FirstValidPolicy {
    pub fn new() -> (r: Self) {
        FirstValidPolicy {}
    }
}

impl TerminationPolicy for FirstValidPolicy {
    fn on_search_start(&mut self, max_depth: usize) {
    }

    fn should_terminate(&self, stats: &SearchStats, elapsed_ms: u64) -> (r: bool)
        ensures
            r == (stats.valid_plans_found > 0),
    {
        stats.valid_plans_found > 0
    }

    fn on_valid_plan_found(&mut self, cost: u64, stats: &SearchStats) {
    }
}

/// Never stops early: explores the whole reachable search space.
#[derive(Debug)]
pub struct ExhaustivePolicy {}

impl ExhaustivePolicy {
    pub fn new() -> (r: Self) {
        ExhaustivePolicy {}
    }
}

impl TerminationPolicy for ExhaustivePolicy {
    fn on_search_start(&mut self, max_depth: usize) {
    }

    fn should_terminate(&self, stats: &SearchStats, elapsed_ms: u64) -> (r: bool)
        ensures
            !r,
    {
        false
    }

    fn on_valid_plan_found(&mut self, cost: u64, stats: &SearchStats) {
    }
}

/// Stops when the time or branch budget is exhausted.
#[derive(Debug)]
pub struct BudgetPolicy {
    max_time_ms: u64,
    max_branches: usize,
}

impl BudgetPolicy {
    pub closed spec fn max_time_ms(&self) -> u64 {
        self.max_time_ms
    }

    pub closed spec fn max_branches(&self) -> usize {
        self.max_branches
    }

    /// A policy with the given budgets; 0 disables a budget.
    pub fn new(max_time_ms: u64, max_branches: usize) -> (r: Self)
        ensures
            r.max_time_ms() == max_time_ms,
            r.max_branches() == max_branches,
    {
        BudgetPolicy { max_time_ms, max_branches }
    }
}

impl TerminationPolicy for BudgetPolicy {
    fn on_search_start(&mut self, max_depth: usize)
        ensures
            final(self).max_time_ms() == old(self).max_time_ms(),
            final(self).max_branches() == old(self).max_branches(),
    {
    }

    fn should_terminate(&self, stats: &SearchStats, elapsed_ms: u64) -> (r: bool)
        ensures
            r == budget_exceeded(self.max_time_ms(), self.max_branches(), *stats, elapsed_ms),
    {
        budget_exceeded_exec(self.max_time_ms, self.max_branches, stats, elapsed_ms)
    }

    fn on_valid_plan_found(&mut self, cost: u64, stats: &SearchStats)
        ensures
            final(self).max_time_ms() == old(self).max_time_ms(),
            final(self).max_branches() == old(self).max_branches(),
    {
    }
}

/// Keeps the best plan found within the budget: stops once the time or branch
/// budget is exhausted, whether or not a plan was found.
#[derive(Debug)]
pub struct BestWithinBudgetPolicy {
    max_time_ms: u64,
    max_branches: usize,
}

impl BestWithinBudgetPolicy {
    pub closed spec fn max_time_ms(&self) -> u64 {
        self.max_time_ms
    }

    pub closed spec fn max_branches(&self) -> usize {
        self.max_branches
    }

    /// A policy with the given budgets; 0 disables a budget.
    pub fn new(max_time_ms: u64, max_branches: usize) -> (r: Self)
        ensures
            r.max_time_ms() == max_time_ms,
            r.max_branches() == max_branches,
    {
        BestWithinBudgetPolicy { max_time_ms, max_branches }
    }
}

impl TerminationPolicy for BestWithinBudgetPolicy {
    fn on_search_start(&mut self, max_depth: usize)
        ensures
            final(self).max_time_ms() == old(self).max_time_ms(),
            final(self).max_branches() == old(self).max_branches(),
    {
    }

    fn should_terminate(&self, stats: &SearchStats, elapsed_ms: u64) -> (r: bool)
        ensures
            r == budget_exceeded(self.max_time_ms(), self.max_branches(), *stats, elapsed_ms),
    {
        budget_exceeded_exec(self.max_time_ms, self.max_branches, stats, elapsed_ms)
    }

    fn on_valid_plan_found(&mut self, cost: u64, stats: &SearchStats)
        ensures
            final(self).max_time_ms() == old(self).max_time_ms(),
            final(self).max_branches() == old(self).max_branches(),
    {
    }
}

} // verus!
