//! Plan result type shared between planner and scheduler.
use crate::plan_types::PreconditionSpec;
use crate::requirement::RequirementSpec;
use crate::snapshot::VariantSnapshot;
use vstd::prelude::*;

verus! {

/// Bit pattern of positive infinity as a 64-bit float.
pub const INFINITY_BITS: u64 = 0x7ff0_0000_0000_0000u64;

/// Result of the planning algorithm. The total cost is a 64-bit float bit pattern.
#[derive(Clone, Debug)]
pub struct PlanResult {
    pub success: bool,
    pub action_chain: Vec<i64>,
    pub total_cost: u64,
    /// Index into the original goals array; -1 on failure.
    pub goal_index: i64,
    /// Indices of actions that used placeholder simulation.
    pub deferred_action_indices: Vec<i64>,
    /// Action-specific bindings: (chain position, name, values).
    pub action_bindings: Vec<(i64, String, Vec<VariantSnapshot>)>,
}

/// Open needs of a plan, used to recognise equivalent plans.
#[derive(Clone, Debug, PartialEq, Eq, Hash)]
pub struct PlanFingerprint {
    pub open_preconditions: Vec<PreconditionSpec>,
    pub open_requirements: Vec<(usize, RequirementSpec)>,
}

impl PlanResult {
    /// A failed plan: no actions, infinite cost, goal index -1.
    pub fn failure() -> (r: Self)
        ensures
            !r.success,
            r.action_chain@.len() == 0,
            r.total_cost == INFINITY_BITS,
            r.goal_index == -1,
            r.deferred_action_indices@.len() == 0,
            r.action_bindings@.len() == 0,
    {
        PlanResult {
            success: false,
            action_chain: Vec::new(),
            total_cost: INFINITY_BITS,
            goal_index: -1,
            deferred_action_indices: Vec::new(),
            action_bindings: Vec::new(),
        }
    }
}

} // verus!
