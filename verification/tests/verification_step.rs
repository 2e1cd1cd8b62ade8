use gdplanningai_rust::plan_types::PreconditionSpec;
use gdplanningai_rust::planner::engine::{
    check_step, discharge_open_precondition, discovery_action, next_open_at_position, validity_step, CheckResult,
    CheckStep, DiscoveryAction,
};
use gdplanningai_rust::planner::types::{BranchState, PlanBranch};
use gdplanningai_rust::snapshot::BlackboardSnapshot;

fn custom(id: usize) -> PreconditionSpec {
    PreconditionSpec::Custom { callable_id: id, dependent_object_ids: vec![] }
}

#[test]
fn failing_check_prunes_only_while_verifying() {
    assert_eq!(check_step(BranchState::Verifying, CheckResult::Fails), CheckStep::Prune);
    assert_eq!(check_step(BranchState::Searching, CheckResult::Fails), CheckStep::Next);
    assert_eq!(check_step(BranchState::Verifying, CheckResult::Holds), CheckStep::Next);
    assert_eq!(check_step(BranchState::Searching, CheckResult::Pending(4)), CheckStep::Wait(4));
    assert_eq!(check_step(BranchState::Searching, CheckResult::Broken), CheckStep::Prune);
}

#[test]
fn open_preconditions_at_the_current_position_are_found_and_removed() {
    let empty = BlackboardSnapshot { properties: vec![], objects: vec![] };
    let mut branch = PlanBranch::new(&empty, &empty);
    branch.action_chain = vec![0, 1];
    branch.simulation_index = 1;
    branch.open_preconditions = vec![(0, custom(10)), (1, custom(11)), (2, custom(12)), (1, custom(13))];
    assert_eq!(next_open_at_position(&branch, 0), Some(1));
    assert_eq!(next_open_at_position(&branch, 2), Some(3));
    assert_eq!(next_open_at_position(&branch, 4), None);
    discharge_open_precondition(&mut branch, 1);
    assert_eq!(branch.open_preconditions, vec![(0, custom(10)), (2, custom(12)), (1, custom(13))]);
    assert_eq!(next_open_at_position(&branch, 0), Some(2));
}

#[test]
fn validity_checks_are_hard_requirements() {
    assert_eq!(validity_step(CheckResult::Fails), CheckStep::Prune);
    assert_eq!(validity_step(CheckResult::Holds), CheckStep::Next);
    assert_eq!(validity_step(CheckResult::Pending(2)), CheckStep::Wait(2));
}

#[test]
fn discovery_uses_cache_then_waits_then_simulates() {
    assert_eq!(discovery_action(true, Some(3), true), DiscoveryAction::UseCached);
    assert_eq!(discovery_action(false, Some(3), true), DiscoveryAction::Wait(3));
    assert_eq!(discovery_action(false, Some(3), false), DiscoveryAction::Simulate { forget_pending: true });
    assert_eq!(discovery_action(false, None, false), DiscoveryAction::Simulate { forget_pending: false });
}
