use gdplanningai_rust::plan_tree::{PlanFingerprint, PlanResult, INFINITY_BITS};
use gdplanningai_rust::requirement::RequirementSpec;
use gdplanningai_rust::snapshot::VariantSnapshot;

#[test]
fn plan_result_failure_defaults() {
    let failure = PlanResult::failure();
    assert!(!failure.success);
    assert!(failure.action_chain.is_empty());
    assert_eq!(f64::from_bits(failure.total_cost), f64::INFINITY);
    assert_eq!(failure.total_cost, INFINITY_BITS);
    assert_eq!(failure.goal_index, -1);
    assert!(failure.deferred_action_indices.is_empty());
    assert!(failure.action_bindings.is_empty());
}

#[test]
fn plan_result_can_be_cloned() {
    let original = PlanResult {
        success: true,
        action_chain: vec![0, 1, 2],
        total_cost: 15.5f64.to_bits(),
        goal_index: 0,
        deferred_action_indices: vec![1],
        action_bindings: vec![(0, "item".to_string(), vec![VariantSnapshot::Int(3)])],
    };
    let cloned = original.clone();
    assert_eq!(cloned.success, original.success);
    assert_eq!(cloned.action_chain, original.action_chain);
    assert_eq!(cloned.total_cost, original.total_cost);
    assert_eq!(cloned.goal_index, original.goal_index);
    assert_eq!(cloned.deferred_action_indices, original.deferred_action_indices);
    assert_eq!(cloned.action_bindings, original.action_bindings);
}

#[test]
fn fingerprints_compare_open_needs() {
    let a = PlanFingerprint {
        open_preconditions: vec![],
        open_requirements: vec![(1, RequirementSpec::BindingExists { binding_name: "x".to_string() })],
    };
    let b = PlanFingerprint {
        open_preconditions: vec![],
        open_requirements: vec![(1, RequirementSpec::BindingExists { binding_name: "x".to_string() })],
    };
    assert_eq!(a, b);
}
