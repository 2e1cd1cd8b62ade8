use gdplanningai_rust::plan_tree::PlanResult;
use gdplanningai_rust::plan_types::{ActionSpec, PreconditionSpec};
use gdplanningai_rust::planner::engine::{
    action_requirements_hold, advance_after_simulation, begin_verification, can_expand,
    clear_initial_state_requirements, clear_requirements_from_provisions, concretize_wildcard_provision, dispatch_node,
    finalize_outcome, goal_transition, needs_satisfied, new_preconditions_for, new_requirements_for,
    plan_result_from_branch, preconditions_to_validate, requirements_overflow, root_branch, stops_on_complete,
    FinalizeOutcome, GoalTransition, NodeAction,
};
use gdplanningai_rust::planner::expander::{
    candidate_action_indices, get_bindings_for_match, grouped_candidate, grouped_requirement_matches,
    has_wildcard_provision, satisfied_precondition_indices, wildcard_candidate, wildcard_requirement_matches,
};
use gdplanningai_rust::planner::types::{BranchState, PlanBranch};
use gdplanningai_rust::planner::TerminationStrategy;
use gdplanningai_rust::precondition::{PreconditionOp, PreconditionTarget};
use gdplanningai_rust::requirement::{ProvisionSpec, RequirementSpec};
use gdplanningai_rust::snapshot::{BlackboardSnapshot, SimObjectData, VariantSnapshot};

fn empty_snapshot() -> BlackboardSnapshot {
    BlackboardSnapshot { properties: vec![], objects: vec![] }
}

fn action(name: &str, requirements: Vec<RequirementSpec>, provisions: Vec<ProvisionSpec>) -> ActionSpec {
    ActionSpec {
        name: name.to_string(),
        cost_callable_id: None,
        effect_callable_id: None,
        preconditions: vec![],
        validity_checks: vec![],
        requirements,
        provisions,
        dependent_object_ids: vec![],
    }
}

fn binding_exists(name: &str) -> RequirementSpec {
    RequirementSpec::BindingExists { binding_name: name.to_string() }
}

fn fact_req(name: &str, arg: i64) -> RequirementSpec {
    RequirementSpec::Fact { fact_name: name.to_string(), args: vec![VariantSnapshot::ObjectRef(arg)] }
}

#[test]
fn collect_bindings_for_position_filters_by_position() {
    let agent = empty_snapshot();
    let world = empty_snapshot();
    let mut branch = PlanBranch::new(&agent, &world);
    branch.action_bindings = vec![
        (0, "held_item".to_string(), vec![VariantSnapshot::ObjectRef(101)]),
        (1, "at_target".to_string(), vec![VariantSnapshot::ObjectRef(202)]),
        (0, "tool".to_string(), vec![VariantSnapshot::ObjectRef(303)]),
        (2, "at_target".to_string(), vec![VariantSnapshot::ObjectRef(404)]),
    ];

    let pos0 = branch.collect_bindings_for_position(0);
    assert_eq!(pos0.len(), 2);
    assert!(
        pos0.iter().any(|(n, v)| n == "held_item" && v == &[VariantSnapshot::ObjectRef(101)]),
        "expected held_item binding at position 0"
    );
    assert!(
        pos0.iter().any(|(n, v)| n == "tool" && v == &[VariantSnapshot::ObjectRef(303)]),
        "expected tool binding at position 0"
    );

    let pos1 = branch.collect_bindings_for_position(1);
    assert_eq!(pos1.len(), 1);
    assert_eq!(pos1[0].0, "at_target");
    assert_eq!(pos1[0].1, vec![VariantSnapshot::ObjectRef(202)]);

    let pos3 = branch.collect_bindings_for_position(3);
    assert!(pos3.is_empty(), "expected no bindings at position 3");
}

#[test]
fn clear_initial_state_requirements_removes_satisfied_pos_zero() {
    let agent = empty_snapshot();
    let world = empty_snapshot();
    let initial_provisions = vec![ProvisionSpec::Binding {
        binding_name: "held_item".to_string(),
        value: VariantSnapshot::ObjectRef(101),
    }];
    let mut branch = PlanBranch::new(&agent, &world);
    branch.open_requirements = vec![(0, binding_exists("held_item")), (1, binding_exists("held_item")), (0, binding_exists("missing"))];

    clear_initial_state_requirements(&mut branch, &initial_provisions, &world);

    assert_eq!(branch.open_requirements.len(), 2);
    assert!(
        branch.open_requirements.iter().any(|(p, r)| *p == 1
            && matches!(r, RequirementSpec::BindingExists { binding_name } if binding_name == "held_item")),
        "expected pos-1 held_item requirement to remain"
    );
    assert!(
        branch.open_requirements.iter().any(|(p, r)| *p == 0
            && matches!(r, RequirementSpec::BindingExists { binding_name } if binding_name == "missing")),
        "expected unsatisfied pos-0 missing requirement to remain"
    );
}

#[test]
fn clear_requirements_from_provisions_concretizes_wildcard_and_clears_matches() {
    let agent = empty_snapshot();
    let world = BlackboardSnapshot {
        properties: vec![],
        objects: vec![(
            "obj_01".to_string(),
            SimObjectData { uid: "obj_01".to_string(), groups: vec![], properties: vec![] },
        )],
    };
    let go_to = action("go_to", vec![], vec![ProvisionSpec::FactWildcard { fact_name: "at_target".to_string() }]);
    let mut branch = PlanBranch::new(&agent, &world);
    branch.simulation_index = 0;
    branch.action_chain = vec![0];
    branch.open_requirements = vec![(1, fact_req("at_target", 100)), (2, fact_req("at_target", 200))];

    let bindings = vec![("at_target".to_string(), vec![VariantSnapshot::ObjectRef(100)])];
    clear_requirements_from_provisions(&mut branch, &go_to, &bindings);

    assert_eq!(branch.open_requirements.len(), 1);
    assert!(
        branch.open_requirements.iter().any(|(p, r)| *p == 2
            && matches!(r, RequirementSpec::Fact { fact_name, args }
                if fact_name == "at_target" && args == &[VariantSnapshot::ObjectRef(200)])),
        "expected non-matching at_target(ObjectRef(200)) requirement to remain"
    );
}

#[test]
fn finalize_verified_branch_records_best_plan_when_complete() {
    let agent = empty_snapshot();
    let world = empty_snapshot();
    let mut branch = PlanBranch::new(&agent, &world);
    branch.state = BranchState::Verifying;
    branch.action_chain = vec![0];
    branch.action_costs = vec![1.0f64.to_bits()];
    branch.simulation_index = branch.action_chain.len();
    branch.cost = 1.0f64.to_bits();

    assert_eq!(finalize_outcome(&branch), FinalizeOutcome::ChainComplete);
    let plan = plan_result_from_branch(&branch);
    assert!(plan.success);
    assert_eq!(plan.action_chain, vec![0i64]);
    assert_eq!(f64::from_bits(plan.total_cost), 1.0);
    assert_eq!(plan.goal_index, 0);
}

#[test]
fn finalize_verified_branch_invalid_when_open_needs_remain() {
    let agent = empty_snapshot();
    let world = empty_snapshot();
    let mut branch = PlanBranch::new(&agent, &world);
    branch.state = BranchState::Verifying;
    branch.action_chain = vec![];
    branch.simulation_index = 0;
    branch.open_preconditions = vec![(
        0,
        PreconditionSpec::Builtin {
            target: PreconditionTarget::Agent,
            operation: PreconditionOp::HasProperty,
            property_name: "health".to_string(),
            value: None,
        },
    )];

    assert_eq!(finalize_outcome(&branch), FinalizeOutcome::UnsatisfiedPreconditions);
    branch.open_preconditions.clear();
    branch.open_requirements = vec![(0, binding_exists("x"))];
    assert_eq!(finalize_outcome(&branch), FinalizeOutcome::UnsatisfiedRequirements);
}

#[test]
fn finalize_verified_branch_searching_returns_ready() {
    let agent = empty_snapshot();
    let world = empty_snapshot();
    let mut branch = PlanBranch::new(&agent, &world);
    branch.state = BranchState::Searching;
    branch.action_chain = vec![];
    branch.simulation_index = 0;

    assert_eq!(finalize_outcome(&branch), FinalizeOutcome::StillSearching);
}

#[test]
fn wildcard_is_concretized_by_first_nonempty_binding() {
    let wildcard = ProvisionSpec::FactWildcard { fact_name: "at_target".to_string() };
    let bindings = vec![("at_target".to_string(), vec![VariantSnapshot::ObjectRef(3)])];
    assert_eq!(
        concretize_wildcard_provision(&wildcard, &bindings),
        ProvisionSpec::Fact { fact_name: "at_target".to_string(), args: vec![VariantSnapshot::ObjectRef(3)] }
    );
    let empty = vec![("at_target".to_string(), vec![])];
    assert_eq!(concretize_wildcard_provision(&wildcard, &empty), wildcard);
}

#[test]
fn verification_walks_chain_from_initial_state() {
    let agent = BlackboardSnapshot { properties: vec![("hp".to_string(), VariantSnapshot::Int(1))], objects: vec![] };
    let world = empty_snapshot();
    let mut branch = PlanBranch::new(&empty_snapshot(), &world);
    branch.simulation_index = 3;
    begin_verification(&mut branch, &agent, &world);
    assert_eq!(branch.state, BranchState::Verifying);
    assert_eq!(branch.simulation_index, 0);
    assert!(branch.current_agent.has_property(&"hp".to_string()));
    assert!(needs_satisfied(&branch));

    let pick = action("pick", vec![], vec![ProvisionSpec::Binding {
        binding_name: "item".to_string(),
        value: VariantSnapshot::ObjectRef(1),
    }]);
    branch.open_requirements = vec![(1, binding_exists("item")), (0, binding_exists("other"))];
    let next_agent = BlackboardSnapshot { properties: vec![("hp".to_string(), VariantSnapshot::Int(2))], objects: vec![] };
    advance_after_simulation(&mut branch, &pick, next_agent, empty_snapshot(), &[]);
    assert_eq!(branch.simulation_index, 1);
    assert_eq!(branch.open_requirements, vec![(0, binding_exists("other"))]);
    assert_eq!(branch.current_agent.get_property(&"hp".to_string()), Some(&VariantSnapshot::Int(2)));
}

#[test]
fn requirements_checked_against_current_state() {
    let agent = BlackboardSnapshot { properties: vec![("item".to_string(), VariantSnapshot::Int(1))], objects: vec![] };
    let mut branch = PlanBranch::new(&agent, &empty_snapshot());
    branch.current_agent = agent.clone();
    let eat = action("eat", vec![binding_exists("item")], vec![]);
    assert!(action_requirements_hold(&branch, &eat, &[]));
    let drink = action("drink", vec![binding_exists("cup")], vec![]);
    assert!(!action_requirements_hold(&branch, &drink, &[]));
    let bindings = vec![("cup".to_string(), vec![VariantSnapshot::ObjectRef(2)])];
    assert!(action_requirements_hold(&branch, &drink, &bindings));
}

#[test]
fn new_needs_skip_open_and_initially_met_ones() {
    let mut branch = PlanBranch::new(&empty_snapshot(), &empty_snapshot());
    branch.open_requirements = vec![(0, binding_exists("a"))];
    let mut act = action("act", vec![binding_exists("a"), binding_exists("b"), binding_exists("c")], vec![]);
    let initial = vec![ProvisionSpec::Binding { binding_name: "c".to_string(), value: VariantSnapshot::Int(1) }];
    assert_eq!(new_requirements_for(&act, &branch, &initial, &empty_snapshot()), vec![binding_exists("b")]);

    let p1 = PreconditionSpec::Custom { callable_id: 1, dependent_object_ids: vec![] };
    let p2 = PreconditionSpec::Custom { callable_id: 2, dependent_object_ids: vec![] };
    let p3 = PreconditionSpec::Custom { callable_id: 3, dependent_object_ids: vec![] };
    branch.open_preconditions = vec![(0, p1.clone())];
    act.preconditions = vec![p1, p2.clone(), p3];
    assert_eq!(new_preconditions_for(&act, &branch, &vec![false, false, true]), vec![p2]);
}

#[test]
fn goal_transitions_after_queue_drains() {
    let empty_plan = PlanResult {
        success: true,
        action_chain: vec![],
        total_cost: 0,
        goal_index: 0,
        deferred_action_indices: vec![],
        action_bindings: vec![],
    };
    assert_eq!(goal_transition(true, &None, 0, 2), GoalTransition::AwaitCallbacks);
    assert_eq!(goal_transition(false, &None, 0, 2), GoalTransition::NextGoal);
    assert_eq!(goal_transition(false, &None, 1, 2), GoalTransition::Finish);
    assert_eq!(goal_transition(false, &Some(empty_plan.clone()), 0, 2), GoalTransition::NextGoal);
    let mut plan = empty_plan.clone();
    plan.action_chain = vec![4];
    assert_eq!(goal_transition(false, &Some(plan.clone()), 0, 2), GoalTransition::Finish);

    assert!(stops_on_complete(TerminationStrategy::FirstComplete, &Some(plan.clone()), 0, 2));
    assert!(!stops_on_complete(TerminationStrategy::FirstComplete, &Some(empty_plan.clone()), 0, 2));
    assert!(stops_on_complete(TerminationStrategy::FirstComplete, &Some(empty_plan), 1, 2));
    assert!(!stops_on_complete(TerminationStrategy::BestCost, &Some(plan), 0, 2));
    assert!(!stops_on_complete(TerminationStrategy::FirstComplete, &None, 0, 1));
}

#[test]
fn candidates_are_ascending_and_filtered() {
    let mut branch = PlanBranch::new(&empty_snapshot(), &empty_snapshot());
    branch.open_requirements = vec![(0, fact_req("at_target", 5))];
    let actions = vec![
        action("plain", vec![], vec![]),
        action("goto", vec![], vec![ProvisionSpec::FactWildcard { fact_name: "at_target".to_string() }]),
        action("fly", vec![], vec![ProvisionSpec::FactWildcard { fact_name: "airborne".to_string() }]),
    ];
    assert!(!has_wildcard_provision(&actions[0]));
    assert!(has_wildcard_provision(&actions[1]));
    assert_eq!(candidate_action_indices(&branch, &actions), vec![0, 1]);
}

#[test]
fn requirement_matches_pair_needs_with_providers() {
    let mut branch = PlanBranch::new(&empty_snapshot(), &empty_snapshot());
    branch.open_requirements = vec![(0, fact_req("at_target", 5)), (1, binding_exists("item"))];
    let world = empty_snapshot();
    let provider = action("pick", vec![], vec![
        ProvisionSpec::Binding { binding_name: "item".to_string(), value: VariantSnapshot::Int(1) },
        ProvisionSpec::Binding { binding_name: "item".to_string(), value: VariantSnapshot::Int(2) },
    ]);
    let grouped = grouped_requirement_matches(&branch, &provider, &world);
    assert_eq!(grouped.len(), 1);
    assert_eq!(grouped[0].0, 1);
    assert_eq!(grouped[0].2, ProvisionSpec::Binding { binding_name: "item".to_string(), value: VariantSnapshot::Int(1) });
    let all = wildcard_requirement_matches(&branch, &provider, &world);
    assert_eq!(all.len(), 2);
    assert_eq!(get_bindings_for_match(&grouped[0].2, &grouped[0].1), vec![("item".to_string(), vec![VariantSnapshot::Int(1)])]);
    let wildcard = ProvisionSpec::FactWildcard { fact_name: "at_target".to_string() };
    assert_eq!(
        get_bindings_for_match(&wildcard, &fact_req("at_target", 5)),
        vec![("at_target".to_string(), vec![VariantSnapshot::ObjectRef(5)])]
    );
    assert!(get_bindings_for_match(&wildcard, &binding_exists("x")).is_empty());
}

#[test]
fn depth_and_cycle_guards() {
    let mut branch = PlanBranch::new(&empty_snapshot(), &empty_snapshot());
    branch.action_chain = vec![0, 1];
    assert!(can_expand(&branch, 3));
    assert!(!can_expand(&branch, 2));
    branch.open_requirements = vec![(0, binding_exists("a")), (1, binding_exists("b"))];
    assert!(!requirements_overflow(&branch, 2));
    assert!(requirements_overflow(&branch, 1));
}

#[test]
fn validation_skips_custom_and_open_preconditions() {
    let has = |name: &str| PreconditionSpec::Builtin {
        target: PreconditionTarget::Agent,
        operation: PreconditionOp::HasProperty,
        property_name: name.to_string(),
        value: None,
    };
    let mut act = action("act", vec![], vec![]);
    act.preconditions = vec![has("a"), PreconditionSpec::Custom { callable_id: 0, dependent_object_ids: vec![] }, has("b"), has("c")];
    let mut branch = PlanBranch::new(&empty_snapshot(), &empty_snapshot());
    branch.simulation_index = 1;
    branch.open_preconditions = vec![(1, has("b")), (0, has("c"))];
    assert_eq!(preconditions_to_validate(&act, &branch), vec![0, 3]);
}

#[test]
fn root_branch_opens_unmet_goal_preconditions() {
    let p1 = PreconditionSpec::Custom { callable_id: 1, dependent_object_ids: vec![] };
    let p2 = PreconditionSpec::Custom { callable_id: 2, dependent_object_ids: vec![] };
    let agent = BlackboardSnapshot { properties: vec![("x".to_string(), VariantSnapshot::Int(1))], objects: vec![] };
    let branch = root_branch(&vec![p1, p2.clone()], 4, &vec![true, false], &agent, &empty_snapshot());
    assert_eq!(branch.goal_index, 4);
    assert_eq!(branch.open_preconditions, vec![(0, p2)]);
    assert_eq!(branch.state, BranchState::Searching);
    assert!(branch.current_agent.has_property(&"x".to_string()));
}

#[test]
fn candidates_are_assembled_from_matches() {
    assert_eq!(satisfied_precondition_indices(&vec![false, true, true, false]), vec![1, 2]);
    assert!(grouped_candidate(3, vec![], vec![]).is_none());
    let c = grouped_candidate(3, vec![], vec![0]).unwrap();
    assert_eq!(c.action_idx, 3);
    assert_eq!(c.satisfied_preconditions, vec![0]);
    assert!(c.bindings.is_empty());
    let m = (0, fact_req("at_target", 7), ProvisionSpec::FactWildcard { fact_name: "at_target".to_string() });
    let w = wildcard_candidate(5, m, vec![]);
    assert_eq!(w.action_idx, 5);
    assert_eq!(w.satisfied_requirements.len(), 1);
    assert_eq!(w.bindings, vec![("at_target".to_string(), vec![VariantSnapshot::ObjectRef(7)])]);
}

#[test]
fn queued_branches_are_dispatched_by_state() {
    let mut branch = PlanBranch::new(&empty_snapshot(), &empty_snapshot());
    assert_eq!(dispatch_node(&branch, true, 5), NodeAction::Discard);
    assert_eq!(dispatch_node(&branch, false, 5), NodeAction::StartVerification);
    branch.open_requirements = vec![(0, binding_exists("a"))];
    assert_eq!(dispatch_node(&branch, false, 5), NodeAction::Expand);
    branch.action_chain = vec![0, 1, 2, 3, 4];
    assert_eq!(dispatch_node(&branch, false, 5), NodeAction::Discard);
    branch.state = BranchState::Verifying;
    assert_eq!(dispatch_node(&branch, false, 5), NodeAction::Simulate);
}
