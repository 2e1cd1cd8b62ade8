use gdplanningai_rust::plan_types::PreconditionSpec;
use gdplanningai_rust::planner::types::{compute_insert_pos, remove_indices, BranchState, PlanBranch};
use gdplanningai_rust::requirement::{ProvisionSpec, RequirementSpec};
use gdplanningai_rust::snapshot::{BlackboardSnapshot, VariantSnapshot};
use std::collections::HashSet;

fn empty_snapshot() -> BlackboardSnapshot {
    BlackboardSnapshot { properties: vec![], objects: vec![] }
}

fn make_req(name: &str, arg: i64) -> RequirementSpec {
    RequirementSpec::Fact { fact_name: name.to_string(), args: vec![VariantSnapshot::ObjectRef(arg)] }
}

fn make_prov(name: &str, arg: i64) -> ProvisionSpec {
    ProvisionSpec::Fact { fact_name: name.to_string(), args: vec![VariantSnapshot::ObjectRef(arg)] }
}

fn bits(x: f64) -> u64 {
    x.to_bits()
}

#[test]
fn insert_first_action_into_empty_branch() {
    let agent = empty_snapshot();
    let world = empty_snapshot();
    let mut branch = PlanBranch::new(&agent, &world);

    let bindings = branch.insert_action_at(0, 7, bits(1.5), vec![], HashSet::new(), vec![], vec![]);

    assert_eq!(branch.action_chain, vec![7]);
    assert_eq!(branch.action_costs, vec![bits(1.5)]);
    assert!(branch.open_preconditions.is_empty());
    assert!(branch.open_requirements.is_empty());
    assert!(branch.action_bindings.is_empty());
    assert!(bindings.is_empty());
    assert_eq!(f64::from_bits(branch.cost), 0.0);
}

#[test]
fn insert_before_consumer_shifts_positions() {
    let agent = empty_snapshot();
    let world = empty_snapshot();
    let mut branch = PlanBranch::new(&agent, &world);

    branch.action_chain = vec![0];
    branch.action_costs = vec![bits(1.0)];
    branch.open_requirements = vec![(1, make_req("at_target", 100))];

    let new_req = make_req("held_item", 200);
    branch.insert_action_at(
        1,
        1,
        bits(2.0),
        vec![(0, make_req("at_target", 100), make_prov("at_target", 100))],
        HashSet::new(),
        vec![],
        vec![new_req.clone()],
    );

    assert_eq!(branch.action_chain, vec![0, 1]);
    assert_eq!(branch.action_costs, vec![bits(1.0), bits(2.0)]);
    assert_eq!(branch.open_requirements.len(), 1);
    assert_eq!(branch.open_requirements[0].0, 1);
    assert_eq!(branch.open_requirements[0].1, new_req);
}

#[test]
fn greedy_clears_identical_requirements() {
    let agent = empty_snapshot();
    let world = empty_snapshot();
    let mut branch = PlanBranch::new(&agent, &world);

    branch.action_chain = vec![0];
    branch.action_costs = vec![bits(1.0)];
    branch.open_requirements = vec![(1, make_req("at_target", 100)), (2, make_req("at_target", 100))];

    branch.insert_action_at(
        1,
        1,
        bits(2.0),
        vec![(0, make_req("at_target", 100), make_prov("at_target", 100))],
        HashSet::new(),
        vec![],
        vec![],
    );

    assert!(branch.open_requirements.is_empty());
}

#[test]
fn records_provider_and_consumer_bindings() {
    let agent = empty_snapshot();
    let world = empty_snapshot();
    let mut branch = PlanBranch::new(&agent, &world);

    branch.action_chain = vec![0];
    branch.action_costs = vec![bits(1.0)];
    branch.open_requirements = vec![(1, make_req("at_target", 100)), (2, make_req("at_target", 100))];

    let bindings = branch.insert_action_at(
        1,
        1,
        bits(2.0),
        vec![(0, make_req("at_target", 100), make_prov("at_target", 100))],
        HashSet::new(),
        vec![],
        vec![],
    );

    let expected = vec![
        (1, "at_target".to_string(), vec![VariantSnapshot::ObjectRef(100)]),
        (2, "at_target".to_string(), vec![VariantSnapshot::ObjectRef(100)]),
        (3, "at_target".to_string(), vec![VariantSnapshot::ObjectRef(100)]),
    ];
    assert_eq!(bindings, expected);
    assert_eq!(branch.action_bindings, expected);
}

#[test]
fn insert_at_end_does_not_shift_existing_entries() {
    let agent = empty_snapshot();
    let world = empty_snapshot();
    let mut branch = PlanBranch::new(&agent, &world);

    branch.action_chain = vec![0, 1];
    branch.action_costs = vec![bits(1.0), bits(2.0)];
    branch.open_requirements = vec![(2, make_req("held_item", 200))];

    let new_req = make_req("extra", 300);
    branch.insert_action_at(2, 2, bits(3.0), vec![], HashSet::new(), vec![], vec![new_req.clone()]);

    assert_eq!(branch.action_chain, vec![0, 1, 2]);
    assert_eq!(branch.action_costs, vec![bits(1.0), bits(2.0), bits(3.0)]);
    assert_eq!(branch.open_requirements.len(), 2);
    assert!(branch.open_requirements.contains(&(3, make_req("held_item", 200))));
    assert!(branch.open_requirements.contains(&(2, new_req)));
}

#[test]
fn removes_satisfied_preconditions_and_adds_new_ones() {
    let agent = empty_snapshot();
    let world = empty_snapshot();
    let mut branch = PlanBranch::new(&agent, &world);

    branch.action_chain = vec![0];
    branch.action_costs = vec![bits(1.0)];
    let old_pre = PreconditionSpec::Custom { callable_id: 1, dependent_object_ids: vec![] };
    let new_pre = PreconditionSpec::Custom { callable_id: 2, dependent_object_ids: vec![] };
    branch.open_preconditions = vec![(1, old_pre.clone())];

    let mut pre_indices = HashSet::new();
    pre_indices.insert(0);

    branch.insert_action_at(1, 1, bits(2.0), vec![], pre_indices, vec![new_pre.clone()], vec![]);

    assert!(
        !branch.open_preconditions.iter().any(|(_, p)| p == &old_pre),
        "satisfied precondition should be removed"
    );
    assert_eq!(branch.open_preconditions.len(), 1);
    assert_eq!(branch.open_preconditions[0].0, 1);
    assert_eq!(branch.open_preconditions[0].1, new_pre);
}

#[test]
fn insert_position_is_earliest_consumer() {
    let agent = empty_snapshot();
    let world = empty_snapshot();
    let mut branch = PlanBranch::new(&agent, &world);
    branch.action_chain = vec![0, 1, 2];
    branch.open_requirements = vec![(2, make_req("a", 1)), (1, make_req("b", 1))];
    branch.open_preconditions = vec![(3, PreconditionSpec::Custom { callable_id: 0, dependent_object_ids: vec![] })];
    let reqs = vec![(0, make_req("a", 1), make_prov("a", 1)), (1, make_req("b", 1), make_prov("b", 1))];
    assert_eq!(compute_insert_pos(&branch, &[0], &reqs), 1);
    assert_eq!(compute_insert_pos(&branch, &[0], &[]), 3);
    assert_eq!(compute_insert_pos(&branch, &[], &reqs[..1]), 2);
    assert_eq!(compute_insert_pos(&branch, &[], &[]), 0);
}

#[test]
fn insert_position_of_terminal_consumer_is_chain_end() {
    let agent = empty_snapshot();
    let world = empty_snapshot();
    let mut branch = PlanBranch::new(&agent, &world);
    branch.action_chain = vec![3];
    branch.open_preconditions = vec![(1, PreconditionSpec::Custom { callable_id: 0, dependent_object_ids: vec![] })];
    assert_eq!(compute_insert_pos(&branch, &[0], &[]), 1);
    let empty = PlanBranch::new(&agent, &world);
    assert_eq!(compute_insert_pos(&empty, &[], &[]), 0);
}

#[test]
fn shifting_moves_entries_at_or_after_position() {
    let agent = empty_snapshot();
    let world = empty_snapshot();
    let mut branch = PlanBranch::new(&agent, &world);
    branch.open_requirements = vec![(0, make_req("a", 1)), (2, make_req("b", 1))];
    branch.action_bindings = vec![(1, "x".to_string(), vec![]), (3, "y".to_string(), vec![])];
    branch.shift_positions(2, 5);
    assert_eq!(branch.open_requirements[0].0, 0);
    assert_eq!(branch.open_requirements[1].0, 7);
    assert_eq!(branch.action_bindings[0].0, 1);
    assert_eq!(branch.action_bindings[1].0, 8);
}

#[test]
fn insertion_leaves_branch_searching() {
    let agent = empty_snapshot();
    let world = empty_snapshot();
    let mut branch = PlanBranch::new(&agent, &world);
    branch.action_chain = vec![4];
    branch.action_costs = vec![bits(2.0)];
    branch.state = BranchState::Verifying;
    branch.insert_action_at(0, 7, bits(1.0), vec![], HashSet::new(), vec![], vec![]);
    assert_eq!(branch.state, BranchState::Searching);
    assert_eq!(branch.action_chain, vec![7, 4]);
}

#[test]
fn remove_indices_keeps_unmarked_in_order() {
    let mut v = vec![10, 20, 30, 40];
    let marked: HashSet<usize> = [0, 2, 9].into_iter().collect();
    remove_indices(&mut v, &marked);
    assert_eq!(v, vec![20, 40]);
}

#[test]
fn fingerprint_key_drops_need_positions_and_keeps_bindings() {
    let agent = empty_snapshot();
    let world = empty_snapshot();
    let mut branch = PlanBranch::new(&agent, &world);
    branch.goal_index = 2;
    branch.open_requirements = vec![(3, make_req("a", 1)), (0, make_req("b", 2))];
    branch.action_bindings = vec![(1, "target".to_string(), vec![VariantSnapshot::ObjectRef(9)])];
    let key = branch.fingerprint_key();
    assert_eq!(key.goal_index, 2);
    assert_eq!(key.state, BranchState::Searching);
    assert_eq!(key.open_requirements, vec![make_req("a", 1), make_req("b", 2)]);
    assert!(key.open_preconditions.is_empty());
    assert_eq!(key.action_bindings, vec![(1, "target".to_string(), vec![VariantSnapshot::ObjectRef(9)])]);
}

#[test]
fn each_binding_goes_to_its_own_consumers() {
    let agent = empty_snapshot();
    let world = empty_snapshot();
    let mut branch = PlanBranch::new(&agent, &world);
    branch.action_chain = vec![0, 5];
    branch.action_costs = vec![bits(1.0), bits(1.0)];
    branch.open_requirements = vec![(1, make_req("a", 1)), (2, make_req("b", 2))];
    let r = branch.insert_action_at(
        1,
        9,
        bits(1.0),
        vec![(0, make_req("a", 1), make_prov("a", 1)), (1, make_req("b", 2), make_prov("b", 2))],
        HashSet::new(),
        vec![],
        vec![],
    );
    assert_eq!(branch.action_chain, vec![0, 9, 5]);
    assert!(branch.open_requirements.is_empty());
    assert_eq!(
        r,
        vec![
            (1, "a".to_string(), vec![VariantSnapshot::ObjectRef(1)]),
            (2, "a".to_string(), vec![VariantSnapshot::ObjectRef(1)]),
            (1, "b".to_string(), vec![VariantSnapshot::ObjectRef(2)]),
            (3, "b".to_string(), vec![VariantSnapshot::ObjectRef(2)]),
        ]
    );
}
