use gdplanningai_rust::plan_tree::PlanResult;
use gdplanningai_rust::plan_types::{GoalSpec, PreconditionSpec};
use gdplanningai_rust::precondition::{PreconditionOp, PreconditionTarget};
use gdplanningai_rust::requirement::ProvisionSpec;
use gdplanningai_rust::scheduler::{
    clamp_job_limits, collect_dependent_object_ids, extract_provisions_from_snapshot,
    inject_bindings_into_snapshot, ready_to_resume, register_callable, resolve_completed_plan,
    satisfied_goal_index, StallNoticeThrottle,
};
use gdplanningai_rust::snapshot::{BlackboardSnapshot, SimObjectData, VariantSnapshot};

fn object(uid: &str, properties: Vec<(&str, VariantSnapshot)>) -> (String, SimObjectData) {
    (
        uid.to_string(),
        SimObjectData {
            uid: uid.to_string(),
            groups: vec![],
            properties: properties.into_iter().map(|(k, v)| (k.to_string(), v)).collect(),
        },
    )
}

#[test]
fn first_sight_of_pending_id_logs() {
    let mut throttle = StallNoticeThrottle::default();
    assert!(throttle.should_log(7));
}

#[test]
fn repeated_pending_id_is_suppressed() {
    let mut throttle = StallNoticeThrottle::default();
    assert!(throttle.should_log(7));
    assert!(!throttle.should_log(7));
    assert!(!throttle.should_log(7));
}

#[test]
fn new_pending_id_logs_again() {
    let mut throttle = StallNoticeThrottle::default();
    assert!(throttle.should_log(7));
    assert!(!throttle.should_log(7));
    assert!(throttle.should_log(9));
    assert!(!throttle.should_log(9));
}

#[test]
fn id_seen_earlier_is_suppressed_after_another() {
    let mut throttle = StallNoticeThrottle::default();
    assert!(throttle.should_log(7));
    assert!(throttle.should_log(9));
    assert!(!throttle.should_log(7));
    assert!(!throttle.should_log(9));
    throttle.reset();
    assert!(throttle.should_log(9));
}

#[test]
fn reset_reenables_logging() {
    let mut throttle = StallNoticeThrottle::default();
    assert!(throttle.should_log(7));
    throttle.reset();
    assert!(throttle.should_log(7));
}

#[test]
fn job_limits_are_clamped() {
    let limits = clamp_job_limits(0, 5, -3);
    assert_eq!(limits.max_depth, 1);
    assert_eq!(limits.iteration_budget, 100);
    assert_eq!(limits.time_slice_ms, 0);
    let limits = clamp_job_limits(8, 5000, 16);
    assert_eq!(limits.max_depth, 8);
    assert_eq!(limits.iteration_budget, 5000);
    assert_eq!(limits.time_slice_ms, 16);
}

#[test]
fn budget_yield_always_resumes() {
    assert!(ready_to_resume(0, false, false));
    assert!(!ready_to_resume(4, false, false));
    assert!(ready_to_resume(4, true, false));
    assert!(ready_to_resume(4, false, true));
}

#[test]
fn missing_result_reports_satisfied_goal_or_failure() {
    let r = resolve_completed_plan(None, 2);
    assert!(r.success);
    assert_eq!(r.goal_index, 2);
    assert!(r.action_chain.is_empty());
    assert_eq!(r.total_cost, 0);
    let r = resolve_completed_plan(None, -1);
    assert!(!r.success);
    assert_eq!(r.goal_index, -1);
    assert_eq!(r.total_cost, 0);
}

#[test]
fn failed_result_becomes_success_for_satisfied_goal() {
    let r = resolve_completed_plan(Some(PlanResult::failure()), 1);
    assert!(r.success);
    assert_eq!(r.goal_index, 1);
    assert_eq!(r.total_cost, 0);
    let r = resolve_completed_plan(Some(PlanResult::failure()), -1);
    assert!(!r.success);
    assert_eq!(r.total_cost, f64::INFINITY.to_bits());
    let found = PlanResult {
        success: true,
        action_chain: vec![3, 1],
        total_cost: 2.5f64.to_bits(),
        goal_index: 0,
        deferred_action_indices: vec![],
        action_bindings: vec![],
    };
    let r = resolve_completed_plan(Some(found), 4);
    assert!(r.success);
    assert_eq!(r.action_chain, vec![3, 1]);
    assert_eq!(r.goal_index, 0);
}

#[test]
fn callables_get_consecutive_ids() {
    let mut registry: Vec<&str> = Vec::new();
    assert_eq!(register_callable(&mut registry, "cost"), 0);
    assert_eq!(register_callable(&mut registry, "effect"), 1);
    assert_eq!(registry, vec!["cost", "effect"]);
}

#[test]
fn dependent_ids_come_from_preconditions_checks_then_action() {
    let pre = vec![
        PreconditionSpec::Custom { callable_id: 0, dependent_object_ids: vec![1, 2] },
        PreconditionSpec::Builtin {
            target: PreconditionTarget::Agent,
            operation: PreconditionOp::HasProperty,
            property_name: "hp".to_string(),
            value: None,
        },
    ];
    let checks = vec![PreconditionSpec::Custom { callable_id: 1, dependent_object_ids: vec![3] }];
    let ids = collect_dependent_object_ids(&pre, &checks, &vec![9]);
    assert_eq!(ids, vec![1, 2, 3, 9]);
}

#[test]
fn objects_provide_facts_named_by_provides() {
    let snap = BlackboardSnapshot {
        properties: vec![],
        objects: vec![
            object("42", vec![("provides", VariantSnapshot::Str("food".to_string())), ("hp", VariantSnapshot::Int(3))]),
            object("tree", vec![("provides", VariantSnapshot::Str("shade".to_string()))]),
            object("7", vec![("provides", VariantSnapshot::Int(1))]),
        ],
    };
    let provs = extract_provisions_from_snapshot(&snap);
    assert_eq!(
        provs,
        vec![
            ProvisionSpec::Fact { fact_name: "food".to_string(), args: vec![VariantSnapshot::Int(42)] },
            ProvisionSpec::Fact { fact_name: "shade".to_string(), args: vec![] },
        ]
    );
}

#[test]
fn uid_parsing_accepts_signs_and_rejects_overflow() {
    let snap = BlackboardSnapshot {
        properties: vec![],
        objects: vec![
            object("-5", vec![("provides", VariantSnapshot::Str("a".to_string()))]),
            object("+6", vec![("provides", VariantSnapshot::Str("b".to_string()))]),
            object("99999999999999999999", vec![("provides", VariantSnapshot::Str("c".to_string()))]),
        ],
    };
    let provs = extract_provisions_from_snapshot(&snap);
    assert_eq!(
        provs,
        vec![
            ProvisionSpec::Fact { fact_name: "a".to_string(), args: vec![VariantSnapshot::Int(-5)] },
            ProvisionSpec::Fact { fact_name: "b".to_string(), args: vec![VariantSnapshot::Int(6)] },
            ProvisionSpec::Fact { fact_name: "c".to_string(), args: vec![] },
        ]
    );
}

#[test]
fn bindings_are_written_into_agent_properties() {
    let mut snap = BlackboardSnapshot {
        properties: vec![("hp".to_string(), VariantSnapshot::Int(3)), ("target".to_string(), VariantSnapshot::Nil)],
        objects: vec![],
    };
    let bindings = vec![
        ("target".to_string(), vec![VariantSnapshot::ObjectRef(5), VariantSnapshot::ObjectRef(6)]),
        ("empty".to_string(), vec![]),
        ("tool".to_string(), vec![VariantSnapshot::ObjectRef(8)]),
    ];
    inject_bindings_into_snapshot(&mut snap, &bindings);
    assert_eq!(snap.get_property(&"target".to_string()), Some(&VariantSnapshot::ObjectRef(5)));
    assert_eq!(snap.get_property(&"tool".to_string()), Some(&VariantSnapshot::ObjectRef(8)));
    assert_eq!(snap.get_property(&"hp".to_string()), Some(&VariantSnapshot::Int(3)));
    assert!(!snap.has_property(&"empty".to_string()));
}

#[test]
fn stall_notice_logs_once_per_pending_id() {
    let mut throttle = StallNoticeThrottle::default();
    assert!(throttle.should_log(3));
    assert!(!throttle.should_log(3));
    assert!(throttle.should_log(4));
    throttle.reset();
    assert!(throttle.should_log(4));
}

fn goal(reward: f64, idx: usize) -> GoalSpec {
    GoalSpec { name: format!("g{}", idx), reward_bits: reward.to_bits(), desired_state: vec![], original_index: idx }
}

#[test]
fn satisfied_goal_is_the_highest_reward_when_all_are_satisfied() {
    let goals = vec![goal(10.0, 4), goal(30.0, 5), goal(30.0, 6), goal(f64::NAN, 7)];
    assert_eq!(satisfied_goal_index(&goals, &vec![true, true, true, true]), 5);
    assert_eq!(satisfied_goal_index(&goals, &vec![true, true, false, true]), -1);
    let low = vec![goal(f64::NEG_INFINITY, 1)];
    assert_eq!(satisfied_goal_index(&low, &vec![true]), -1);
    assert_eq!(satisfied_goal_index(&vec![], &vec![]), -1);
}
