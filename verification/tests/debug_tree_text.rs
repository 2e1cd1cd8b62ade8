use gdplanningai_rust::debug_tree::{ChildNodeConfig, NodeOutcome, TreeDump};
use gdplanningai_rust::tree_text::DumpNumbers;

fn child<'a>(name: &'a str, cost: f64, total: f64, open_pre: &'a [String]) -> ChildNodeConfig<'a> {
    ChildNodeConfig {
        action_name: name,
        estimated_cost: cost.to_bits(),
        accumulated_cost: total.to_bits(),
        open_pre,
        open_req: &[],
        satisfied_pre: &[],
        satisfied_req: &[],
    }
}

fn complete(chain_len: usize, total_cost: f64) -> NodeOutcome {
    NodeOutcome::Complete { chain_len, total_cost: total_cost.to_bits(), fwd_ok: true }
}

/// The dump's text, with its numbers shown as the planner shows them.
fn text(dump: &TreeDump) -> String {
    let numbers = DumpNumbers {
        node_costs: dump
            .node_list()
            .iter()
            .map(|n| {
                (
                    format!("{:.2}", f64::from_bits(n.estimated_cost)),
                    format!("{:.2}", f64::from_bits(n.accumulated_cost)),
                )
            })
            .collect(),
        goal_numbers: dump
            .goal_attempt_list()
            .iter()
            .map(|g| (format!("{:.1}", f64::from_bits(g.goal_reward)), format!("{:.2}", f64::from_bits(g.plan_cost))))
            .collect(),
        elapsed_ms: "0.0".to_string(),
    };
    dump.format(&numbers)
}

#[test]
fn single_goal_already_satisfied() {
    let mut dump = TreeDump::new_forced();
    dump.begin_goal("eat_goal", 10.0f64.to_bits(), &["hunger < 30".to_string()]);
    dump.goal_already_satisfied();
    dump.end_goal(true, &[], 0.0f64.to_bits());

    let output = text(&dump);
    assert!(output.contains("eat_goal"));
    assert!(output.contains("ALREADY SATISFIED"));
}

#[test]
fn goal_with_root_and_no_candidates() {
    let mut dump = TreeDump::new_forced();
    dump.begin_goal("test_goal", 5.0f64.to_bits(), &["pre_a".to_string()]);
    let root_id = dump.add_root(&["pre_a".to_string()], &[]);
    dump.set_outcome(root_id, NodeOutcome::DeadEnd);
    dump.end_goal(false, &[], 0.0f64.to_bits());

    let output = text(&dump);
    assert!(output.contains("test_goal"));
    assert!(output.contains("DEAD END"));
    assert!(output.contains("FAILURE"));
}

#[test]
fn single_candidate_completes() {
    let mut dump = TreeDump::new_forced();
    dump.begin_goal("goal", 10.0f64.to_bits(), &["need_x".to_string()]);
    let root_id = dump.add_root(&["need_x".to_string()], &[]);

    let child_id = dump.add_child(root_id, child("do_x", 3.0, 3.0, &[]));
    dump.set_outcome(child_id, complete(1, 3.0));

    dump.end_goal(true, &["do_x".to_string()], 3.0f64.to_bits());

    let output = text(&dump);
    assert!(output.contains("SUCCESS"));
    assert!(output.contains("do_x"));
    assert!(output.contains("cost=3.00"));
}

#[test]
fn candidate_pruned_by_cost() {
    let mut dump = TreeDump::new_forced();
    dump.begin_goal("goal", 10.0f64.to_bits(), &["need_x".to_string()]);
    let root_id = dump.add_root(&["need_x".to_string()], &[]);

    let child_id = dump.add_child(root_id, child("expensive_action", 100.0, 100.0, &[]));
    dump.set_outcome(child_id, NodeOutcome::Pruned { reason: "cost 100.00 >= best 5.00".to_string() });

    dump.end_goal(false, &[], 0.0f64.to_bits());

    let output = text(&dump);
    assert!(output.contains("expensive_action"));
    assert!(output.contains("PRUNED"));
}

#[test]
fn excluded_actions_attached_to_node() {
    let mut dump = TreeDump::new_forced();
    dump.begin_goal("goal", 10.0f64.to_bits(), &["need_x".to_string()]);
    let root_id = dump.add_root(&["need_x".to_string()], &[]);

    dump.exclude_action(root_id, "no_effect_action", "no effect to satisfy open preconditions");
    dump.exclude_action(root_id, "freed_action", "dependencies invalid (object freed)");

    dump.set_outcome(root_id, NodeOutcome::DeadEnd);
    dump.end_goal(false, &[], 0.0f64.to_bits());

    let output = text(&dump);
    assert!(output.contains("no_effect_action"));
    assert!(output.contains("freed_action"));
}

#[test]
fn forward_validation_steps_attached_to_completing_node() {
    let mut dump = TreeDump::new_forced();
    dump.begin_goal("goal", 10.0f64.to_bits(), &["need_x".to_string()]);
    let root_id = dump.add_root(&["need_x".to_string()], &[]);

    let child_id = dump.add_child(root_id, child("do_x", 3.0, 3.0, &[]));
    dump.add_fwd_step(child_id, "do_x", "dependencies", "valid", true);
    dump.add_fwd_step(child_id, "do_x", "precondition", "1 checks passed", true);
    dump.add_fwd_step(child_id, "do_x", "cost", "3.00", true);
    dump.add_fwd_step(child_id, "GOAL", "goal_check", "all satisfied", true);
    dump.set_outcome(child_id, complete(1, 3.0));

    dump.end_goal(true, &["do_x".to_string()], 3.0f64.to_bits());

    let output = text(&dump);
    assert!(output.contains("FWD [OK]"));
    assert!(output.contains("dependencies"));
    assert!(output.contains("goal_check"));
}

#[test]
fn multiple_goal_attempts() {
    let mut dump = TreeDump::new_forced();

    // First goal fails
    dump.begin_goal("goal_a", 20.0f64.to_bits(), &["pre_a".to_string()]);
    let root_a = dump.add_root(&["pre_a".to_string()], &[]);
    dump.set_outcome(root_a, NodeOutcome::DeadEnd);
    dump.end_goal(false, &[], 0.0f64.to_bits());

    // Second goal succeeds
    dump.begin_goal("goal_b", 10.0f64.to_bits(), &["pre_b".to_string()]);
    let root_b = dump.add_root(&["pre_b".to_string()], &[]);
    let child_b = dump.add_child(root_b, child("do_b", 2.0, 2.0, &[]));
    dump.set_outcome(child_b, complete(1, 2.0));
    dump.end_goal(true, &["do_b".to_string()], 2.0f64.to_bits());

    let output = text(&dump);
    assert!(output.contains("goal_a"));
    assert!(output.contains("FAILURE"));
    assert!(output.contains("goal_b"));
    assert!(output.contains("SUCCESS"));
}

#[test]
fn branches_counted_by_nodes() {
    let mut dump = TreeDump::new_forced();
    dump.begin_goal("goal", 10.0f64.to_bits(), &["need".to_string()]);
    let root_id = dump.add_root(&["need".to_string()], &[]);

    let a = dump.add_child(root_id, child("a", 1.0, 1.0, &[]));
    dump.set_outcome(a, NodeOutcome::DeadEnd);

    let b = dump.add_child(root_id, child("b", 2.0, 2.0, &[]));
    dump.set_outcome(b, NodeOutcome::Pruned { reason: "max depth".to_string() });

    let c = dump.add_child(root_id, child("c", 3.0, 3.0, &[]));
    dump.set_outcome(c, complete(1, 3.0));

    dump.end_goal(true, &["c".to_string()], 3.0f64.to_bits());

    // Root + 3 candidates = 4 branches
    let output = text(&dump);
    assert!(output.contains("Branches: 4"));
}

#[test]
fn format_produces_output() {
    let mut dump = TreeDump::new_forced();
    dump.begin_goal("goal", 10.0f64.to_bits(), &["need_x".to_string()]);
    let root_id = dump.add_root(&["need_x".to_string()], &[]);
    let child_id = dump.add_child(root_id, child("do_x", 3.0, 3.0, &[]));
    dump.set_outcome(child_id, complete(1, 3.0));
    dump.end_goal(true, &["do_x".to_string()], 3.0f64.to_bits());

    let output = text(&dump);
    assert!(output.contains("PLANNER SEARCH TREE"));
    assert!(output.contains("goal"));
    assert!(output.contains("do_x"));
    assert!(output.contains("SUCCESS"));
}

#[test]
fn nested_candidates_build_correct_tree() {
    // Simulate a 2-level search: root → outer_action → inner_action
    let mut dump = TreeDump::new_forced();
    dump.begin_goal("goal", 10.0f64.to_bits(), &["deep_need".to_string()]);
    let root_id = dump.add_root(&["deep_need".to_string()], &[]);

    let inner_need = vec!["inner_need".to_string()];
    let outer_id = dump.add_child(root_id, child("outer_action", 2.0, 2.0, &inner_need));

    let inner_id = dump.add_child(outer_id, child("inner_action", 1.0, 3.0, &[]));
    dump.set_outcome(inner_id, complete(2, 3.0));

    dump.end_goal(true, &["inner_action".to_string(), "outer_action".to_string()], 3.0f64.to_bits());

    let output = text(&dump);
    assert!(output.contains("outer_action"));
    assert!(output.contains("inner_action"));
    assert!(output.contains("SUCCESS"));
}

#[test]
fn tree_text_draws_branches_and_lines_exactly() {
    let mut dump = TreeDump::new_forced();
    dump.begin_goal("goal", 10.0f64.to_bits(), &["need".to_string(), "more".to_string()]);
    let need = vec!["need".to_string()];
    let root = dump.add_root(&need, &[]);
    let a = dump.add_child(root, child("a", 1.0, 1.0, &[]));
    let b = dump.add_child(root, child("b", 2.0, 2.5, &[]));
    let c = dump.add_child(a, child("c", 0.5, 1.5, &[]));
    dump.set_outcome(c, NodeOutcome::Pruned { reason: "max depth".to_string() });
    dump.set_outcome(b, NodeOutcome::DeadEnd);
    dump.exclude_action(b, "x", "freed");
    dump.add_fwd_step(a, "a", "cost", "1.00", false);
    dump.end_goal(true, &["a".to_string(), "b".to_string()], 2.5f64.to_bits());

    let expected = [
        "",
        "========== PLANNER SEARCH TREE ==========",
        "Goal: 'goal' (reward=10.0) pre=[need, more]",
        "└── ROOT",
        "  open_pre=[need] open_req=[]",
        "    ├── Try 'a' (cost=+1.00, total=1.00)",
        "      FWD [FAIL] 'a' cost: 1.00",
        "    │   └── 'c' PRUNED: max depth",
        "    └── DEAD END (no candidates)",
        "      EXCLUDE 'x': freed",
        "  RESULT: SUCCESS — [a → b] cost=2.50",
        "Branches: 4 | Time: 0.0ms",
        "==========================================",
        "",
    ]
    .join("\n");
    assert_eq!(text(&dump), expected);
}

#[test]
fn disabled_or_empty_dump_has_no_text() {
    let dump = TreeDump::new_forced();
    assert_eq!(text(&dump), "");
    let mut disabled = TreeDump::new(&gdplanningai_rust::logger::LogLevelSetting::new());
    assert!(!disabled.is_enabled());
    assert_eq!(disabled.begin_goal("g", 1.0f64.to_bits(), &[]), 0);
    let root = disabled.add_root(&["need".to_string()], &[]);
    assert_eq!(root, 0);
    assert_eq!(disabled.add_child(root, child("a", 1.0, 1.0, &[])), 0);
    assert_eq!(text(&disabled), "");
}

#[test]
fn goal_without_root_shows_no_search() {
    let mut dump = TreeDump::new_forced();
    dump.begin_goal("g", 1.0f64.to_bits(), &[]);
    dump.end_goal(false, &[], 0);
    let out = text(&dump);
    assert!(out.contains("Goal: 'g' (reward=1.0) pre=[]\n  └── (no search)\n  RESULT: FAILURE — no plan found\n"));
    assert!(out.contains("Branches: 0"));
}
