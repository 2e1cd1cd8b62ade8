use gdplanningai_rust::plan_types::GoalSpec;
use gdplanningai_rust::planner::goal_selection::rank_by_reward;
use gdplanningai_rust::planner::goal_selection::{GoalCandidate, HighestRewardFirst};
use gdplanningai_rust::planner::policy::{
    BestWithinBudgetPolicy, BudgetPolicy, ExhaustivePolicy, FirstValidPolicy, TerminationPolicy,
};
use gdplanningai_rust::planner::stats::SearchStats;
use gdplanningai_rust::planner::types::PlanBranch;
use gdplanningai_rust::planner::{AStarHeuristic, DijkstraHeuristic};
use gdplanningai_rust::snapshot::BlackboardSnapshot;

#[test]
fn first_valid_stops_after_a_plan() {
    let policy = FirstValidPolicy::new();
    let mut stats = SearchStats::new();
    assert!(!policy.should_terminate(&stats, 0));
    stats.valid_plans_found = 1;
    assert!(policy.should_terminate(&stats, 0));
}

#[test]
fn exhaustive_never_stops() {
    let policy = ExhaustivePolicy::new();
    let mut stats = SearchStats::new();
    stats.valid_plans_found = 3;
    stats.branches_expanded = 1_000_000;
    assert!(!policy.should_terminate(&stats, u64::MAX));
}

#[test]
fn budget_stops_on_time_or_branches() {
    let policy = BudgetPolicy::new(100, 50);
    let mut stats = SearchStats::new();
    assert!(!policy.should_terminate(&stats, 99));
    assert!(policy.should_terminate(&stats, 100));
    stats.branches_expanded = 50;
    assert!(policy.should_terminate(&stats, 0));
    let unlimited = BudgetPolicy::new(0, 0);
    assert!(!unlimited.should_terminate(&stats, u64::MAX));
}

#[test]
fn best_within_budget_stops_when_budget_is_spent() {
    let policy = BestWithinBudgetPolicy::new(0, 10);
    let mut stats = SearchStats::new();
    stats.valid_plans_found = 2;
    assert!(!policy.should_terminate(&stats, 1_000));
    stats.branches_expanded = 10;
    assert!(policy.should_terminate(&stats, 0));
}

#[test]
fn fresh_stats_start_at_zero_with_infinite_best_cost() {
    let stats = SearchStats::default();
    assert_eq!(stats.branches_expanded, 0);
    assert_eq!(stats.valid_plans_found, 0);
    assert_eq!(f64::from_bits(stats.best_cost), f64::INFINITY);
}

#[test]
fn goals_are_limited_in_ranked_order() {
    let ranked = vec![2, 0, 1];
    let all = HighestRewardFirst::new(0).select_ranked(&ranked);
    assert_eq!(
        all,
        vec![
            GoalCandidate { goal_index: 2, skip_if_satisfied: true },
            GoalCandidate { goal_index: 0, skip_if_satisfied: true },
            GoalCandidate { goal_index: 1, skip_if_satisfied: true },
        ]
    );
    let two = HighestRewardFirst::new(2).select_ranked(&ranked);
    assert_eq!(two.len(), 2);
    assert_eq!(two[1].goal_index, 0);
    assert_eq!(HighestRewardFirst::new(9).select_ranked(&ranked).len(), 3);
    assert!(HighestRewardFirst::new(1).short_circuit_on_first_valid());
}

#[test]
fn heuristics_order_by_path_cost() {
    let snap = BlackboardSnapshot { properties: vec![], objects: vec![] };
    let mut branch = PlanBranch::new(&snap, &snap);
    branch.cost = 7.5f64.to_bits();
    assert_eq!(DijkstraHeuristic.compute_priority(&branch), 7.5f64.to_bits());
    assert_eq!(AStarHeuristic.compute_priority(&branch), 7.5f64.to_bits());
    assert_eq!(DijkstraHeuristic.name(), "Dijkstra");
    assert_eq!(AStarHeuristic.name(), "A* (h=0 placeholder)");
}

#[test]
fn goals_rank_by_reward_highest_first_ties_in_list_order() {
    let rewards: Vec<u64> = [10.0f64, 100.0, 50.0, -3.0, 50.0, -0.0, 0.0, -7.5].iter().map(|r| r.to_bits()).collect();
    assert_eq!(rank_by_reward(&rewards), vec![1, 2, 4, 0, 5, 6, 3, 7]);
    assert!(rank_by_reward(&Vec::new()).is_empty());
}

#[test]
fn multiple_goals_sorted_by_reward() {
    let goals = vec![("low_reward", 10.0f64), ("high_reward", 100.0), ("medium_reward", 50.0)];
    let rewards: Vec<u64> = goals.iter().map(|g| g.1.to_bits()).collect();
    let order = rank_by_reward(&rewards);
    assert_eq!(goals[order[0]].0, "high_reward");
    assert_eq!(goals[order[1]].0, "medium_reward");
    assert_eq!(goals[order[2]].0, "low_reward");
}

#[test]
fn select_goals_takes_highest_rewards_up_to_the_limit() {
    let goal = |name: &str, reward: f64, idx: usize| GoalSpec {
        name: name.to_string(),
        reward_bits: reward.to_bits(),
        desired_state: vec![],
        original_index: idx,
    };
    let goals = vec![goal("low", 10.0, 0), goal("high", 100.0, 1), goal("mid", 50.0, 2), goal("mid2", 50.0, 3)];
    let picked = HighestRewardFirst::new(3).select_goals(&goals);
    let idx: Vec<usize> = picked.iter().map(|c| c.goal_index).collect();
    assert_eq!(idx, vec![1, 2, 3]);
    assert!(picked.iter().all(|c| c.skip_if_satisfied));
    assert_eq!(HighestRewardFirst::new(0).select_goals(&goals).len(), 4);
}
