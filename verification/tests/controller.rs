use gdplanningai_rust::planner::controller::{DFSController, SearchController, SearchNode};
use gdplanningai_rust::planner::types::PlanBranch;
use gdplanningai_rust::snapshot::BlackboardSnapshot;

fn node(depth: usize) -> SearchNode {
    let empty = BlackboardSnapshot { properties: vec![], objects: vec![] };
    SearchNode { branch: PlanBranch::new(&empty, &empty), depth, estimated_remaining: 0.0f64.to_bits() }
}

#[test]
fn depth_first_frontier_pops_last_pushed_first() {
    let mut frontier = DFSController::new();
    assert!(frontier.pop().is_none());
    frontier.push(node(1));
    frontier.push(node(2));
    frontier.push(node(3));
    assert_eq!(frontier.pop().map(|n| n.depth), Some(3));
    frontier.push(node(4));
    assert_eq!(frontier.pop().map(|n| n.depth), Some(4));
    assert_eq!(frontier.pop().map(|n| n.depth), Some(2));
    assert_eq!(frontier.pop().map(|n| n.depth), Some(1));
    assert!(frontier.pop().is_none());
}
