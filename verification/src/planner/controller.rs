//! Search algorithm configuration and the depth-first search frontier.
use crate::planner::types::PlanBranch;
use vstd::prelude::*;

verus! {

/// A branch waiting in a search frontier.
#[derive(Debug)]
pub struct SearchNode {
    pub branch: PlanBranch,
    pub depth: usize,
    /// Estimated cost still to go, as a float bit pattern.
    pub estimated_remaining: u64,
}

/// A frontier of search nodes, so that search orders can be swapped.
pub trait SearchController {
    fn push(&mut self, node: SearchNode);

    fn pop(&mut self) -> Option<SearchNode>;
}

/// Order in which open branches are expanded.
#[derive(Debug, Clone, Copy, PartialEq, Eq, Structural)]
pub enum SearchAlgorithm {
    DepthFirst,
    Dijkstra,
    AStar,
}

/// When a controller-driven search stops.
#[derive(Debug, Clone, Copy, PartialEq, Eq, Structural)]
pub enum TerminationStrategy {
    /// Return the first valid plan found (depth-first style).
    FirstComplete,
    /// Continue searching for the optimal plan.
    BestCost,
}

/// `after` and `r` are what popping the stack `before` leaves and returns:
/// nothing from an empty stack, else its top node and the rest.
pub open spec fn stack_pop(before: Seq<SearchNode>, after: Seq<SearchNode>, r: Option<SearchNode>) -> bool {
    if before.len() == 0 {
        r is None && after == before
    } else {
        r == Some(before.last()) && after == before.drop_last()
    }
}

/// Depth-first frontier: a stack, the last node pushed is the first popped.
#[derive(Debug)]
pub struct DFSController {
    stack: Vec<SearchNode>,
}

impl DFSController {
    /// The waiting nodes, the next to pop last.
    pub closed spec fn nodes(&self) -> Seq<SearchNode> {
        self.stack@
    }

    /// An empty frontier.
    pub fn new() -> (r: Self)
        ensures
            r.nodes() == Seq::<SearchNode>::empty(),
    {
        DFSController { stack: Vec::new() }
    }
}

impl SearchController for DFSController {
    /// Pushes `node` on top of the stack.
    fn push(&mut self, node: SearchNode)
        ensures
            final(self).nodes() == old(self).nodes().push(node),
    {
        self.stack.push(node);
    }

    /// Takes the node pushed last, or `None` when the frontier is empty.
    fn pop(&mut self) -> (r: Option<SearchNode>)
        ensures
            stack_pop(old(self).nodes(), final(self).nodes(), r),
    {
        self.stack.pop()
    }
}

/// Popping right after a push hands back the pushed node and leaves the
/// frontier as it was before the push.
pub proof fn lemma_pop_undoes_push(
    before: DFSController,
    pushed: DFSController,
    popped: DFSController,
    node: SearchNode,
    r: Option<SearchNode>,
)
    requires
        pushed.nodes() == before.nodes().push(node),
        stack_pop(pushed.nodes(), popped.nodes(), r),
    ensures
        r == Some(node),
        popped.nodes() == before.nodes(),
{
    assert(before.nodes().push(node).drop_last() =~= before.nodes());
}

} // verus!
