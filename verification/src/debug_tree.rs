//! Structured debug tree of the planner's search.
//!
//! When the log level is `Debug`, the planner records its backward search as a
//! tree: one attempt per goal, and under each attempt's root the branches it
//! tried. Nodes live in a flat list and are referred to by their index (their
//! id): `add_child` returns the new node's id, `set_outcome`,
//! `exclude_action` and `add_fwd_step` update a node by id. A disabled dump
//! records nothing and answers 0 for every id. Costs and rewards are 64-bit
//! float bit patterns.
use crate::logger::{LogLevel, LogLevelSetting, get_log_level};
use crate::snapshot::string_views;
use vstd::prelude::*;

verus! {

broadcast use vstd::std_specs::vec::group_vec_axioms;

/// One goal the planner tried to satisfy.
#[derive(Clone, Debug)]
pub struct GoalAttempt {
    pub goal_name: String,
    pub goal_reward: u64,
    pub goal_preconditions: Vec<String>,
    pub already_satisfied: bool,
    /// Id of the attempt's root node.
    pub root_id: usize,
    pub success: bool,
    pub plan_actions: Vec<String>,
    pub plan_cost: u64,
}

/// An action that was considered but excluded from the candidates.
#[derive(Clone, Debug)]
pub struct ExcludedAction {
    pub action_name: String,
    pub reason: String,
}

/// What happened at a search node.
#[derive(Clone, Debug)]
pub enum NodeOutcome {
    /// The node was expanded; its children hold the results.
    Expanded,
    /// Pruned before expansion (cost, depth, cancellation).
    Pruned { reason: String },
    /// No candidate could satisfy the open needs.
    DeadEnd,
    /// The branch completed and forward validation ran.
    Complete { chain_len: usize, total_cost: u64, fwd_ok: bool },
}

/// One step of the forward validation of a completed chain.
#[derive(Clone, Debug)]
pub struct FwdStep {
    pub action_name: String,
    pub step: String,
    pub detail: String,
    pub ok: bool,
}

/// A node of the search tree.
#[derive(Clone, Debug)]
pub struct TreeNode {
    /// `None` for the root of a goal attempt.
    pub action_name: Option<String>,
    pub estimated_cost: u64,
    pub accumulated_cost: u64,
    pub open_preconditions: Vec<String>,
    pub open_requirements: Vec<String>,
    pub satisfied_preconditions: Vec<String>,
    pub satisfied_requirements: Vec<String>,
    pub excluded_actions: Vec<ExcludedAction>,
    pub outcome: NodeOutcome,
    pub forward_validation: Vec<FwdStep>,
    /// Ids of the child nodes.
    pub children: Vec<usize>,
}

/// What a [`ChildNodeBuilder`] holds.
pub struct ChildNodeModel {
    pub action_name: Option<Seq<char>>,
    pub estimated_cost: u64,
    pub accumulated_cost: u64,
    pub open_preconditions: Seq<Seq<char>>,
    pub open_requirements: Seq<Seq<char>>,
    pub satisfied_preconditions: Seq<Seq<char>>,
    pub satisfied_requirements: Seq<Seq<char>>,
}

/// Builder of a child node, field by field.
#[derive(Debug)]
pub struct ChildNodeBuilder {
    action_name: Option<String>,
    estimated_cost: u64,
    accumulated_cost: u64,
    open_preconditions: Vec<String>,
    open_requirements: Vec<String>,
    satisfied_preconditions: Vec<String>,
    satisfied_requirements: Vec<String>,
}

impl View for ChildNodeBuilder {
    type V = ChildNodeModel;

    closed spec fn view(&self) -> ChildNodeModel {
        ChildNodeModel {
            action_name: match self.action_name {
                Some(n) => Some(n@),
                None => None,
            },
            estimated_cost: self.estimated_cost,
            accumulated_cost: self.accumulated_cost,
            open_preconditions: string_views(self.open_preconditions@),
            open_requirements: string_views(self.open_requirements@),
            satisfied_preconditions: string_views(self.satisfied_preconditions@),
            satisfied_requirements: string_views(self.satisfied_requirements@),
        }
    }
}

impl ChildNodeBuilder {
    /// A builder with no name, zero costs and empty need lists.
    pub fn new() -> (r: Self)
        ensures
            r@ == (ChildNodeModel {
                action_name: None,
                estimated_cost: 0,
                accumulated_cost: 0,
                open_preconditions: Seq::empty(),
                open_requirements: Seq::empty(),
                satisfied_preconditions: Seq::empty(),
                satisfied_requirements: Seq::empty(),
            }),
    {
        let r = ChildNodeBuilder {
            action_name: None,
            estimated_cost: 0,
            accumulated_cost: 0,
            open_preconditions: Vec::new(),
            open_requirements: Vec::new(),
            satisfied_preconditions: Vec::new(),
            satisfied_requirements: Vec::new(),
        };
        assert(string_views(r.open_preconditions@) =~= Seq::<Seq<char>>::empty());
        assert(string_views(r.open_requirements@) =~= Seq::<Seq<char>>::empty());
        assert(string_views(r.satisfied_preconditions@) =~= Seq::<Seq<char>>::empty());
        assert(string_views(r.satisfied_requirements@) =~= Seq::<Seq<char>>::empty());
        r
    }

    /// Sets the action name.
    pub fn action_name(self, name: String) -> (r: Self)
        ensures
            r@ == (ChildNodeModel { action_name: Some(name@), ..self@ }),
    {
        ChildNodeBuilder { action_name: Some(name), ..self }
    }

    /// Sets the estimated cost (a 64-bit float bit pattern).
    pub fn estimated_cost(self, cost: u64) -> (r: Self)
        ensures
            r@ == (ChildNodeModel { estimated_cost: cost, ..self@ }),
    {
        ChildNodeBuilder { estimated_cost: cost, ..self }
    }

    /// Sets the accumulated cost (a 64-bit float bit pattern).
    pub fn accumulated_cost(self, cost: u64) -> (r: Self)
        ensures
            r@ == (ChildNodeModel { accumulated_cost: cost, ..self@ }),
    {
        ChildNodeBuilder { accumulated_cost: cost, ..self }
    }

    /// Sets the open preconditions.
    pub fn open_preconditions(self, pre: Vec<String>) -> (r: Self)
        ensures
            r@ == (ChildNodeModel { open_preconditions: string_views(pre@), ..self@ }),
    {
        ChildNodeBuilder { open_preconditions: pre, ..self }
    }

    /// Sets the open requirements.
    pub fn open_requirements(self, req: Vec<String>) -> (r: Self)
        ensures
            r@ == (ChildNodeModel { open_requirements: string_views(req@), ..self@ }),
    {
        ChildNodeBuilder { open_requirements: req, ..self }
    }

    /// Sets the satisfied preconditions.
    pub fn satisfied_preconditions(self, pre: Vec<String>) -> (r: Self)
        ensures
            r@ == (ChildNodeModel { satisfied_preconditions: string_views(pre@), ..self@ }),
    {
        ChildNodeBuilder { satisfied_preconditions: pre, ..self }
    }

    /// Sets the satisfied requirements.
    pub fn satisfied_requirements(self, req: Vec<String>) -> (r: Self)
        ensures
            r@ == (ChildNodeModel { satisfied_requirements: string_views(req@), ..self@ }),
    {
        ChildNodeBuilder { satisfied_requirements: req, ..self }
    }

    /// The node the builder describes: no exclusions, no forward validation, no
    /// children, and the outcome `Expanded`.
    pub fn build(self) -> (r: TreeNode)
        ensures
            fresh_node(
                r,
                self@.action_name,
                self@.estimated_cost,
                self@.accumulated_cost,
                self@.open_preconditions,
                self@.open_requirements,
                self@.satisfied_preconditions,
                self@.satisfied_requirements,
            ),
            r.children@.len() == 0,
    {
        TreeNode {
            action_name: self.action_name,
            estimated_cost: self.estimated_cost,
            accumulated_cost: self.accumulated_cost,
            open_preconditions: self.open_preconditions,
            open_requirements: self.open_requirements,
            satisfied_preconditions: self.satisfied_preconditions,
            satisfied_requirements: self.satisfied_requirements,
            excluded_actions: Vec::new(),
            outcome: NodeOutcome::Expanded,
            forward_validation: Vec::new(),
            children: Vec::new(),
        }
    }
}

impl Default for ChildNodeBuilder {
    fn default() -> (r: Self)
        ensures
            r@ == (ChildNodeModel {
                action_name: None,
                estimated_cost: 0,
                accumulated_cost: 0,
                open_preconditions: Seq::empty(),
                open_requirements: Seq::empty(),
                satisfied_preconditions: Seq::empty(),
                satisfied_requirements: Seq::empty(),
            }),
    {
        ChildNodeBuilder::new()
    }
}

/// What a new child node records.
#[derive(Debug)]
pub struct ChildNodeConfig<'a> {
    pub action_name: &'a str,
    pub estimated_cost: u64,
    pub accumulated_cost: u64,
    pub open_pre: &'a [String],
    pub open_req: &'a [String],
    pub satisfied_pre: &'a [String],
    pub satisfied_req: &'a [String],
}

/// A node as first recorded: given name, costs and need lists, no exclusions,
/// no forward validation, and the outcome `Expanded` (its children aside).
pub open spec fn fresh_node(
    n: TreeNode,
    name: Option<Seq<char>>,
    estimated: u64,
    accumulated: u64,
    open_pre: Seq<Seq<char>>,
    open_req: Seq<Seq<char>>,
    sat_pre: Seq<Seq<char>>,
    sat_req: Seq<Seq<char>>,
) -> bool {
    &&& match n.action_name {
        Some(a) => name == Some(a@),
        None => name is None,
    }
    &&& n.estimated_cost == estimated
    &&& n.accumulated_cost == accumulated
    &&& string_views(n.open_preconditions@) == open_pre
    &&& string_views(n.open_requirements@) == open_req
    &&& string_views(n.satisfied_preconditions@) == sat_pre
    &&& string_views(n.satisfied_requirements@) == sat_req
    &&& n.excluded_actions@.len() == 0
    &&& n.outcome is Expanded
    &&& n.forward_validation@.len() == 0
}

/// `b` is `a` with every field but the children unchanged.
pub open spec fn same_except_children(a: TreeNode, b: TreeNode) -> bool {
    &&& a.action_name == b.action_name
    &&& a.estimated_cost == b.estimated_cost
    &&& a.accumulated_cost == b.accumulated_cost
    &&& a.open_preconditions == b.open_preconditions
    &&& a.open_requirements == b.open_requirements
    &&& a.satisfied_preconditions == b.satisfied_preconditions
    &&& a.satisfied_requirements == b.satisfied_requirements
    &&& a.excluded_actions == b.excluded_actions
    &&& a.outcome == b.outcome
    &&& a.forward_validation == b.forward_validation
}

/// Every child id recorded in the nodes names a node.
pub open spec fn child_ids_valid(nodes: Seq<TreeNode>) -> bool {
    forall|i: int, j: int|
        0 <= i < nodes.len() && 0 <= j < nodes[i].children@.len() ==> #[trigger] nodes[i].children@[j] < nodes.len()
}

/// Flat, id-based builder of the search tree.
#[derive(Debug)]
pub struct TreeDump {
    enabled: bool,
    nodes: Vec<TreeNode>,
    goal_attempts: Vec<GoalAttempt>,
}

fn copy_string_slice(s: &[String]) -> (r: Vec<String>)
    ensures
        string_views(r@) == string_views(s@),
{
    let mut out: Vec<String> = Vec::new();
    let mut i: usize = 0;
    while i < s.len()
        invariant
            i <= s@.len(),
            out@.len() == i,
            forall|j: int| 0 <= j < i ==> #[trigger] out@[j]@ == s@[j]@,
        decreases s.len() - i,
    {
        out.push(s[i].clone());
        i = i + 1;
    }
    assert(string_views(out@) =~= string_views(s@));
    out
}

impl TreeDump {
    /// Whether the dump records anything.
    pub closed spec fn enabled(&self) -> bool {
        self.enabled
    }

    /// The nodes, indexed by id.
    pub closed spec fn nodes(&self) -> Seq<TreeNode> {
        self.nodes@
    }

    /// The goal attempts, in the order they began.
    pub closed spec fn goals(&self) -> Seq<GoalAttempt> {
        self.goal_attempts@
    }

    fn with_enabled(enabled: bool) -> (r: Self)
        ensures
            r.enabled() == enabled,
            r.nodes().len() == 0,
            r.goals().len() == 0,
    {
        TreeDump { enabled, nodes: Vec::new(), goal_attempts: Vec::new() }
    }

    /// A dump that records only when the current log level is `Debug`.
    pub fn new(setting: &LogLevelSetting) -> (r: Self)
        ensures
            r.enabled() == (setting.level() == LogLevel::Debug),
            r.nodes().len() == 0,
            r.goals().len() == 0,
    {
        let level = get_log_level(setting);
        TreeDump::with_enabled(level.to_u8() >= 3)
    }

    /// A dump that always records, whatever the log level.
    pub fn new_forced() -> (r: Self)
        ensures
            r.enabled(),
            r.nodes().len() == 0,
            r.goals().len() == 0,
    {
        TreeDump::with_enabled(true)
    }

    /// Returns true if recording is active.
    pub fn is_enabled(&self) -> (r: bool)
        ensures
            r == self.enabled(),
    {
        self.enabled
    }

    /// The recorded nodes, indexed by id.
    pub fn node_list(&self) -> (r: &Vec<TreeNode>)
        ensures
            r@ == self.nodes(),
    {
        &self.nodes
    }

    /// The recorded goal attempts.
    pub fn goal_attempt_list(&self) -> (r: &Vec<GoalAttempt>)
        ensures
            r@ == self.goals(),
    {
        &self.goal_attempts
    }

    /// Starts a new goal attempt and returns its index (0 when disabled). The
    /// attempt has not succeeded yet, has no plan, and its root is node 0 until
    /// `add_root` sets it.
    pub fn begin_goal(&mut self, name: &str, reward: u64, preconditions: &[String]) -> (r: usize)
        ensures
            final(self).enabled() == old(self).enabled(),
            final(self).nodes() == old(self).nodes(),
            !old(self).enabled() ==> r == 0 && final(self).goals() == old(self).goals(),
            old(self).enabled() ==> {
                &&& r == old(self).goals().len()
                &&& final(self).goals().len() == old(self).goals().len() + 1
                &&& final(self).goals().take(r as int) == old(self).goals()
                &&& final(self).goals()[r as int].goal_name@ == name@
                &&& final(self).goals()[r as int].goal_reward == reward
                &&& string_views(final(self).goals()[r as int].goal_preconditions@) == string_views(
                    preconditions@,
                )
                &&& !final(self).goals()[r as int].already_satisfied
                &&& final(self).goals()[r as int].root_id == 0
                &&& !final(self).goals()[r as int].success
                &&& final(self).goals()[r as int].plan_actions@.len() == 0
                &&& final(self).goals()[r as int].plan_cost == 0
            },
    {
        if !self.enabled {
            return 0;
        }
        let idx = self.goal_attempts.len();
        let ghost before = self.goal_attempts@;
        self.goal_attempts.push(
            GoalAttempt {
                goal_name: name.to_owned(),
                goal_reward: reward,
                goal_preconditions: copy_string_slice(preconditions),
                already_satisfied: false,
                root_id: 0,
                success: false,
                plan_actions: Vec::new(),
                plan_cost: 0,
            },
        );
        assert(self.goal_attempts@.take(idx as int) =~= before);
        idx
    }

    /// Marks the current goal attempt as already satisfied (no search needed):
    /// it counts as a success.
    pub fn goal_already_satisfied(&mut self)
        ensures
            final(self).enabled() == old(self).enabled(),
            final(self).nodes() == old(self).nodes(),
            final(self).goals().len() == old(self).goals().len(),
            (!old(self).enabled() || old(self).goals().len() == 0) ==> final(self).goals() == old(self).goals(),
            old(self).enabled() && old(self).goals().len() > 0 ==> {
                let last = old(self).goals().len() - 1;
                &&& final(self).goals().take(last) == old(self).goals().take(last)
                &&& final(self).goals()[last] == (GoalAttempt {
                    already_satisfied: true,
                    success: true,
                    ..old(self).goals()[last]
                })
            },
    {
        if !self.enabled {
            return;
        }
        let n = self.goal_attempts.len();
        if n > 0 {
            let ghost before = self.goal_attempts@;
            self.goal_attempts[n - 1].already_satisfied = true;
            self.goal_attempts[n - 1].success = true;
            assert(self.goal_attempts@.take(n - 1) =~= before.take(n - 1));
        }
    }

    /// Finalises the current goal attempt with its result.
    pub fn end_goal(&mut self, success: bool, plan_actions: &[String], plan_cost: u64)
        ensures
            final(self).enabled() == old(self).enabled(),
            final(self).nodes() == old(self).nodes(),
            final(self).goals().len() == old(self).goals().len(),
            (!old(self).enabled() || old(self).goals().len() == 0) ==> final(self).goals() == old(self).goals(),
            old(self).enabled() && old(self).goals().len() > 0 ==> {
                let last = old(self).goals().len() - 1;
                let g = final(self).goals()[last];
                let o = old(self).goals()[last];
                &&& final(self).goals().take(last) == old(self).goals().take(last)
                &&& g.success == success
                &&& string_views(g.plan_actions@) == string_views(plan_actions@)
                &&& g.plan_cost == plan_cost
                &&& g.goal_name == o.goal_name
                &&& g.goal_reward == o.goal_reward
                &&& g.goal_preconditions == o.goal_preconditions
                &&& g.already_satisfied == o.already_satisfied
                &&& g.root_id == o.root_id
            },
    {
        if !self.enabled {
            return;
        }
        let n = self.goal_attempts.len();
        if n > 0 {
            let ghost before = self.goal_attempts@;
            let actions = copy_string_slice(plan_actions);
            self.goal_attempts[n - 1].success = success;
            self.goal_attempts[n - 1].plan_actions = actions;
            self.goal_attempts[n - 1].plan_cost = plan_cost;
            assert(self.goal_attempts@.take(n - 1) =~= before.take(n - 1));
        }
    }

    /// Creates the root node of the current goal attempt and returns its id
    /// (0 when disabled); the attempt's root becomes that node.
    pub fn add_root(&mut self, open_pre: &[String], open_req: &[String]) -> (r: usize)
        ensures
            child_ids_valid(old(self).nodes()) ==> child_ids_valid(final(self).nodes()),
            final(self).enabled() == old(self).enabled(),
            !old(self).enabled() ==> r == 0 && final(self).nodes() == old(self).nodes() && final(self).goals() == old(self).goals(),
            old(self).enabled() ==> {
                &&& r == old(self).nodes().len()
                &&& final(self).nodes().len() == old(self).nodes().len() + 1
                &&& final(self).nodes().take(r as int) == old(self).nodes()
                &&& fresh_node(
                    final(self).nodes()[r as int],
                    None,
                    0,
                    0,
                    string_views(open_pre@),
                    string_views(open_req@),
                    Seq::empty(),
                    Seq::empty(),
                )
                &&& final(self).nodes()[r as int].children@.len() == 0
                &&& final(self).goals().len() == old(self).goals().len()
                &&& old(self).goals().len() == 0 ==> final(self).goals() == old(self).goals()
                &&& old(self).goals().len() > 0 ==> {
                    let last = old(self).goals().len() - 1;
                    &&& final(self).goals().take(last) == old(self).goals().take(last)
                    &&& final(self).goals()[last] == (GoalAttempt {
                        root_id: r,
                        ..old(self).goals()[last]
                    })
                }
            },
    {
        if !self.enabled {
            return 0;
        }
        let id = self.nodes.len();
        let ghost before = self.nodes@;
        let node = TreeNode {
            action_name: None,
            estimated_cost: 0,
            accumulated_cost: 0,
            open_preconditions: copy_string_slice(open_pre),
            open_requirements: copy_string_slice(open_req),
            satisfied_preconditions: Vec::new(),
            satisfied_requirements: Vec::new(),
            excluded_actions: Vec::new(),
            outcome: NodeOutcome::Expanded,
            forward_validation: Vec::new(),
            children: Vec::new(),
        };
        proof {
            assert(string_views(node.satisfied_preconditions@) =~= Seq::<Seq<char>>::empty());
            assert(string_views(node.satisfied_requirements@) =~= Seq::<Seq<char>>::empty());
        }
        self.nodes.push(node);
        assert(self.nodes@.take(id as int) =~= before);
        let n = self.goal_attempts.len();
        if n > 0 {
            let ghost goals_before = self.goal_attempts@;
            self.goal_attempts[n - 1].root_id = id;
            assert(self.goal_attempts@.take(n - 1) =~= goals_before.take(n - 1));
        }
        id
    }

    /// Adds a child node under `parent_id` and returns the new node's id (0 when
    /// disabled). The child is appended to the parent's children when the parent
    /// id names a node, the new one included.
    pub fn add_child(&mut self, parent_id: usize, config: ChildNodeConfig<'_>) -> (r: usize)
        ensures
            child_ids_valid(old(self).nodes()) ==> child_ids_valid(final(self).nodes()),
            final(self).enabled() == old(self).enabled(),
            final(self).goals() == old(self).goals(),
            !old(self).enabled() ==> r == 0 && final(self).nodes() == old(self).nodes(),
            old(self).enabled() ==> {
                let old_len = old(self).nodes().len();
                &&& r == old_len
                &&& final(self).nodes().len() == old_len + 1
                &&& forall|j: int|
                    0 <= j < old_len && j != parent_id ==> #[trigger] final(self).nodes()[j] == old(self).nodes()[j]
                &&& parent_id < old_len ==> same_except_children(
                    final(self).nodes()[parent_id as int],
                    old(self).nodes()[parent_id as int],
                ) && final(self).nodes()[parent_id as int].children@ == old(self).nodes()[parent_id as int].children@.push(r)
                &&& fresh_node(
                    final(self).nodes()[r as int],
                    Some(config.action_name@),
                    config.estimated_cost,
                    config.accumulated_cost,
                    string_views(config.open_pre@),
                    string_views(config.open_req@),
                    string_views(config.satisfied_pre@),
                    string_views(config.satisfied_req@),
                )
                &&& final(self).nodes()[r as int].children@ == if parent_id == old_len {
                    seq![r]
                } else {
                    Seq::empty()
                }
            },
    {
        if !self.enabled {
            return 0;
        }
        let child_id = self.nodes.len();
        let ghost before = self.nodes@;
        let node = TreeNode {
            action_name: Some(config.action_name.to_owned()),
            estimated_cost: config.estimated_cost,
            accumulated_cost: config.accumulated_cost,
            open_preconditions: copy_string_slice(config.open_pre),
            open_requirements: copy_string_slice(config.open_req),
            satisfied_preconditions: copy_string_slice(config.satisfied_pre),
            satisfied_requirements: copy_string_slice(config.satisfied_req),
            excluded_actions: Vec::new(),
            outcome: NodeOutcome::Expanded,
            forward_validation: Vec::new(),
            children: Vec::new(),
        };
        self.nodes.push(node);
        if parent_id < self.nodes.len() {
            self.nodes[parent_id].children.push(child_id);
        }
        child_id
    }

    /// Sets the outcome of node `node_id`; nothing changes when disabled or when
    /// the id names no node.
    pub fn set_outcome(&mut self, node_id: usize, outcome: NodeOutcome)
        ensures
            child_ids_valid(old(self).nodes()) ==> child_ids_valid(final(self).nodes()),
            final(self).enabled() == old(self).enabled(),
            final(self).goals() == old(self).goals(),
            (!old(self).enabled() || node_id >= old(self).nodes().len()) ==> final(self).nodes() == old(self).nodes(),
            old(self).enabled() && node_id < old(self).nodes().len() ==> final(self).nodes() == old(self).nodes().update(
                node_id as int,
                TreeNode { outcome, ..old(self).nodes()[node_id as int] },
            ),
    {
        if !self.enabled {
            return;
        }
        if node_id < self.nodes.len() {
            let ghost before = self.nodes@;
            self.nodes[node_id].outcome = outcome;
            assert(self.nodes@ =~= before.update(node_id as int, TreeNode { outcome, ..before[node_id as int] }));
        }
    }

    /// Records on node `node_id` an action excluded from the candidates, with the
    /// reason; nothing changes when disabled or when the id names no node.
    pub fn exclude_action(&mut self, node_id: usize, action_name: &str, reason: &str)
        ensures
            child_ids_valid(old(self).nodes()) ==> child_ids_valid(final(self).nodes()),
            final(self).enabled() == old(self).enabled(),
            final(self).goals() == old(self).goals(),
            (!old(self).enabled() || node_id >= old(self).nodes().len()) ==> final(self).nodes() == old(self).nodes(),
            old(self).enabled() && node_id < old(self).nodes().len() ==> {
                let n = final(self).nodes()[node_id as int];
                let o = old(self).nodes()[node_id as int];
                &&& final(self).nodes().len() == old(self).nodes().len()
                &&& forall|j: int|
                    0 <= j < old(self).nodes().len() && j != node_id ==> #[trigger] final(self).nodes()[j] == old(self).nodes()[j]
                &&& n == TreeNode { excluded_actions: n.excluded_actions, ..o }
                &&& n.excluded_actions@.len() == o.excluded_actions@.len() + 1
                &&& n.excluded_actions@.drop_last() == o.excluded_actions@
                &&& n.excluded_actions@.last().action_name@ == action_name@
                &&& n.excluded_actions@.last().reason@ == reason@
            },
    {
        if !self.enabled {
            return;
        }
        if node_id < self.nodes.len() {
            let ghost before = self.nodes@[node_id as int].excluded_actions@;
            self.nodes[node_id].excluded_actions.push(
                ExcludedAction { action_name: action_name.to_owned(), reason: reason.to_owned() },
            );
            assert(self.nodes@[node_id as int].excluded_actions@.drop_last() =~= before);
        }
    }

    /// Appends a forward-validation step to node `node_id`; nothing changes when
    /// disabled or when the id names no node.
    pub fn add_fwd_step(&mut self, node_id: usize, action_name: &str, step: &str, detail: &str, ok: bool)
        ensures
            child_ids_valid(old(self).nodes()) ==> child_ids_valid(final(self).nodes()),
            final(self).enabled() == old(self).enabled(),
            final(self).goals() == old(self).goals(),
            (!old(self).enabled() || node_id >= old(self).nodes().len()) ==> final(self).nodes() == old(self).nodes(),
            old(self).enabled() && node_id < old(self).nodes().len() ==> {
                let n = final(self).nodes()[node_id as int];
                let o = old(self).nodes()[node_id as int];
                &&& final(self).nodes().len() == old(self).nodes().len()
                &&& forall|j: int|
                    0 <= j < old(self).nodes().len() && j != node_id ==> #[trigger] final(self).nodes()[j] == old(self).nodes()[j]
                &&& n == TreeNode { forward_validation: n.forward_validation, ..o }
                &&& n.forward_validation@.len() == o.forward_validation@.len() + 1
                &&& n.forward_validation@.drop_last() == o.forward_validation@
                &&& n.forward_validation@.last().action_name@ == action_name@
                &&& n.forward_validation@.last().step@ == step@
                &&& n.forward_validation@.last().detail@ == detail@
                &&& n.forward_validation@.last().ok == ok
            },
    {
        if !self.enabled {
            return;
        }
        if node_id < self.nodes.len() {
            let ghost before = self.nodes@[node_id as int].forward_validation@;
            self.nodes[node_id].forward_validation.push(
                FwdStep {
                    action_name: action_name.to_owned(),
                    step: step.to_owned(),
                    detail: detail.to_owned(),
                    ok,
                },
            );
            assert(self.nodes@[node_id as int].forward_validation@.drop_last() =~= before);
        }
    }
}

} // verus!
