//! Text rendering of the planner's debug search tree.
//!
//! Each goal attempt is printed with its search tree drawn with box-drawing
//! branches, followed by the attempt's result; a footer gives the number of
//! recorded nodes and the search time. Costs and rewards are float bit
//! patterns in the dump, so their display texts come from the caller in a
//! [`DumpNumbers`].
use crate::debug_tree::{ExcludedAction, FwdStep, GoalAttempt, NodeOutcome, TreeDump, TreeNode};
use crate::snapshot::{decimal_text, i64_to_decimal, string_views};
use vstd::prelude::*;
use vstd::string::StringExecFns;

verus! {

broadcast use vstd::std_specs::vec::group_vec_axioms;

/// `parts` separated by `sep`.
pub open spec fn joined(parts: Seq<Seq<char>>, sep: Seq<char>) -> Seq<char>
    decreases parts.len(),
{
    if parts.len() == 0 {
        Seq::empty()
    } else if parts.len() == 1 {
        parts[0]
    } else {
        joined(parts.drop_last(), sep) + sep + parts.last()
    }
}

/// Appends the strings of `parts`, separated by `sep`.
fn append_joined(output: &mut String, parts: &Vec<String>, sep: &str)
    ensures
        final(output)@ == old(output)@ + joined(string_views(parts@), sep@),
{
    let ghost start = output@;
    let ghost views = string_views(parts@);
    let mut i: usize = 0;
    while i < parts.len()
        invariant
            i <= parts@.len(),
            views == string_views(parts@),
            output@ == start + joined(views.take(i as int), sep@),
        decreases parts.len() - i,
    {
        if i > 0 {
            output.append(sep);
        }
        output.append(parts[i].as_str());
        proof {
            let next = views.take(i + 1);
            assert(next.drop_last() =~= views.take(i as int));
            assert(next.last() == parts@[i as int]@);
            if i == 0 {
                assert(output@ =~= start + joined(next, sep@));
            } else {
                assert(output@ =~= start + joined(next, sep@));
            }
        }
        i = i + 1;
    }
    proof {
        assert(views.take(parts@.len() as int) =~= views);
    }
}

/// The indentation drawn for the ancestors' flags `more` (whether a later
/// sibling follows at that level): a bar where one does, blanks where none does.
pub open spec fn indent_text(more: Seq<bool>) -> Seq<char>
    decreases more.len(),
{
    if more.len() == 0 {
        Seq::empty()
    } else {
        indent_text(more.drop_last()) + if more.last() {
            "│   "@
        } else {
            "    "@
        }
    }
}

/// The indentation of a node whose flags are `more` (one per level, the node's
/// own last): the ancestors' columns.
pub open spec fn node_indent(more: Seq<bool>) -> Seq<char> {
    if more.len() == 0 {
        Seq::empty()
    } else {
        indent_text(more.drop_last())
    }
}

/// What precedes a node's first line: its indentation, then a tee when a later
/// sibling follows and a corner when none does.
pub open spec fn node_prefix(more: Seq<bool>) -> Seq<char> {
    if more.len() == 0 {
        Seq::empty()
    } else {
        indent_text(more.drop_last()) + if more.last() {
            "├── "@
        } else {
            "└── "@
        }
    }
}

/// A line listing two need lists, or nothing when both are empty.
pub open spec fn needs_line(
    indent: Seq<char>,
    first_label: Seq<char>,
    first: Seq<Seq<char>>,
    second_label: Seq<char>,
    second: Seq<Seq<char>>,
) -> Seq<char> {
    if first.len() == 0 && second.len() == 0 {
        Seq::empty()
    } else {
        indent + first_label + joined(first, ", "@) + second_label + joined(second, ", "@) + "]\n"@
    }
}

/// The first line of a node, and for a node that was tried its need lines.
/// `est` and `acc` are the texts of its estimated and accumulated costs.
pub open spec fn outcome_text(node: TreeNode, est: Seq<char>, acc: Seq<char>, more: Seq<bool>) -> Seq<char> {
    let prefix = node_prefix(more);
    let indent = node_indent(more);
    match node.outcome {
        NodeOutcome::Pruned { reason } => prefix + "'"@ + match node.action_name {
            Some(n) => n@,
            None => "?"@,
        } + "' PRUNED: "@ + reason@ + "\n"@,
        NodeOutcome::DeadEnd => prefix + "DEAD END (no candidates)\n"@,
        _ => prefix + match node.action_name {
            Some(n) => "Try '"@ + n@ + "' (cost=+"@ + est + ", total="@ + acc + ")"@,
            None => "ROOT"@,
        } + "\n"@ + needs_line(
            indent,
            "  satisfies_pre=["@,
            string_views(node.satisfied_preconditions@),
            "] satisfies_req=["@,
            string_views(node.satisfied_requirements@),
        ) + needs_line(
            indent,
            "  open_pre=["@,
            string_views(node.open_preconditions@),
            "] open_req=["@,
            string_views(node.open_requirements@),
        ),
    }
}

/// One line per excluded action.
pub open spec fn excluded_text(indent: Seq<char>, excluded: Seq<ExcludedAction>) -> Seq<char>
    decreases excluded.len(),
{
    if excluded.len() == 0 {
        Seq::empty()
    } else {
        excluded_text(indent, excluded.drop_last()) + indent + "  EXCLUDE '"@ + excluded.last().action_name@
            + "': "@ + excluded.last().reason@ + "\n"@
    }
}

/// One line per forward-validation step.
pub open spec fn fwd_text(indent: Seq<char>, steps: Seq<FwdStep>) -> Seq<char>
    decreases steps.len(),
{
    if steps.len() == 0 {
        Seq::empty()
    } else {
        let s = steps.last();
        fwd_text(indent, steps.drop_last()) + indent + "  FWD ["@ + if s.ok {
            "OK"@
        } else {
            "FAIL"@
        } + "] '"@ + s.action_name@ + "' "@ + s.step@ + ": "@ + s.detail@ + "\n"@
    }
}

/// Everything printed for a node before its children.
pub open spec fn head_text(node: TreeNode, est: Seq<char>, acc: Seq<char>, more: Seq<bool>) -> Seq<char> {
    outcome_text(node, est, acc, more) + excluded_text(node_indent(more), node.excluded_actions@) + fwd_text(
        node_indent(more),
        node.forward_validation@,
    )
}

/// Appends the ancestors' columns for the flags `more[0..count]`.
fn append_indent(output: &mut String, more: &Vec<bool>, count: usize)
    requires
        count <= more@.len(),
    ensures
        final(output)@ == old(output)@ + indent_text(more@.take(count as int)),
{
    let ghost start = output@;
    let mut d: usize = 0;
    while d < count
        invariant
            d <= count <= more@.len(),
            output@ == start + indent_text(more@.take(d as int)),
        decreases count - d,
    {
        if more[d] {
            output.append("│   ");
        } else {
            output.append("    ");
        }
        proof {
            assert(more@.take(d + 1).drop_last() =~= more@.take(d as int));
            assert(output@ =~= start + indent_text(more@.take(d + 1)));
        }
        d = d + 1;
    }
}

/// Appends a need line (see `needs_line`).
fn append_needs_line(output: &mut String, indent: &String, first_label: &str, first: &Vec<String>, second_label: &str, second: &Vec<String>)
    ensures
        final(output)@ == old(output)@ + needs_line(
            indent@,
            first_label@,
            string_views(first@),
            second_label@,
            string_views(second@),
        ),
{
    if first.len() == 0 && second.len() == 0 {
        assert(output@ =~= old(output)@ + Seq::<char>::empty());
        return;
    }
    let ghost start = output@;
    output.append(indent.as_str());
    output.append(first_label);
    append_joined(output, first, ", ");
    output.append(second_label);
    append_joined(output, second, ", ");
    output.append("]\n");
    assert(output@ =~= start + needs_line(
        indent@,
        first_label@,
        string_views(first@),
        second_label@,
        string_views(second@),
    ));
}

/// Appends the first line of `node` and, for a tried node, its need lines.
fn append_outcome(output: &mut String, node: &TreeNode, est: &String, acc: &String, indent: &String, prefix: &String)
    ensures
        final(output)@ == old(output)@ + (match node.outcome {
            NodeOutcome::Pruned { reason } => prefix@ + "'"@ + match node.action_name {
                Some(n) => n@,
                None => "?"@,
            } + "' PRUNED: "@ + reason@ + "\n"@,
            NodeOutcome::DeadEnd => prefix@ + "DEAD END (no candidates)\n"@,
            _ => prefix@ + match node.action_name {
                Some(n) => "Try '"@ + n@ + "' (cost=+"@ + est@ + ", total="@ + acc@ + ")"@,
                None => "ROOT"@,
            } + "\n"@ + needs_line(
                indent@,
                "  satisfies_pre=["@,
                string_views(node.satisfied_preconditions@),
                "] satisfies_req=["@,
                string_views(node.satisfied_requirements@),
            ) + needs_line(
                indent@,
                "  open_pre=["@,
                string_views(node.open_preconditions@),
                "] open_req=["@,
                string_views(node.open_requirements@),
            ),
        }),
{
    let ghost start = output@;
    match &node.outcome {
        NodeOutcome::Pruned { reason } => {
            output.append(prefix.as_str());
            output.append("'");
            match &node.action_name {
                Some(n) => output.append(n.as_str()),
                None => output.append("?"),
            }
            output.append("' PRUNED: ");
            output.append(reason.as_str());
            output.append("\n");
            assert(output@ =~= start + (prefix@ + "'"@ + match node.action_name {
                Some(n) => n@,
                None => "?"@,
            } + "' PRUNED: "@ + reason@ + "\n"@));
        },
        NodeOutcome::DeadEnd => {
            output.append(prefix.as_str());
            output.append("DEAD END (no candidates)\n");
        },
        _ => {
            output.append(prefix.as_str());
            match &node.action_name {
                Some(n) => {
                    output.append("Try '");
                    output.append(n.as_str());
                    output.append("' (cost=+");
                    output.append(est.as_str());
                    output.append(", total=");
                    output.append(acc.as_str());
                    output.append(")");
                },
                None => output.append("ROOT"),
            }
            output.append("\n");
            let ghost mid = output@;
            append_needs_line(
                output,
                indent,
                "  satisfies_pre=[",
                &node.satisfied_preconditions,
                "] satisfies_req=[",
                &node.satisfied_requirements,
            );
            append_needs_line(
                output,
                indent,
                "  open_pre=[",
                &node.open_preconditions,
                "] open_req=[",
                &node.open_requirements,
            );
            assert(mid =~= start + (prefix@ + match node.action_name {
                Some(n) => "Try '"@ + n@ + "' (cost=+"@ + est@ + ", total="@ + acc@ + ")"@,
                None => "ROOT"@,
            } + "\n"@));
            assert(output@ =~= start + (prefix@ + match node.action_name {
                Some(n) => "Try '"@ + n@ + "' (cost=+"@ + est@ + ", total="@ + acc@ + ")"@,
                None => "ROOT"@,
            } + "\n"@ + needs_line(
                indent@,
                "  satisfies_pre=["@,
                string_views(node.satisfied_preconditions@),
                "] satisfies_req=["@,
                string_views(node.satisfied_requirements@),
            ) + needs_line(
                indent@,
                "  open_pre=["@,
                string_views(node.open_preconditions@),
                "] open_req=["@,
                string_views(node.open_requirements@),
            )));
        },
    }
}

/// Appends one line per excluded action.
fn append_excluded(output: &mut String, indent: &String, excluded: &Vec<ExcludedAction>)
    ensures
        final(output)@ == old(output)@ + excluded_text(indent@, excluded@),
{
    let ghost start = output@;
    let mut i: usize = 0;
    while i < excluded.len()
        invariant
            i <= excluded@.len(),
            output@ == start + excluded_text(indent@, excluded@.take(i as int)),
        decreases excluded.len() - i,
    {
        let ex = &excluded[i];
        output.append(indent.as_str());
        output.append("  EXCLUDE '");
        output.append(ex.action_name.as_str());
        output.append("': ");
        output.append(ex.reason.as_str());
        output.append("\n");
        proof {
            let next = excluded@.take(i + 1);
            assert(next.drop_last() =~= excluded@.take(i as int));
            assert(output@ =~= start + excluded_text(indent@, next));
        }
        i = i + 1;
    }
    assert(excluded@.take(excluded@.len() as int) =~= excluded@);
}

/// Appends one line per forward-validation step.
fn append_fwd(output: &mut String, indent: &String, steps: &Vec<FwdStep>)
    ensures
        final(output)@ == old(output)@ + fwd_text(indent@, steps@),
{
    let ghost start = output@;
    let mut k: usize = 0;
    while k < steps.len()
        invariant
            k <= steps@.len(),
            output@ == start + fwd_text(indent@, steps@.take(k as int)),
        decreases steps.len() - k,
    {
        let st = &steps[k];
        output.append(indent.as_str());
        output.append("  FWD [");
        if st.ok {
            output.append("OK");
        } else {
            output.append("FAIL");
        }
        output.append("] '");
        output.append(st.action_name.as_str());
        output.append("' ");
        output.append(st.step.as_str());
        output.append(": ");
        output.append(st.detail.as_str());
        output.append("\n");
        proof {
            let next = steps@.take(k + 1);
            assert(next.drop_last() =~= steps@.take(k as int));
            assert(output@ =~= start + fwd_text(indent@, next));
        }
        k = k + 1;
    }
    assert(steps@.take(steps@.len() as int) =~= steps@);
}

/// Appends what is printed for `node` before its children; the node sits at
/// `depth` with the flags `more[0..depth]`.
fn append_head(output: &mut String, node: &TreeNode, est: &String, acc: &String, more: &Vec<bool>, depth: usize)
    requires
        1 <= depth <= more@.len(),
    ensures
        final(output)@ == old(output)@ + head_text(*node, est@, acc@, more@.take(depth as int)),
{
    let ghost flags = more@.take(depth as int);
    proof {
        assert(flags.drop_last() =~= more@.take(depth - 1));
    }
    let ghost start = output@;
    let mut indent = String::new();
    append_indent(&mut indent, more, depth - 1);
    assert(indent@ =~= node_indent(flags));
    let mut prefix = indent.clone();
    if more[depth - 1] {
        prefix.append("├── ");
    } else {
        prefix.append("└── ");
    }
    assert(prefix@ =~= node_prefix(flags));
    append_outcome(output, node, est, acc, &indent, &prefix);
    let ghost mid = output@;
    assert(mid =~= start + outcome_text(*node, est@, acc@, flags));
    append_excluded(output, &indent, &node.excluded_actions);
    append_fwd(output, &indent, &node.forward_validation);
    assert(output@ =~= start + head_text(*node, est@, acc@, flags));
}

/// The text of node `id` and, below it, of its children, drawn with the flags
/// `more` (one per level, the node's own last). A child is drawn when it names
/// a node recorded after its parent. `costs[i]` holds the texts of node `i`'s
/// estimated and accumulated costs.
pub open spec fn node_text(nodes: Seq<TreeNode>, costs: Seq<(String, String)>, id: int, more: Seq<bool>) -> Seq<char>
    decreases nodes.len() - id, 1int, 0int,
{
    if 0 <= id < nodes.len() {
        head_text(nodes[id], costs[id].0@, costs[id].1@, more) + children_text(
            nodes,
            costs,
            id,
            more,
            nodes[id].children@.len() as int,
        )
    } else {
        Seq::empty()
    }
}

/// The text of the first `k` children of node `id`; child `j` is drawn with the
/// flag telling whether a later sibling follows.
pub open spec fn children_text(
    nodes: Seq<TreeNode>,
    costs: Seq<(String, String)>,
    id: int,
    more: Seq<bool>,
    k: int,
) -> Seq<char>
    decreases nodes.len() - id, 0int, k,
{
    if 0 <= id < nodes.len() && 0 < k <= nodes[id].children@.len() {
        let c = nodes[id].children@[k - 1];
        children_text(nodes, costs, id, more, k - 1) + if id < c < nodes.len() {
            node_text(nodes, costs, c as int, more.push(k < nodes[id].children@.len()))
        } else {
            Seq::empty()
        }
    } else {
        Seq::empty()
    }
}

/// Appends the text of node `id` and its subtree, drawn at `depth` with the
/// flags `more[0..depth]`; the flags below `depth` are left as they were.
fn append_node(
    output: &mut String,
    nodes: &Vec<TreeNode>,
    costs: &Vec<(String, String)>,
    id: usize,
    depth: usize,
    more: &mut Vec<bool>,
)
    requires
        id < nodes@.len(),
        costs@.len() == nodes@.len(),
        1 <= depth <= old(more)@.len(),
        depth <= id + 1,
    ensures
        final(output)@ == old(output)@ + node_text(nodes@, costs@, id as int, old(more)@.take(depth as int)),
        final(more)@.len() >= old(more)@.len(),
        final(more)@.take(depth as int) == old(more)@.take(depth as int),
    decreases nodes@.len() - id,
{
    let ghost flags = more@.take(depth as int);
    let ghost orig_len = more@.len();
    let ghost start = output@;
    let node = &nodes[id];
    append_head(output, node, &costs[id].0, &costs[id].1, more, depth);
    let ghost mid = output@;
    let n = node.children.len();
    if more.len() == depth {
        more.push(false);
    }
    assert(more@.take(depth as int) =~= flags);
    let mut i: usize = 0;
    while i < n
        invariant
            n == nodes@[id as int].children@.len(),
            node == nodes@[id as int],
            id < nodes@.len(),
            costs@.len() == nodes@.len(),
            1 <= depth <= id + 1,
            i <= n,
            more@.len() > depth,
            more@.len() >= orig_len,
            more@.take(depth as int) == flags,
            output@ == mid + children_text(nodes@, costs@, id as int, flags, i as int),
        decreases n - i,
    {
        let c = node.children[i];
        more.set(depth, i + 1 < n);
        let ghost child_flags = flags.push(i + 1 < n);
        assert(more@.take(depth + 1) =~= child_flags);
        let ghost before = output@;
        if id < c && c < nodes.len() {
            append_node(output, nodes, costs, c, depth + 1, more);
        }
        proof {
            assert(more@.take(depth as int) =~= more@.take(depth + 1).take(depth as int));
            assert(child_flags.take(depth as int) =~= flags);
            assert(output@ =~= mid + children_text(nodes@, costs@, id as int, flags, i + 1));
        }
        i = i + 1;
    }
    assert(output@ =~= start + node_text(nodes@, costs@, id as int, flags));
}

/// Display texts of the numbers a dump holds as float bit patterns.
#[derive(Clone, Debug)]
pub struct DumpNumbers {
    /// Per node id: its estimated and its accumulated cost, with two decimals.
    pub node_costs: Vec<(String, String)>,
    /// Per goal attempt: its reward with one decimal and its plan cost with two.
    pub goal_numbers: Vec<(String, String)>,
    /// The search time in milliseconds, with one decimal.
    pub elapsed_ms: String,
}

/// The result line of a goal attempt; `plan_cost` is the text of its plan cost.
pub open spec fn result_text(ga: GoalAttempt, plan_cost: Seq<char>) -> Seq<char> {
    let status = if ga.success {
        "SUCCESS"@
    } else {
        "FAILURE"@
    };
    if ga.success && ga.plan_actions@.len() > 0 {
        "  RESULT: "@ + status + " — ["@ + joined(string_views(ga.plan_actions@), " → "@) + "] cost="@ + plan_cost
            + "\n"@
    } else if ga.success {
        "  RESULT: "@ + status + " — (empty plan)\n"@
    } else {
        "  RESULT: "@ + status + " — no plan found\n"@
    }
}

/// The text of a goal attempt: its header line, its search tree drawn from its
/// root, and its result line. `numbers` holds the texts of its reward and plan
/// cost.
pub open spec fn goal_text(
    ga: GoalAttempt,
    numbers: (String, String),
    nodes: Seq<TreeNode>,
    costs: Seq<(String, String)>,
) -> Seq<char> {
    "Goal: '"@ + ga.goal_name@ + "' (reward="@ + numbers.0@ + ") pre=["@ + joined(
        string_views(ga.goal_preconditions@),
        ", "@,
    ) + "]\n"@ + if ga.already_satisfied {
        "  └── ALREADY SATISFIED\n"@
    } else if ga.root_id < nodes.len() {
        node_text(nodes, costs, ga.root_id as int, seq![false])
    } else {
        "  └── (no search)\n"@
    } + result_text(ga, numbers.1@)
}

/// The texts of the first `k` goal attempts, in order.
pub open spec fn goals_text(
    goals: Seq<GoalAttempt>,
    goal_numbers: Seq<(String, String)>,
    nodes: Seq<TreeNode>,
    costs: Seq<(String, String)>,
    k: int,
) -> Seq<char>
    decreases k,
{
    if k <= 0 {
        Seq::empty()
    } else {
        goals_text(goals, goal_numbers, nodes, costs, k - 1) + goal_text(goals[k - 1], goal_numbers[k - 1], nodes, costs)
    }
}

/// The whole text of a dump: empty when it is disabled or recorded no goal
/// attempt; else a header, every goal attempt in order, and a footer with the
/// number of recorded nodes and the search time.
pub open spec fn dump_text(enabled: bool, nodes: Seq<TreeNode>, goals: Seq<GoalAttempt>, numbers: DumpNumbers) -> Seq<char> {
    if !enabled || goals.len() == 0 {
        Seq::empty()
    } else {
        "\n========== PLANNER SEARCH TREE ==========\n"@ + goals_text(
            goals,
            numbers.goal_numbers@,
            nodes,
            numbers.node_costs@,
            goals.len() as int,
        ) + "Branches: "@ + decimal_text(nodes.len() as int) + " | Time: "@ + numbers.elapsed_ms@ + "ms\n"@
            + "==========================================\n"@
    }
}

/// Appends the text of one goal attempt.
fn append_goal(
    output: &mut String,
    ga: &GoalAttempt,
    numbers: &(String, String),
    nodes: &Vec<TreeNode>,
    costs: &Vec<(String, String)>,
)
    requires
        costs@.len() == nodes@.len(),
    ensures
        final(output)@ == old(output)@ + goal_text(*ga, *numbers, nodes@, costs@),
{
    let ghost start = output@;
    output.append("Goal: '");
    output.append(ga.goal_name.as_str());
    output.append("' (reward=");
    output.append(numbers.0.as_str());
    output.append(") pre=[");
    append_joined(output, &ga.goal_preconditions, ", ");
    output.append("]\n");
    let ghost header = output@;
    assert(header =~= start + ("Goal: '"@ + ga.goal_name@ + "' (reward="@ + numbers.0@ + ") pre=["@ + joined(
        string_views(ga.goal_preconditions@),
        ", "@,
    ) + "]\n"@));
    if ga.already_satisfied {
        output.append("  └── ALREADY SATISFIED\n");
    } else if ga.root_id < nodes.len() {
        let mut more: Vec<bool> = Vec::new();
        more.push(false);
        assert(more@.take(1) =~= seq![false]);
        append_node(output, nodes, costs, ga.root_id, 1, &mut more);
    } else {
        output.append("  └── (no search)\n");
    }
    let ghost tree = output@;
    assert(tree =~= header + if ga.already_satisfied {
        "  └── ALREADY SATISFIED\n"@
    } else if ga.root_id < nodes@.len() {
        node_text(nodes@, costs@, ga.root_id as int, seq![false])
    } else {
        "  └── (no search)\n"@
    });
    append_result(output, ga, &numbers.1);
    assert(output@ =~= start + goal_text(*ga, *numbers, nodes@, costs@));
}

/// Appends the result line of a goal attempt.
fn append_result(output: &mut String, ga: &GoalAttempt, plan_cost: &String)
    ensures
        final(output)@ == old(output)@ + result_text(*ga, plan_cost@),
{
    let ghost start = output@;
    output.append("  RESULT: ");
    if ga.success {
        output.append("SUCCESS");
    } else {
        output.append("FAILURE");
    }
    if ga.success && ga.plan_actions.len() > 0 {
        output.append(" — [");
        append_joined(output, &ga.plan_actions, " → ");
        output.append("] cost=");
        output.append(plan_cost.as_str());
        output.append("\n");
    } else if ga.success {
        output.append(" — (empty plan)\n");
    } else {
        output.append(" — no plan found\n");
    }
    assert(output@ =~= start + result_text(*ga, plan_cost@));
}

impl TreeDump {
    /// The text of the dump (see `dump_text`), with the number texts in
    /// `numbers`.
    pub fn format(&self, numbers: &DumpNumbers) -> (r: String)
        requires
            numbers.node_costs@.len() == self.nodes().len(),
            numbers.goal_numbers@.len() == self.goals().len(),
            self.nodes().len() <= i64::MAX,
        ensures
            r@ == dump_text(self.enabled(), self.nodes(), self.goals(), *numbers),
    {
        let nodes = self.node_list();
        let goals = self.goal_attempt_list();
        if !self.is_enabled() || goals.len() == 0 {
            return String::new();
        }
        let mut output = String::new();
        output.append("\n========== PLANNER SEARCH TREE ==========\n");
        let ghost header = output@;
        let mut g: usize = 0;
        while g < goals.len()
            invariant
                g <= goals@.len(),
                goals@ == self.goals(),
                nodes@ == self.nodes(),
                numbers.node_costs@.len() == nodes@.len(),
                numbers.goal_numbers@.len() == goals@.len(),
                output@ == header + goals_text(
                    goals@,
                    numbers.goal_numbers@,
                    nodes@,
                    numbers.node_costs@,
                    g as int,
                ),
            decreases goals.len() - g,
        {
            append_goal(&mut output, &goals[g], &numbers.goal_numbers[g], nodes, &numbers.node_costs);
            proof {
                assert(output@ =~= header + goals_text(
                    goals@,
                    numbers.goal_numbers@,
                    nodes@,
                    numbers.node_costs@,
                    g + 1,
                ));
            }
            g = g + 1;
        }
        output.append("Branches: ");
        let count = i64_to_decimal(nodes.len() as i64);
        output.append(count.as_str());
        output.append(" | Time: ");
        output.append(numbers.elapsed_ms.as_str());
        output.append("ms\n");
        output.append("==========================================\n");
        assert(output@ =~= dump_text(self.enabled(), self.nodes(), self.goals(), *numbers));
        output
    }
}

/// A disabled dump has no text, whatever was recorded into it (its recording
/// methods leave it empty) and whatever the number texts.
pub proof fn lemma_disabled_dump_has_no_text(dump: TreeDump, numbers: DumpNumbers)
    requires
        !dump.enabled(),
    ensures
        dump_text(dump.enabled(), dump.nodes(), dump.goals(), numbers) == Seq::<char>::empty(),
{
}

} // verus!
