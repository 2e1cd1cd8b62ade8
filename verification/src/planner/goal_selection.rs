//! Goal ordering: which goals a search tries, and in which order.
use crate::plan_types::GoalSpec;
use crate::snapshot::{float_key, float_key_of};
use vstd::prelude::*;

verus! {

broadcast use vstd::std_specs::vec::group_vec_axioms;

/// A goal to search for, by its index in the goal list.
#[derive(Debug, Clone, Copy, PartialEq, Eq, Structural)]
pub struct GoalCandidate {
    pub goal_index: usize,
    pub skip_if_satisfied: bool,
}

/// Tries goals from the highest reward down, at most `max_goals` of them
/// (0 means all), and stops at the first goal that yields a plan.
#[derive(Debug, Clone, Copy)]
pub struct HighestRewardFirst {
    max_goals: usize,
}

/// How many goals are tried out of `count`: all when the limit is 0, else at
/// most the limit.
pub open spec fn goal_limit(max_goals: usize, count: nat) -> nat {
    if max_goals == 0 {
        count
    } else if max_goals < count {
        max_goals as nat
    } else {
        count
    }
}

impl HighestRewardFirst {
    pub closed spec fn max_goals(&self) -> usize {
        self.max_goals
    }

    /// A selection trying at most `max_goals` goals (0 for all).
    pub fn new(max_goals: usize) -> (r: Self)
        ensures
            r.max_goals() == max_goals,
    {
        HighestRewardFirst { max_goals }
    }

    /// The search stops at the first goal that yields a valid plan.
    pub fn short_circuit_on_first_valid(&self) -> (r: bool)
        ensures
            r,
    {
        true
    }

    /// The goals to try, given the goal indices ordered by reward from highest
    /// to lowest: the first `goal_limit` of them, in that order, each skipped
    /// when already satisfied.
    pub fn select_ranked(&self, ranked: &Vec<usize>) -> (r: Vec<GoalCandidate>)
        ensures
            r@.len() == goal_limit(self.max_goals(), ranked@.len()),
            forall|i: int|
                0 <= i < r@.len() ==> #[trigger] r@[i] == (GoalCandidate {
                    goal_index: ranked@[i],
                    skip_if_satisfied: true,
                }),
    {
        let limit = if self.max_goals == 0 || self.max_goals > ranked.len() {
            ranked.len()
        } else {
            self.max_goals
        };
        let mut out: Vec<GoalCandidate> = Vec::new();
        let mut i: usize = 0;
        while i < limit
            invariant
                limit <= ranked.len(),
                limit == goal_limit(self.max_goals(), ranked@.len()),
                i <= limit,
                out@.len() == i,
                forall|j: int|
                    0 <= j < i ==> #[trigger] out@[j] == (GoalCandidate {
                        goal_index: ranked@[j],
                        skip_if_satisfied: true,
                    }),
            decreases limit - i,
        {
            out.push(GoalCandidate { goal_index: ranked[i], skip_if_satisfied: true });
            i = i + 1;
        }
        out
    }
}

/// The position of a float reward in reward order, as an unsigned key: larger
/// numbers get larger keys, negative numbers (sign bit set) ordered by their
/// magnitude reversed below the non-negative ones, and `-0.0` equal to `+0.0`.
pub open spec fn reward_key(bits: u64) -> u64 {
    let k = float_key(bits);
    if k >= 0x8000_0000_0000_0000u64 {
        (0xFFFF_FFFF_FFFF_FFFFu64 - k) as u64
    } else {
        (k + 0x8000_0000_0000_0000u64) as u64
    }
}

/// Goal `a` comes before goal `b`: its reward is higher, or the rewards are
/// equal and `a` comes first in the goal list.
pub open spec fn ranked_before(rewards: Seq<u64>, a: usize, b: usize) -> bool {
    reward_key(rewards[a as int]) > reward_key(rewards[b as int]) || (reward_key(rewards[a as int])
        == reward_key(rewards[b as int]) && a < b)
}

/// `r` lists every goal index of `rewards` once, from the highest reward down,
/// goals with equal rewards in list order.
pub open spec fn is_reward_ranking(rewards: Seq<u64>, r: Seq<usize>) -> bool {
    &&& r.len() == rewards.len()
    &&& forall|i: int| 0 <= i < r.len() ==> #[trigger] r[i] < rewards.len()
    &&& forall|g: usize| g < rewards.len() ==> #[trigger] r.contains(g)
    &&& forall|i: int, j: int| 0 <= i < j < r.len() ==> ranked_before(rewards, #[trigger] r[i], #[trigger] r[j])
}

pub(crate) fn reward_key_of(bits: u64) -> (r: u64)
    ensures
        r == reward_key(bits),
{
    let k = float_key_of(bits);
    if k >= 0x8000_0000_0000_0000u64 {
        0xFFFF_FFFF_FFFF_FFFFu64 - k
    } else {
        k + 0x8000_0000_0000_0000u64
    }
}

/// Goal indices ordered by reward (float bit patterns), highest first; goals
/// with equal rewards keep their list order.
pub fn rank_by_reward(rewards: &Vec<u64>) -> (r: Vec<usize>)
    ensures
        is_reward_ranking(rewards@, r@),
{
    let mut out: Vec<usize> = Vec::new();
    let mut idx: usize = 0;
    while idx < rewards.len()
        invariant
            idx <= rewards@.len(),
            out@.len() == idx,
            forall|i: int| 0 <= i < out@.len() ==> #[trigger] out@[i] < idx,
            forall|g: usize| g < idx ==> #[trigger] out@.contains(g),
            forall|i: int, j: int| 0 <= i < j < out@.len() ==> ranked_before(rewards@, #[trigger] out@[i], #[trigger] out@[j]),
        decreases rewards.len() - idx,
    {
        let k = reward_key_of(rewards[idx]);
        let mut p: usize = 0;
        while p < out.len() && reward_key_of(rewards[out[p]]) >= k
            invariant
                p <= out@.len(),
                idx < rewards@.len(),
                k == reward_key(rewards@[idx as int]),
                forall|i: int| 0 <= i < out@.len() ==> #[trigger] out@[i] < idx,
                forall|q: int| 0 <= q < p ==> reward_key(rewards@[#[trigger] out@[q] as int]) >= k,
            decreases out.len() - p,
        {
            p = p + 1;
        }
        let ghost before = out@;
        proof {
            assert forall|q: int| p <= q < before.len() implies reward_key(rewards@[#[trigger] before[q] as int]) < k by {
                if q > p {
                    assert(ranked_before(rewards@, before[p as int], before[q]));
                }
            }
        }
        out.insert(p, idx);
        proof {
            assert(out@ =~= before.insert(p as int, idx));
            assert(out@[p as int] == idx);
            assert forall|g: usize| g < idx + 1 implies #[trigger] out@.contains(g) by {
                if g < idx {
                    assert(before.contains(g));
                    let q = choose|q: int| 0 <= q < before.len() && before[q] == g;
                    if q < p {
                        assert(out@[q] == g);
                    } else {
                        assert(out@[q + 1] == g);
                    }
                }
            }
            assert forall|i: int| 0 <= i < out@.len() implies #[trigger] out@[i] < idx + 1 by {
                if i < p {
                    assert(out@[i] == before[i]);
                } else if i > p {
                    assert(out@[i] == before[i - 1]);
                }
            }
            assert forall|i: int, j: int| 0 <= i < j < out@.len() implies ranked_before(
                rewards@,
                #[trigger] out@[i],
                #[trigger] out@[j],
            ) by {
                if j < p {
                    assert(out@[i] == before[i] && out@[j] == before[j]);
                } else if j == p {
                    assert(out@[i] == before[i]);
                    assert(reward_key(rewards@[before[i] as int]) >= k);
                } else if i < p {
                    assert(out@[i] == before[i] && out@[j] == before[j - 1]);
                } else if i == p {
                    assert(out@[j] == before[j - 1]);
                } else {
                    assert(out@[i] == before[i - 1] && out@[j] == before[j - 1]);
                }
            }
        }
        idx = idx + 1;
    }
    out
}

/// The rewards of goals, in list order.
pub open spec fn goal_rewards(goals: Seq<GoalSpec>) -> Seq<u64> {
    goals.map_values(|g: GoalSpec| g.reward_bits)
}

impl HighestRewardFirst {
    /// The goals to try, from the highest reward down (equal rewards in list
    /// order), at most the limit of them, each skipped when already satisfied:
    /// the selected goals are distinct goals of the list, in reward order, and no
    /// goal left out ranks before a selected one.
    pub fn select_goals(&self, goals: &Vec<GoalSpec>) -> (r: Vec<GoalCandidate>)
        ensures
            r@.len() == goal_limit(self.max_goals(), goals@.len()),
            forall|i: int| 0 <= i < r@.len() ==> (#[trigger] r@[i]).goal_index < goals@.len() && r@[i].skip_if_satisfied,
            forall|i: int, j: int|
                0 <= i < j < r@.len() ==> ranked_before(
                    goal_rewards(goals@),
                    (#[trigger] r@[i]).goal_index,
                    (#[trigger] r@[j]).goal_index,
                ),
            forall|i: int, g: usize|
                0 <= i < r@.len() && g < goals@.len() && (forall|k: int| 0 <= k < r@.len() ==> r@[k].goal_index != g)
                    ==> #[trigger] ranked_before(goal_rewards(goals@), r@[i].goal_index, g),
    {
        let mut rewards: Vec<u64> = Vec::new();
        let mut i: usize = 0;
        while i < goals.len()
            invariant
                i <= goals@.len(),
                rewards@ == goal_rewards(goals@).take(i as int),
            decreases goals.len() - i,
        {
            rewards.push(goals[i].reward_bits);
            assert(rewards@ =~= goal_rewards(goals@).take(i + 1));
            i = i + 1;
        }
        assert(rewards@ =~= goal_rewards(goals@));
        let ranked = rank_by_reward(&rewards);
        let r = self.select_ranked(&ranked);
        proof {
            let rw = goal_rewards(goals@);
            let m = r@.len() as int;
            assert forall|i: int, g: usize|
                0 <= i < r@.len() && g < goals@.len() && (forall|k: int| 0 <= k < r@.len() ==> r@[k].goal_index != g)
                    implies #[trigger] ranked_before(rw, r@[i].goal_index, g) by {
                if ranked@.take(m).contains(g) {
                    let k = choose|k: int| 0 <= k < m && ranked@.take(m)[k] == g;
                    assert(r@[k].goal_index == g);
                }
                lemma_ranking_prefix_outranks_rest(rw, ranked@, m, i, g);
            }
        }
        r
    }
}

/// Taking the first `m` goals of a reward ranking leaves out no goal that ranks
/// before a taken one: every goal not among them ranks after each of them.
pub proof fn lemma_ranking_prefix_outranks_rest(rewards: Seq<u64>, r: Seq<usize>, m: int, i: int, g: usize)
    requires
        is_reward_ranking(rewards, r),
        0 <= i < m <= r.len(),
        g < rewards.len(),
        !r.take(m).contains(g),
    ensures
        ranked_before(rewards, r[i], g),
{
    assert(r.contains(g));
    let j = choose|j: int| 0 <= j < r.len() && r[j] == g;
    if j < m {
        assert(r.take(m)[j] == g);
    }
    assert(ranked_before(rewards, r[i], r[j]));
}

} // verus!
