//! Plan branches of the backward search and their structural operations.
//!
//! A branch is a partial action chain (execution order) together with the
//! needs that are still open at given chain positions and the bindings that
//! predecessor actions promised to later positions. Costs are kept as the bit
//! patterns of 64-bit floats; this module only moves them around.
use crate::plan_types::{PreconditionModel, PreconditionSpec, copy_preconditions, precondition_models};
use crate::requirement::{
    ProvisionModel, ProvisionSpec, RequirementModel, RequirementSpec, contains_requirement,
    requirement_models,
};
use crate::snapshot::{
    BlackboardSnapshot, VariantModel, VariantSnapshot, copy_variant, copy_variants, variant_models,
};
use std::collections::HashSet;
use vstd::prelude::*;

verus! {

broadcast use vstd::std_specs::vec::group_vec_axioms, vstd::std_specs::hash::group_hash_axioms;

/// The search phase of a plan branch.
#[derive(Clone, Copy, Debug, PartialEq, Eq, Hash, Structural)]
pub enum BranchState {
    Searching,
    Verifying,
}

/// Classification of a provision's kind for indexing actions by what they provide.
#[derive(Clone, Copy, Debug, PartialEq, Eq, Hash, Structural)]
pub enum ProvisionKind {
    Binding,
    Fact,
    FactWildcard,
}

/// A binding promised to a chain position: position, name and values.
pub type PositionedBinding = (usize, String, Vec<VariantSnapshot>);

/// A single branch in the planning search tree.
#[derive(Debug)]
pub struct PlanBranch {
    /// Indices into the action list, in execution order.
    pub action_chain: Vec<usize>,
    /// Cost of each action in the chain, as 64-bit float bit patterns.
    pub action_costs: Vec<u64>,
    /// Variable bindings associated with actions at specific chain positions.
    pub action_bindings: Vec<PositionedBinding>,
    /// Preconditions not yet satisfied, with the chain position that needs them.
    pub open_preconditions: Vec<(usize, PreconditionSpec)>,
    /// Symbolic requirements not yet satisfied, with the chain position that needs them.
    pub open_requirements: Vec<(usize, RequirementSpec)>,
    /// Current search phase for this branch.
    pub state: BranchState,
    /// The index of the goal this branch is trying to satisfy.
    pub goal_index: usize,
    /// Current position in the chain being simulated or verified.
    pub simulation_index: usize,
    /// Simulated agent state after `simulation_index` actions.
    pub current_agent: BlackboardSnapshot,
    /// Simulated world state after `simulation_index` actions.
    pub current_world: BlackboardSnapshot,
    /// Total grounded cost of the branch, as a 64-bit float bit pattern.
    pub cost: u64,
    /// Id of the node in the debug search tree.
    pub tree_node_id: usize,
}

/// Models of positioned preconditions.
pub open spec fn pre_entries(s: Seq<(usize, PreconditionSpec)>) -> Seq<(usize, PreconditionModel)> {
    s.map_values(|e: (usize, PreconditionSpec)| (e.0, e.1@))
}

/// Models of positioned requirements.
pub open spec fn req_entries(s: Seq<(usize, RequirementSpec)>) -> Seq<(usize, RequirementModel)> {
    s.map_values(|e: (usize, RequirementSpec)| (e.0, e.1@))
}

/// Models of positioned bindings.
pub open spec fn binding_entries(s: Seq<PositionedBinding>) -> Seq<(usize, Seq<char>, Seq<VariantModel>)> {
    s.map_values(|e: PositionedBinding| (e.0, e.1@, variant_models(e.2@)))
}

/// Models of (requirement, provision) matches with the requirement's index.
pub open spec fn match_entries(s: Seq<(usize, RequirementSpec, ProvisionSpec)>) -> Seq<(usize, RequirementModel, ProvisionModel)> {
    s.map_values(|e: (usize, RequirementSpec, ProvisionSpec)| (e.0, e.1@, e.2@))
}

/// A position moved forward by `delta` when it is at or after `from`.
pub open spec fn shift_pos(pos: usize, from: usize, delta: usize) -> usize {
    if pos >= from {
        (pos + delta) as usize
    } else {
        pos
    }
}

pub open spec fn shift_entries<A>(s: Seq<(usize, A)>, from: usize, delta: usize) -> Seq<(usize, A)> {
    s.map_values(|e: (usize, A)| (shift_pos(e.0, from, delta), e.1))
}

pub open spec fn shift_binding_entries(
    s: Seq<(usize, Seq<char>, Seq<VariantModel>)>,
    from: usize,
    delta: usize,
) -> Seq<(usize, Seq<char>, Seq<VariantModel>)> {
    s.map_values(|e: (usize, Seq<char>, Seq<VariantModel>)| (shift_pos(e.0, from, delta), e.1, e.2))
}

/// Shifting by `delta` cannot overflow any position at or after `from`.
pub open spec fn shift_fits<A>(s: Seq<(usize, A)>, from: usize, delta: usize) -> bool {
    forall|i: int| 0 <= i < s.len() && (#[trigger] s[i]).0 >= from ==> s[i].0 + delta <= usize::MAX
}

pub open spec fn shift_fits_bindings(s: Seq<PositionedBinding>, from: usize, delta: usize) -> bool {
    forall|i: int| 0 <= i < s.len() && (#[trigger] s[i]).0 >= from ==> s[i].0 + delta <= usize::MAX
}

/// The bindings at `position`, as (name, values), in order.
pub open spec fn bindings_at(s: Seq<(usize, Seq<char>, Seq<VariantModel>)>, position: usize) -> Seq<(Seq<char>, Seq<VariantModel>)>
    decreases s.len(),
{
    if s.len() == 0 {
        Seq::empty()
    } else {
        let rest = bindings_at(s.drop_last(), position);
        if s.last().0 == position {
            rest.push((s.last().1, s.last().2))
        } else {
            rest
        }
    }
}

/// The binding name and values a provision gives when it satisfies a requirement;
/// an empty name when it gives none.
pub open spec fn match_binding(p: ProvisionModel, r: RequirementModel) -> (Seq<char>, Seq<VariantModel>) {
    match p {
        ProvisionModel::Binding { name, value } => (name, seq![value]),
        ProvisionModel::Fact { name, args } => (name, args),
        ProvisionModel::FactWildcard { name } => match r {
            RequirementModel::Fact { args, .. } => (name, args),
            _ => (Seq::empty(), Seq::empty()),
        },
    }
}

/// Entries of `s` whose index is not in `marked`, in order.
pub open spec fn remove_marked<A>(s: Seq<A>, marked: Set<usize>) -> Seq<A>
    decreases s.len(),
{
    if s.len() == 0 {
        Seq::empty()
    } else {
        let rest = remove_marked(s.drop_last(), marked);
        if marked.contains((s.len() - 1) as usize) {
            rest
        } else {
            rest.push(s.last())
        }
    }
}

/// Entries whose requirement equals none of `cleared`, in order.
pub open spec fn keep_uncleared(s: Seq<(usize, RequirementModel)>, cleared: Seq<RequirementModel>) -> Seq<(usize, RequirementModel)>
    decreases s.len(),
{
    if s.len() == 0 {
        Seq::empty()
    } else {
        let rest = keep_uncleared(s.drop_last(), cleared);
        if cleared.contains(s.last().1) {
            rest
        } else {
            rest.push(s.last())
        }
    }
}

/// Positions of the entries whose requirement equals one of `cleared`, in order.
pub open spec fn cleared_positions(s: Seq<(usize, RequirementModel)>, cleared: Seq<RequirementModel>) -> Seq<usize>
    decreases s.len(),
{
    if s.len() == 0 {
        Seq::empty()
    } else {
        let rest = cleared_positions(s.drop_last(), cleared);
        if cleared.contains(s.last().1) {
            rest.push(s.last().0)
        } else {
            rest
        }
    }
}

/// The requirements of the first `k` matches.
pub open spec fn matched_requirements(m: Seq<(usize, RequirementModel, ProvisionModel)>) -> Seq<RequirementModel> {
    m.map_values(|e: (usize, RequirementModel, ProvisionModel)| e.1)
}

/// Bindings created by the matches `m` against the (already shifted) open
/// requirements `reqs` when the provider sits at `pos`: for each match that
/// yields a binding, one for the provider followed by one at each position of
/// an open requirement identical to that match's own requirement.
pub open spec fn new_bindings_for(
    reqs: Seq<(usize, RequirementModel)>,
    m: Seq<(usize, RequirementModel, ProvisionModel)>,
    pos: usize,
) -> Seq<(usize, Seq<char>, Seq<VariantModel>)>
    decreases m.len(),
{
    if m.len() == 0 {
        Seq::empty()
    } else {
        let rest = new_bindings_for(reqs, m.drop_last(), pos);
        let (name, vals) = match_binding(m.last().2, m.last().1);
        if name.len() == 0 {
            rest
        } else {
            rest.push((pos, name, vals)) + cleared_positions(reqs, seq![m.last().1]).map_values(
                |p: usize| (p, name, vals),
            )
        }
    }
}

/// Positioned entries for new needs, all at `pos`.
pub open spec fn at_position<A>(s: Seq<A>, pos: usize) -> Seq<(usize, A)> {
    s.map_values(|a: A| (pos, a))
}

/// The marked indices below `n`.
pub open spec fn marked_below(marked: Set<usize>, n: nat) -> Set<usize> {
    Set::new(|i: usize| i < n && marked.contains(i))
}

/// Removing the marked positions shortens a sequence by the number of marked
/// indices inside it; indices outside it do not count.
pub proof fn lemma_remove_marked_len<A>(s: Seq<A>, marked: Set<usize>)
    requires
        s.len() <= usize::MAX,
    ensures
        marked_below(marked, s.len()).finite(),
        remove_marked(s, marked).len() + marked_below(marked, s.len()).len() == s.len(),
    decreases s.len(),
{
    if s.len() == 0 {
        assert(marked_below(marked, 0) =~= Set::<usize>::empty());
    } else {
        let n = s.len();
        lemma_remove_marked_len(s.drop_last(), marked);
        let below = marked_below(marked, (n - 1) as nat);
        let last = (n - 1) as usize;
        if marked.contains(last) {
            assert(marked_below(marked, n) =~= below.insert(last));
            assert(!below.contains(last));
        } else {
            assert(marked_below(marked, n) =~= below);
        }
    }
}

/// Removes the elements at the given indices from a vector, keeping the order of
/// the rest; indices outside the vector are ignored.
pub fn remove_indices<T>(vec: &mut Vec<T>, indices: &HashSet<usize>)
    ensures
        final(vec)@ == remove_marked(old(vec)@, indices@),
{
    let ghost orig = vec@;
    let mut kept: Vec<T> = Vec::new();
    let mut rest: Vec<T> = Vec::new();
    std::mem::swap(vec, &mut rest);
    let mut j: usize = 0;
    assert(orig.take(0) =~= Seq::<T>::empty());
    assert(orig.skip(0) =~= orig);
    assert(orig.len() == rest.len());
    while rest.len() > 0
        invariant
            orig.len() <= usize::MAX,
            j <= orig.len(),
            rest@ == orig.skip(j as int),
            kept@ == remove_marked(orig.take(j as int), indices@),
        decreases rest.len(),
    {
        let x = rest.remove(0);
        proof {
            assert(orig.take(j as int + 1).drop_last() =~= orig.take(j as int));
            assert(orig.take(j as int + 1).last() == x);
            assert(rest@ =~= orig.skip(j as int + 1));
        }
        if !indices.contains(&j) {
            kept.push(x);
        }
        j = j + 1;
    }
    assert(orig.take(j as int) =~= orig);
    *vec = kept;
}

/// Moves every position at or after `from` forward by `delta`.
fn shift_vec<A>(v: &mut Vec<(usize, A)>, from: usize, delta: usize)
    requires
        shift_fits(old(v)@, from, delta),
    ensures
        final(v)@ == shift_entries(old(v)@, from, delta),
{
    let ghost orig = v@;
    let mut out: Vec<(usize, A)> = Vec::new();
    let mut rest: Vec<(usize, A)> = Vec::new();
    std::mem::swap(v, &mut rest);
    let mut j: usize = 0;
    assert(orig.skip(0) =~= orig);
    assert(orig.len() == rest.len());
    while rest.len() > 0
        invariant
            orig.len() <= usize::MAX,
            shift_fits(orig, from, delta),
            j <= orig.len(),
            rest@ == orig.skip(j as int),
            out@ == shift_entries(orig.take(j as int), from, delta),
        decreases rest.len(),
    {
        let (pos, a) = rest.remove(0);
        assert(orig[j as int] == (pos, a));
        let new_pos = if pos >= from {
            pos + delta
        } else {
            pos
        };
        out.push((new_pos, a));
        proof {
            assert(rest@ =~= orig.skip(j as int + 1));
            assert(out@ =~= shift_entries(orig.take(j as int + 1), from, delta));
        }
        j = j + 1;
    }
    assert(orig.take(j as int) =~= orig);
    *v = out;
}

/// Moves every binding position at or after `from` forward by `delta`.
fn shift_binding_vec(v: &mut Vec<PositionedBinding>, from: usize, delta: usize)
    requires
        shift_fits_bindings(old(v)@, from, delta),
    ensures
        binding_entries(final(v)@) == shift_binding_entries(binding_entries(old(v)@), from, delta),
{
    let ghost orig = v@;
    let mut out: Vec<PositionedBinding> = Vec::new();
    let mut rest: Vec<PositionedBinding> = Vec::new();
    std::mem::swap(v, &mut rest);
    let mut j: usize = 0;
    assert(orig.skip(0) =~= orig);
    assert(orig.len() == rest.len());
    while rest.len() > 0
        invariant
            orig.len() <= usize::MAX,
            shift_fits_bindings(orig, from, delta),
            j <= orig.len(),
            rest@ == orig.skip(j as int),
            binding_entries(out@) == shift_binding_entries(binding_entries(orig.take(j as int)), from, delta),
        decreases rest.len(),
    {
        let (pos, name, vals) = rest.remove(0);
        assert(orig[j as int] == (pos, name, vals));
        let new_pos = if pos >= from {
            pos + delta
        } else {
            pos
        };
        let ghost prev = binding_entries(out@);
        let ghost entry = (new_pos, name@, variant_models(vals@));
        out.push((new_pos, name, vals));
        proof {
            assert(rest@ =~= orig.skip(j as int + 1));
            assert(binding_entries(out@) =~= prev.push(entry));
            assert(binding_entries(orig.take(j as int + 1)) =~= binding_entries(orig.take(j as int)).push(
                (pos, entry.1, entry.2),
            ));
            assert(shift_binding_entries(binding_entries(orig.take(j as int + 1)), from, delta)
                =~= shift_binding_entries(binding_entries(orig.take(j as int)), from, delta).push(entry));
        }
        j = j + 1;
    }
    assert(orig.take(j as int) =~= orig);
    *v = out;
}

/// Shifting positions commutes with taking the models of positioned preconditions.
pub proof fn lemma_pre_entries_shift(s: Seq<(usize, PreconditionSpec)>, from: usize, delta: usize)
    ensures
        pre_entries(shift_entries(s, from, delta)) == shift_entries(pre_entries(s), from, delta),
{
    assert(pre_entries(shift_entries(s, from, delta)) =~= shift_entries(pre_entries(s), from, delta));
}

/// Removing marked entries commutes with taking the models of positioned preconditions.
pub proof fn lemma_pre_entries_remove_marked(s: Seq<(usize, PreconditionSpec)>, marked: Set<usize>)
    ensures
        pre_entries(remove_marked(s, marked)) == remove_marked(pre_entries(s), marked),
    decreases s.len(),
{
    if s.len() > 0 {
        lemma_pre_entries_remove_marked(s.drop_last(), marked);
        assert(pre_entries(s).drop_last() =~= pre_entries(s.drop_last()));
        let rest = remove_marked(s.drop_last(), marked);
        assert(pre_entries(rest.push(s.last())) =~= pre_entries(rest).push((s.last().0, s.last().1@)));
    } else {
        assert(pre_entries(remove_marked(s, marked)) =~= remove_marked(pre_entries(s), marked));
    }
}

/// Shifting positions commutes with taking the models of positioned requirements.
pub proof fn lemma_req_entries_shift(s: Seq<(usize, RequirementSpec)>, from: usize, delta: usize)
    ensures
        req_entries(shift_entries(s, from, delta)) == shift_entries(req_entries(s), from, delta),
{
    assert(req_entries(shift_entries(s, from, delta)) =~= shift_entries(req_entries(s), from, delta));
}

/// The binding name and values a provision gives when it satisfies a requirement;
/// the name is empty when the provision gives none.
pub fn binding_values_from_match(prov: &ProvisionSpec, req: &RequirementSpec) -> (r: (String, Vec<VariantSnapshot>))
    ensures
        (r.0@, variant_models(r.1@)) == match_binding(prov@, req@),
{
    match prov {
        ProvisionSpec::Binding { binding_name, value } => {
            let mut vals: Vec<VariantSnapshot> = Vec::new();
            vals.push(copy_variant(value));
            proof {
                crate::snapshot::lemma_variant_models_push(Seq::empty(), vals@[0]);
                assert(Seq::<VariantSnapshot>::empty().push(vals@[0]) =~= vals@);
                assert(crate::snapshot::variant_models(Seq::empty()) =~= Seq::<VariantModel>::empty());
                assert(Seq::<VariantModel>::empty().push(value@) =~= seq![value@]);
            }
            (binding_name.clone(), vals)
        },
        ProvisionSpec::Fact { fact_name, args } => (fact_name.clone(), copy_variants(args)),
        ProvisionSpec::FactWildcard { fact_name } => match req {
            RequirementSpec::Fact { args, .. } => (fact_name.clone(), copy_variants(args)),
            _ => {
                proof {
                    assert(crate::snapshot::variant_models(Seq::empty()) =~= Seq::<VariantModel>::empty());
                }
                (String::new(), Vec::new())
            },
        },
    }
}

/// Appends, for each open requirement (in order) that equals one of `cleared`,
/// a binding of `name` to `values` at that requirement's position.
fn push_consumer_bindings(
    reqs: &Vec<(usize, RequirementSpec)>,
    cleared: &Vec<RequirementSpec>,
    name: &String,
    values: &Vec<VariantSnapshot>,
    out: &mut Vec<PositionedBinding>,
)
    ensures
        binding_entries(final(out)@) == binding_entries(old(out)@) + cleared_positions(
            req_entries(reqs@),
            requirement_models(cleared@),
        ).map_values(|p: usize| (p, name@, variant_models(values@))),
{
    let ghost rm = req_entries(reqs@);
    let ghost cm = requirement_models(cleared@);
    let ghost base = binding_entries(out@);
    let mut idx: usize = 0;
    assert(rm.take(0) =~= Seq::<(usize, RequirementModel)>::empty());
    assert(base + cleared_positions(rm.take(0), cm).map_values(
        |p: usize| (p, name@, variant_models(values@)),
    ) =~= base);
    while idx < reqs.len()
        invariant
            rm == req_entries(reqs@),
            cm == requirement_models(cleared@),
            idx <= reqs.len(),
            binding_entries(out@) == base + cleared_positions(rm.take(idx as int), cm).map_values(
                |p: usize| (p, name@, variant_models(values@)),
            ),
        decreases reqs.len() - idx,
    {
        assert(rm.take(idx + 1).drop_last() =~= rm.take(idx as int));
        assert(rm.take(idx + 1).last() == (reqs@[idx as int].0, reqs@[idx as int].1@));
        if contains_requirement(cleared, &reqs[idx].1) {
            let ghost before = binding_entries(out@);
            out.push((reqs[idx].0, name.clone(), copy_variants(values)));
            assert(binding_entries(out@) =~= before.push((reqs@[idx as int].0, name@, variant_models(values@))));
            assert(cleared_positions(rm.take(idx + 1), cm) == cleared_positions(rm.take(idx as int), cm).push(reqs@[idx as int].0));
            assert(cleared_positions(rm.take(idx + 1), cm).map_values(
                |p: usize| (p, name@, variant_models(values@)),
            ) =~= cleared_positions(rm.take(idx as int), cm).map_values(
                |p: usize| (p, name@, variant_models(values@)),
            ).push((reqs@[idx as int].0, name@, variant_models(values@))));
        }
        idx = idx + 1;
    }
    assert(rm.take(reqs.len() as int) =~= rm);
}

/// Keeps the open requirements that equal none of `cleared`, in order.
fn drop_cleared(reqs: &mut Vec<(usize, RequirementSpec)>, cleared: &Vec<RequirementSpec>)
    ensures
        req_entries(final(reqs)@) == keep_uncleared(req_entries(old(reqs)@), requirement_models(cleared@)),
{
    let ghost orig = reqs@;
    let ghost cm = requirement_models(cleared@);
    let mut out: Vec<(usize, RequirementSpec)> = Vec::new();
    let mut rest: Vec<(usize, RequirementSpec)> = Vec::new();
    std::mem::swap(reqs, &mut rest);
    let mut j: usize = 0;
    assert(orig.skip(0) =~= orig);
    assert(orig.len() == rest.len());
    assert(req_entries(orig.take(0)) =~= Seq::<(usize, RequirementModel)>::empty());
    while rest.len() > 0
        invariant
            orig.len() <= usize::MAX,
            cm == requirement_models(cleared@),
            j <= orig.len(),
            rest@ == orig.skip(j as int),
            req_entries(out@) == keep_uncleared(req_entries(orig.take(j as int)), cm),
        decreases rest.len(),
    {
        let e = rest.remove(0);
        proof {
            assert(orig[j as int] == e);
            assert(rest@ =~= orig.skip(j as int + 1));
            assert(req_entries(orig.take(j as int + 1)).drop_last() =~= req_entries(orig.take(j as int)));
            assert(req_entries(orig.take(j as int + 1)).last() == (e.0, e.1@));
        }
        if !contains_requirement(cleared, &e.1) {
            let ghost before = req_entries(out@);
            out.push(e);
            assert(req_entries(out@) =~= before.push((e.0, e.1@)));
        }
        j = j + 1;
    }
    assert(orig.take(j as int) =~= orig);
    *reqs = out;
}

/// Positions where a predecessor is inserted: never past the end of the chain.
pub open spec fn insert_fits(b: PlanBranch, insert_pos: usize) -> bool {
    &&& insert_pos <= b.action_chain@.len()
    &&& insert_pos <= b.action_costs@.len()
    &&& shift_fits(b.open_preconditions@, insert_pos, 1)
    &&& shift_fits(b.open_requirements@, insert_pos, 1)
    &&& shift_fits_bindings(b.action_bindings@, insert_pos, 1)
}

/// Every entry refers to a chain position no greater than `n`.
pub open spec fn within<A>(s: Seq<(usize, A)>, n: nat) -> bool {
    forall|i: int| 0 <= i < s.len() ==> (#[trigger] s[i]).0 <= n
}

/// Every binding refers to a chain position no greater than `n`.
pub open spec fn bindings_within(s: Seq<(usize, Seq<char>, Seq<VariantModel>)>, n: nat) -> bool {
    forall|i: int| 0 <= i < s.len() ==> (#[trigger] s[i]).0 <= n
}

/// Every open need and binding of the branch refers to a position of its chain
/// or to the position just past its end (the goal).
pub open spec fn positions_within(b: PlanBranch) -> bool {
    let n = b.action_chain@.len();
    &&& within(pre_entries(b.open_preconditions@), n)
    &&& within(req_entries(b.open_requirements@), n)
    &&& bindings_within(binding_entries(b.action_bindings@), n)
}

proof fn lemma_within_shift<A>(s: Seq<(usize, A)>, n: nat, from: usize)
    requires
        within(s, n),
        n < usize::MAX,
    ensures
        within(shift_entries(s, from, 1), n + 1),
{
    assert forall|i: int| 0 <= i < shift_entries(s, from, 1).len() implies (#[trigger] shift_entries(s, from, 1)[i]).0 <= n + 1 by {
        assert(s[i].0 <= n);
    }
}

proof fn lemma_bindings_within_shift(s: Seq<(usize, Seq<char>, Seq<VariantModel>)>, n: nat, from: usize)
    requires
        bindings_within(s, n),
        n < usize::MAX,
    ensures
        bindings_within(shift_binding_entries(s, from, 1), n + 1),
{
    assert forall|i: int| 0 <= i < shift_binding_entries(s, from, 1).len() implies (#[trigger] shift_binding_entries(s, from, 1)[i]).0 <= n + 1 by {
        assert(s[i].0 <= n);
    }
}

proof fn lemma_within_remove_marked<A>(s: Seq<(usize, A)>, n: nat, marked: Set<usize>)
    requires
        within(s, n),
    ensures
        within(remove_marked(s, marked), n),
    decreases s.len(),
{
    if s.len() > 0 {
        assert(within(s.drop_last(), n)) by {
            assert forall|i: int| 0 <= i < s.drop_last().len() implies (#[trigger] s.drop_last()[i]).0 <= n by {
                assert(s[i].0 <= n);
            }
        }
        lemma_within_remove_marked(s.drop_last(), n, marked);
        assert(s[s.len() - 1].0 <= n);
    }
}

proof fn lemma_within_keep_uncleared(s: Seq<(usize, RequirementModel)>, n: nat, cleared: Seq<RequirementModel>)
    requires
        within(s, n),
    ensures
        within(keep_uncleared(s, cleared), n),
        forall|i: int| 0 <= i < cleared_positions(s, cleared).len() ==> #[trigger] cleared_positions(s, cleared)[i] <= n,
    decreases s.len(),
{
    if s.len() > 0 {
        assert(within(s.drop_last(), n)) by {
            assert forall|i: int| 0 <= i < s.drop_last().len() implies (#[trigger] s.drop_last()[i]).0 <= n by {
                assert(s[i].0 <= n);
            }
        }
        lemma_within_keep_uncleared(s.drop_last(), n, cleared);
        assert(s[s.len() - 1].0 <= n);
        let rest = cleared_positions(s.drop_last(), cleared);
        let cp = cleared_positions(s, cleared);
        assert forall|i: int| 0 <= i < cp.len() implies #[trigger] cp[i] <= n by {
            if i < rest.len() {
                assert(cp[i] == rest[i]);
            }
        }
    }
}

proof fn lemma_new_bindings_within(
    reqs: Seq<(usize, RequirementModel)>,
    m: Seq<(usize, RequirementModel, ProvisionModel)>,
    pos: usize,
    n: nat,
)
    requires
        within(reqs, n),
        pos <= n,
    ensures
        bindings_within(new_bindings_for(reqs, m, pos), n),
    decreases m.len(),
{
    if m.len() > 0 {
        lemma_new_bindings_within(reqs, m.drop_last(), pos, n);
        lemma_within_keep_uncleared(reqs, n, seq![m.last().1]);
        let rest = new_bindings_for(reqs, m.drop_last(), pos);
        let (name, vals) = match_binding(m.last().2, m.last().1);
        if name.len() > 0 {
            let cp = cleared_positions(reqs, seq![m.last().1]);
            let tail = cp.map_values(|p: usize| (p, name, vals));
            let all = rest.push((pos, name, vals)) + tail;
            assert forall|i: int| 0 <= i < all.len() implies (#[trigger] all[i]).0 <= n by {
                if i < rest.len() {
                    assert(all[i] == rest[i]);
                } else if i == rest.len() {
                } else {
                    assert(all[i] == tail[i - rest.len() - 1]);
                    assert(cp[i - rest.len() - 1] <= n);
                }
            }
        }
    }
}

proof fn lemma_within_append<A>(a: Seq<(usize, A)>, b: Seq<(usize, A)>, n: nat)
    requires
        within(a, n),
        within(b, n),
    ensures
        within(a + b, n),
{
    assert forall|i: int| 0 <= i < (a + b).len() implies (#[trigger] (a + b)[i]).0 <= n by {
        if i < a.len() {
            assert((a + b)[i] == a[i]);
        } else {
            assert((a + b)[i] == b[i - a.len()]);
        }
    }
}

proof fn lemma_bindings_within_append(
    a: Seq<(usize, Seq<char>, Seq<VariantModel>)>,
    b: Seq<(usize, Seq<char>, Seq<VariantModel>)>,
    n: nat,
)
    requires
        bindings_within(a, n),
        bindings_within(b, n),
    ensures
        bindings_within(a + b, n),
{
    assert forall|i: int| 0 <= i < (a + b).len() implies (#[trigger] (a + b)[i]).0 <= n by {
        if i < a.len() {
            assert((a + b)[i] == a[i]);
        } else {
            assert((a + b)[i] == b[i - a.len()]);
        }
    }
}

/// Inserting a predecessor keeps every open need and binding at a position of
/// the (longer) chain or just past its end.
proof fn lemma_insert_keeps_positions(
    pres: Seq<(usize, PreconditionModel)>,
    reqs: Seq<(usize, RequirementModel)>,
    binds: Seq<(usize, Seq<char>, Seq<VariantModel>)>,
    n: nat,
    insert_pos: usize,
    m: Seq<(usize, RequirementModel, ProvisionModel)>,
    marked: Set<usize>,
    new_pres: Seq<PreconditionModel>,
    new_reqs: Seq<RequirementModel>,
)
    requires
        within(pres, n),
        within(reqs, n),
        bindings_within(binds, n),
        insert_pos <= n,
        n < usize::MAX,
    ensures
        within(remove_marked(shift_entries(pres, insert_pos, 1), marked) + at_position(new_pres, insert_pos), n + 1),
        within(
            keep_uncleared(shift_entries(reqs, insert_pos, 1), matched_requirements(m)) + at_position(new_reqs, insert_pos),
            n + 1,
        ),
        bindings_within(
            shift_binding_entries(binds, insert_pos, 1) + new_bindings_for(shift_entries(reqs, insert_pos, 1), m, insert_pos),
            n + 1,
        ),
{
    lemma_within_shift(pres, n, insert_pos);
    lemma_within_remove_marked(shift_entries(pres, insert_pos, 1), n + 1, marked);
    assert(within(at_position(new_pres, insert_pos), n + 1));
    lemma_within_append(remove_marked(shift_entries(pres, insert_pos, 1), marked), at_position(new_pres, insert_pos), n + 1);

    lemma_within_shift(reqs, n, insert_pos);
    lemma_within_keep_uncleared(shift_entries(reqs, insert_pos, 1), n + 1, matched_requirements(m));
    assert(within(at_position(new_reqs, insert_pos), n + 1));
    lemma_within_append(
        keep_uncleared(shift_entries(reqs, insert_pos, 1), matched_requirements(m)),
        at_position(new_reqs, insert_pos),
        n + 1,
    );

    lemma_bindings_within_shift(binds, n, insert_pos);
    lemma_new_bindings_within(shift_entries(reqs, insert_pos, 1), m, insert_pos, n + 1);
    lemma_bindings_within_append(
        shift_binding_entries(binds, insert_pos, 1),
        new_bindings_for(shift_entries(reqs, insert_pos, 1), m, insert_pos),
        n + 1,
    );
}

impl PlanBranch {
    /// A new, empty branch starting from the given initial states.
    pub fn new(initial_agent: &BlackboardSnapshot, initial_world: &BlackboardSnapshot) -> (r: Self)
        ensures
            r.action_chain@.len() == 0,
            r.action_costs@.len() == 0,
            r.action_bindings@.len() == 0,
            r.open_preconditions@.len() == 0,
            r.open_requirements@.len() == 0,
            r.state == BranchState::Searching,
            r.goal_index == 0,
            r.simulation_index == 0,
            r.current_agent@ == initial_agent@,
            r.current_world@ == initial_world@,
            r.cost == 0,
            r.tree_node_id == 0,
            positions_within(r),
    {
        PlanBranch {
            action_chain: Vec::new(),
            action_costs: Vec::new(),
            action_bindings: Vec::new(),
            open_preconditions: Vec::new(),
            open_requirements: Vec::new(),
            state: BranchState::Searching,
            goal_index: 0,
            simulation_index: 0,
            current_agent: initial_agent.copy(),
            current_world: initial_world.copy(),
            cost: 0,
            tree_node_id: 0,
        }
    }

    /// All action bindings at the given chain position, as (name, values) pairs in order.
    pub fn collect_bindings_for_position(&self, position: usize) -> (r: Vec<(String, Vec<VariantSnapshot>)>)
        ensures
            crate::requirement::binding_models(r@) == bindings_at(
                binding_entries(self.action_bindings@),
                position,
            ),
    {
        let ghost bm = binding_entries(self.action_bindings@);
        let mut out: Vec<(String, Vec<VariantSnapshot>)> = Vec::new();
        let mut i: usize = 0;
        assert(bm.take(0) =~= Seq::<(usize, Seq<char>, Seq<VariantModel>)>::empty());
        while i < self.action_bindings.len()
            invariant
                bm == binding_entries(self.action_bindings@),
                i <= self.action_bindings.len(),
                crate::requirement::binding_models(out@) == bindings_at(bm.take(i as int), position),
            decreases self.action_bindings.len() - i,
        {
            assert(bm.take(i + 1).drop_last() =~= bm.take(i as int));
            let e = &self.action_bindings[i];
            assert(bm.take(i + 1).last() == (e.0, e.1@, variant_models(e.2@)));
            if e.0 == position {
                let ghost before = crate::requirement::binding_models(out@);
                out.push((e.1.clone(), copy_variants(&e.2)));
                assert(crate::requirement::binding_models(out@) =~= before.push((e.1@, variant_models(e.2@))));
            }
            i = i + 1;
        }
        assert(bm.take(self.action_bindings.len() as int) =~= bm);
        out
    }

    /// Moves the chain position of every open need and binding at or after `from`
    /// forward by `delta`.
    pub fn shift_positions(&mut self, from: usize, delta: usize)
        requires
            shift_fits(old(self).open_preconditions@, from, delta),
            shift_fits(old(self).open_requirements@, from, delta),
            shift_fits_bindings(old(self).action_bindings@, from, delta),
        ensures
            pre_entries(final(self).open_preconditions@) == shift_entries(
                pre_entries(old(self).open_preconditions@),
                from,
                delta,
            ),
            req_entries(final(self).open_requirements@) == shift_entries(
                req_entries(old(self).open_requirements@),
                from,
                delta,
            ),
            binding_entries(final(self).action_bindings@) == shift_binding_entries(
                binding_entries(old(self).action_bindings@),
                from,
                delta,
            ),
            final(self).action_chain@ == old(self).action_chain@,
            final(self).action_costs@ == old(self).action_costs@,
            final(self).state == old(self).state,
            final(self).goal_index == old(self).goal_index,
            final(self).simulation_index == old(self).simulation_index,
            final(self).current_agent@ == old(self).current_agent@,
            final(self).current_world@ == old(self).current_world@,
            final(self).cost == old(self).cost,
            final(self).tree_node_id == old(self).tree_node_id,
    {
        proof {
            lemma_pre_entries_shift(self.open_preconditions@, from, delta);
            lemma_req_entries_shift(self.open_requirements@, from, delta);
        }
        shift_vec(&mut self.open_preconditions, from, delta);
        shift_vec(&mut self.open_requirements, from, delta);
        shift_binding_vec(&mut self.action_bindings, from, delta);
    }

    /// Inserts a predecessor action into the chain at `insert_pos`, immediately
    /// before its first consumer.
    ///
    /// Every position at or after `insert_pos` moves forward by one. Every open
    /// requirement equal to one of the satisfied requirements is cleared; each
    /// satisfied match that yields a binding records it for the new action and at
    /// each shifted consumer position of its own requirement. The open preconditions at
    /// the given indices (taken before the shift) are removed, and the action's own
    /// needs are added at `insert_pos`. Returns the new bindings, which are also
    /// appended to the branch's bindings. The branch is left in `Searching` state;
    /// the caller decides whether to start verification.
    #[verifier::loop_isolation(false)]
    pub fn insert_action_at(
        &mut self,
        insert_pos: usize,
        action_idx: usize,
        cost: u64,
        satisfied_requirements: Vec<(usize, RequirementSpec, ProvisionSpec)>,
        satisfied_precondition_indices: HashSet<usize>,
        new_preconditions: Vec<PreconditionSpec>,
        new_requirements: Vec<RequirementSpec>,
    ) -> (r: Vec<PositionedBinding>)
        requires
            insert_fits(*old(self), insert_pos),
        ensures
            final(self).action_chain@ == old(self).action_chain@.insert(insert_pos as int, action_idx),
            final(self).action_costs@ == old(self).action_costs@.insert(insert_pos as int, cost),
            ({
                let reqs = shift_entries(req_entries(old(self).open_requirements@), insert_pos, 1);
                let m = match_entries(satisfied_requirements@);
                &&& req_entries(final(self).open_requirements@) == keep_uncleared(
                    reqs,
                    matched_requirements(m),
                ) + at_position(requirement_models(new_requirements@), insert_pos)
                &&& binding_entries(r@) == new_bindings_for(reqs, m, insert_pos)
                &&& binding_entries(final(self).action_bindings@) == shift_binding_entries(
                    binding_entries(old(self).action_bindings@),
                    insert_pos,
                    1,
                ) + new_bindings_for(reqs, m, insert_pos)
            }),
            pre_entries(final(self).open_preconditions@) == remove_marked(
                shift_entries(pre_entries(old(self).open_preconditions@), insert_pos, 1),
                satisfied_precondition_indices@,
            ) + at_position(precondition_models(new_preconditions@), insert_pos),
            final(self).state == BranchState::Searching,
            final(self).goal_index == old(self).goal_index,
            final(self).simulation_index == old(self).simulation_index,
            final(self).current_agent@ == old(self).current_agent@,
            final(self).current_world@ == old(self).current_world@,
            final(self).cost == old(self).cost,
            final(self).tree_node_id == old(self).tree_node_id,
            positions_within(*old(self)) ==> positions_within(*final(self)),
    {
        // 1. Insert the action and its cost.
        self.action_chain.insert(insert_pos, action_idx);
        self.action_costs.insert(insert_pos, cost);

        // 2. Shift every position-tracked entry at or after the insertion point.
        self.shift_positions(insert_pos, 1);

        // 3. Clear identical requirements greedily and record the bindings.
        let ghost reqs = req_entries(self.open_requirements@);
        let ghost m = match_entries(satisfied_requirements@);
        let mut cleared: Vec<RequirementSpec> = Vec::new();
        let mut new_bindings: Vec<PositionedBinding> = Vec::new();
        let mut k: usize = 0;
        assert(m.take(0) =~= Seq::<(usize, RequirementModel, ProvisionModel)>::empty());
        assert(matched_requirements(m.take(0)) =~= Seq::<RequirementModel>::empty());
        assert(binding_entries(new_bindings@) =~= Seq::<(usize, Seq<char>, Seq<VariantModel>)>::empty());
        while k < satisfied_requirements.len()
            invariant
                reqs == req_entries(self.open_requirements@),
                m == match_entries(satisfied_requirements@),
                k <= satisfied_requirements.len(),
                requirement_models(cleared@) == matched_requirements(m.take(k as int)),
                binding_entries(new_bindings@) == new_bindings_for(reqs, m.take(k as int), insert_pos),
            decreases satisfied_requirements.len() - k,
        {
            let req = &satisfied_requirements[k].1;
            let prov = &satisfied_requirements[k].2;
            proof {
                assert(m.take(k + 1).drop_last() =~= m.take(k as int));
                assert(m.take(k + 1).last() == (satisfied_requirements@[k as int].0, req@, prov@));
            }
            let ghost c0 = requirement_models(cleared@);
            cleared.push(req.copy());
            assert(requirement_models(cleared@) =~= c0.push(req@));
            assert(matched_requirements(m.take(k + 1)) =~= matched_requirements(m.take(k as int)).push(req@));
            let (name, values) = binding_values_from_match(prov, req);
            if name.as_str().unicode_len() > 0 {
                let ghost b0 = binding_entries(new_bindings@);
                new_bindings.push((insert_pos, name.clone(), copy_variants(&values)));
                assert(binding_entries(new_bindings@) =~= b0.push((insert_pos, name@, variant_models(values@))));
                let mut own: Vec<RequirementSpec> = Vec::new();
                own.push(req.copy());
                assert(requirement_models(own@) =~= seq![req@]);
                push_consumer_bindings(&self.open_requirements, &own, &name, &values, &mut new_bindings);
            }
            k = k + 1;
        }
        assert(m.take(satisfied_requirements.len() as int) =~= m);

        // 4. Remove the satisfied needs.
        let mut open_reqs: Vec<(usize, RequirementSpec)> = Vec::new();
        std::mem::swap(&mut open_reqs, &mut self.open_requirements);
        let mut open_pres: Vec<(usize, PreconditionSpec)> = Vec::new();
        std::mem::swap(&mut open_pres, &mut self.open_preconditions);
        let mut bindings: Vec<PositionedBinding> = Vec::new();
        std::mem::swap(&mut bindings, &mut self.action_bindings);
        drop_cleared(&mut open_reqs, &cleared);
        proof {
            lemma_pre_entries_remove_marked(open_pres@, satisfied_precondition_indices@);
        }
        remove_indices(&mut open_pres, &satisfied_precondition_indices);

        // 5. Add the new action's own needs at its position.
        let ghost pre_before = pre_entries(open_pres@);
        let ghost new_pre = precondition_models(new_preconditions@);
        let mut i: usize = 0;
        assert(new_pre.take(0) =~= Seq::<PreconditionModel>::empty());
        assert(pre_before + at_position(new_pre.take(0), insert_pos) =~= pre_before);
        while i < new_preconditions.len()
            invariant
                new_pre == precondition_models(new_preconditions@),
                i <= new_preconditions.len(),
                pre_entries(open_pres@) == pre_before + at_position(new_pre.take(i as int), insert_pos),
            decreases new_preconditions.len() - i,
        {
            let ghost p0 = pre_entries(open_pres@);
            open_pres.push((insert_pos, new_preconditions[i].copy()));
            assert(pre_entries(open_pres@) =~= p0.push((insert_pos, new_pre[i as int])));
            assert(at_position(new_pre.take(i + 1), insert_pos) =~= at_position(new_pre.take(i as int), insert_pos).push((insert_pos, new_pre[i as int])));
            i = i + 1;
        }
        assert(new_pre.take(new_preconditions.len() as int) =~= new_pre);
        let ghost req_before = req_entries(open_reqs@);
        let ghost new_req = requirement_models(new_requirements@);
        let mut i: usize = 0;
        assert(new_req.take(0) =~= Seq::<RequirementModel>::empty());
        assert(req_before + at_position(new_req.take(0), insert_pos) =~= req_before);
        while i < new_requirements.len()
            invariant
                new_req == requirement_models(new_requirements@),
                i <= new_requirements.len(),
                req_entries(open_reqs@) == req_before + at_position(new_req.take(i as int), insert_pos),
            decreases new_requirements.len() - i,
        {
            let ghost r0 = req_entries(open_reqs@);
            open_reqs.push((insert_pos, new_requirements[i].copy()));
            assert(req_entries(open_reqs@) =~= r0.push((insert_pos, new_req[i as int])));
            assert(at_position(new_req.take(i + 1), insert_pos) =~= at_position(new_req.take(i as int), insert_pos).push((insert_pos, new_req[i as int])));
            i = i + 1;
        }
        assert(new_req.take(new_requirements.len() as int) =~= new_req);

        // 6. Merge the new bindings.
        let ghost bind_before = binding_entries(bindings@);
        let ghost nb = binding_entries(new_bindings@);
        let mut i: usize = 0;
        assert(nb.take(0) =~= Seq::<(usize, Seq<char>, Seq<VariantModel>)>::empty());
        assert(bind_before + nb.take(0) =~= bind_before);
        while i < new_bindings.len()
            invariant
                nb == binding_entries(new_bindings@),
                i <= new_bindings.len(),
                binding_entries(bindings@) == bind_before + nb.take(i as int),
            decreases new_bindings.len() - i,
        {
            let e = &new_bindings[i];
            let ghost b0 = binding_entries(bindings@);
            bindings.push((e.0, e.1.clone(), copy_variants(&e.2)));
            assert(binding_entries(bindings@) =~= b0.push(nb[i as int]));
            assert(nb.take(i + 1) =~= nb.take(i as int).push(nb[i as int]));
            i = i + 1;
        }
        assert(nb.take(new_bindings.len() as int) =~= nb);
        self.open_requirements = open_reqs;
        self.open_preconditions = open_pres;
        self.action_bindings = bindings;
        proof {
            assert(self.action_chain@.len() == self.action_chain.len());
            if positions_within(*old(self)) {
                lemma_insert_keeps_positions(
                    pre_entries(old(self).open_preconditions@),
                    req_entries(old(self).open_requirements@),
                    binding_entries(old(self).action_bindings@),
                    old(self).action_chain@.len(),
                    insert_pos,
                    match_entries(satisfied_requirements@),
                    satisfied_precondition_indices@,
                    precondition_models(new_preconditions@),
                    requirement_models(new_requirements@),
                );
            }
        }
        self.state = BranchState::Searching;
        new_bindings
    }
}

/// What identifies a searching branch for cycle detection: its goal, its state,
/// its open needs (without their positions) and its bindings (with theirs, so
/// that branches differing only in concrete binding values stay apart).
#[derive(Debug)]
pub struct FingerprintKey {
    pub goal_index: usize,
    pub state: BranchState,
    pub open_preconditions: Vec<PreconditionSpec>,
    pub open_requirements: Vec<RequirementSpec>,
    pub action_bindings: Vec<PositionedBinding>,
}

/// The needs of positioned entries, in order, without their positions.
pub open spec fn entry_needs<A>(s: Seq<(usize, A)>) -> Seq<A> {
    s.map_values(|e: (usize, A)| e.1)
}

impl PlanBranch {
    /// The key a search fingerprint is computed from.
    pub fn fingerprint_key(&self) -> (r: FingerprintKey)
        ensures
            r.goal_index == self.goal_index,
            r.state == self.state,
            precondition_models(r.open_preconditions@) == entry_needs(pre_entries(self.open_preconditions@)),
            requirement_models(r.open_requirements@) == entry_needs(req_entries(self.open_requirements@)),
            binding_entries(r.action_bindings@) == binding_entries(self.action_bindings@),
    {
        let mut pres: Vec<PreconditionSpec> = Vec::new();
        let mut i: usize = 0;
        while i < self.open_preconditions.len()
            invariant
                i <= self.open_preconditions@.len(),
                precondition_models(pres@) == entry_needs(pre_entries(self.open_preconditions@.take(i as int))),
            decreases self.open_preconditions.len() - i,
        {
            let ghost before = precondition_models(pres@);
            pres.push(self.open_preconditions[i].1.copy());
            assert(precondition_models(pres@) =~= before.push(self.open_preconditions@[i as int].1@));
            assert(self.open_preconditions@.take(i + 1).drop_last() =~= self.open_preconditions@.take(i as int));
            assert(entry_needs(pre_entries(self.open_preconditions@.take(i + 1))) =~= entry_needs(
                pre_entries(self.open_preconditions@.take(i as int)),
            ).push(self.open_preconditions@[i as int].1@));
            i = i + 1;
        }
        assert(self.open_preconditions@.take(self.open_preconditions@.len() as int) =~= self.open_preconditions@);
        let mut reqs: Vec<RequirementSpec> = Vec::new();
        let mut k: usize = 0;
        while k < self.open_requirements.len()
            invariant
                k <= self.open_requirements@.len(),
                requirement_models(reqs@) == entry_needs(req_entries(self.open_requirements@.take(k as int))),
            decreases self.open_requirements.len() - k,
        {
            let ghost before = requirement_models(reqs@);
            reqs.push(self.open_requirements[k].1.copy());
            assert(requirement_models(reqs@) =~= before.push(self.open_requirements@[k as int].1@));
            assert(entry_needs(req_entries(self.open_requirements@.take(k + 1))) =~= entry_needs(
                req_entries(self.open_requirements@.take(k as int)),
            ).push(self.open_requirements@[k as int].1@));
            k = k + 1;
        }
        assert(self.open_requirements@.take(self.open_requirements@.len() as int) =~= self.open_requirements@);
        let mut binds: Vec<PositionedBinding> = Vec::new();
        let mut j: usize = 0;
        while j < self.action_bindings.len()
            invariant
                j <= self.action_bindings@.len(),
                binding_entries(binds@) == binding_entries(self.action_bindings@.take(j as int)),
            decreases self.action_bindings.len() - j,
        {
            let ghost before = binding_entries(binds@);
            let b = &self.action_bindings[j];
            binds.push((b.0, b.1.clone(), copy_variants(&b.2)));
            assert(binding_entries(binds@) =~= before.push(binding_entries(self.action_bindings@)[j as int]));
            assert(binding_entries(self.action_bindings@.take(j + 1)) =~= binding_entries(
                self.action_bindings@.take(j as int),
            ).push(binding_entries(self.action_bindings@)[j as int]));
            j = j + 1;
        }
        assert(self.action_bindings@.take(self.action_bindings@.len() as int) =~= self.action_bindings@);
        FingerprintKey {
            goal_index: self.goal_index,
            state: self.state,
            open_preconditions: pres,
            open_requirements: reqs,
            action_bindings: binds,
        }
    }
}

/// Chain position where a predecessor action is inserted: the smallest position
/// among the consumers it satisfies, bounded by the chain's length (so 0 for an
/// empty chain); 0 when it satisfies no consumer.
pub open spec fn insert_pos_spec(
    chain_len: nat,
    pres: Seq<(usize, PreconditionModel)>,
    reqs: Seq<(usize, RequirementModel)>,
    pre_idx: Seq<usize>,
    req_idx: Seq<usize>,
) -> nat {
    if pre_idx.len() == 0 && req_idx.len() == 0 {
        0
    } else {
        min_consumer(chain_len, pres, reqs, pre_idx, req_idx)
    }
}

/// The smallest of `chain_len` and the positions of the indexed open needs.
pub open spec fn min_consumer(
    chain_len: nat,
    pres: Seq<(usize, PreconditionModel)>,
    reqs: Seq<(usize, RequirementModel)>,
    pre_idx: Seq<usize>,
    req_idx: Seq<usize>,
) -> nat
    decreases pre_idx.len() + req_idx.len(),
{
    if req_idx.len() > 0 {
        let rest = min_consumer(chain_len, pres, reqs, pre_idx, req_idx.drop_last());
        let p = reqs[req_idx.last() as int].0 as nat;
        if p < rest {
            p
        } else {
            rest
        }
    } else if pre_idx.len() > 0 {
        let rest = min_consumer(chain_len, pres, reqs, pre_idx.drop_last(), req_idx);
        let p = pres[pre_idx.last() as int].0 as nat;
        if p < rest {
            p
        } else {
            rest
        }
    } else {
        chain_len
    }
}

/// Computes where a predecessor action is inserted: the smallest position among
/// the consumers it satisfies, falling back to 0 when the chain is empty, and 0
/// when it satisfies no consumer.
pub fn compute_insert_pos(
    branch: &PlanBranch,
    satisfied_precondition_indices: &[usize],
    satisfied_requirements: &[(usize, RequirementSpec, ProvisionSpec)],
) -> (r: usize)
    requires
        forall|i: int|
            0 <= i < satisfied_precondition_indices@.len() ==> #[trigger] satisfied_precondition_indices@[i]
                < branch.open_preconditions@.len(),
        forall|i: int|
            0 <= i < satisfied_requirements@.len() ==> (#[trigger] satisfied_requirements@[i]).0
                < branch.open_requirements@.len(),
    ensures
        r == insert_pos_spec(
            branch.action_chain@.len(),
            pre_entries(branch.open_preconditions@),
            req_entries(branch.open_requirements@),
            satisfied_precondition_indices@,
            satisfied_requirements@.map_values(|e: (usize, RequirementSpec, ProvisionSpec)| e.0),
        ),
{
    let ghost pres = pre_entries(branch.open_preconditions@);
    let ghost reqs = req_entries(branch.open_requirements@);
    let ghost pi = satisfied_precondition_indices@;
    let ghost ri = satisfied_requirements@.map_values(|e: (usize, RequirementSpec, ProvisionSpec)| e.0);
    if satisfied_precondition_indices.len() == 0 && satisfied_requirements.len() == 0 {
        return 0;
    }
    let old_chain_len = branch.action_chain.len();
    let mut insert_pos = old_chain_len;
    let mut i: usize = 0;
    assert(pi.take(0) =~= Seq::<usize>::empty());
    assert(ri.take(0) =~= Seq::<usize>::empty());
    while i < satisfied_precondition_indices.len()
        invariant
            pres == pre_entries(branch.open_preconditions@),
            reqs == req_entries(branch.open_requirements@),
            pi == satisfied_precondition_indices@,
            i <= pi.len(),
            forall|j: int| 0 <= j < pi.len() ==> #[trigger] pi[j] < branch.open_preconditions@.len(),
            insert_pos as nat == min_consumer(old_chain_len as nat, pres, reqs, pi.take(i as int), Seq::empty()),
        decreases pi.len() - i,
    {
        assert(pi.take(i + 1).drop_last() =~= pi.take(i as int));
        let idx = satisfied_precondition_indices[i];
        let pos = branch.open_preconditions[idx].0;
        if pos < insert_pos {
            insert_pos = pos;
        }
        i = i + 1;
    }
    assert(pi.take(pi.len() as int) =~= pi);
    let mut k: usize = 0;
    while k < satisfied_requirements.len()
        invariant
            pres == pre_entries(branch.open_preconditions@),
            reqs == req_entries(branch.open_requirements@),
            pi == satisfied_precondition_indices@,
            ri == satisfied_requirements@.map_values(|e: (usize, RequirementSpec, ProvisionSpec)| e.0),
            k <= ri.len(),
            forall|j: int|
                0 <= j < satisfied_requirements@.len() ==> (#[trigger] satisfied_requirements@[j]).0
                    < branch.open_requirements@.len(),
            insert_pos as nat == min_consumer(old_chain_len as nat, pres, reqs, pi, ri.take(k as int)),
        decreases ri.len() - k,
    {
        assert(ri.take(k + 1).drop_last() =~= ri.take(k as int));
        let idx = satisfied_requirements[k].0;
        let pos = branch.open_requirements[idx].0;
        if pos < insert_pos {
            insert_pos = pos;
        }
        k = k + 1;
    }
    assert(ri.take(ri.len() as int) =~= ri);
    insert_pos
}

} // verus!
