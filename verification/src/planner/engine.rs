//! The decisions of the backward-chaining search and its verification pass.
//!
//! The search starts each goal from a root branch, dispatches branches taken
//! from the queue, adds the needs of an inserted predecessor, and moves on to
//! the next goal when the queue drains. A branch whose needs are all matched is
//! verified by walking its chain from the initial state: requirements already
//! provided by the initial state are cleared, each action's requirements must
//! hold in the simulated state, the provisions of a simulated action clear the
//! later requirements they satisfy, and at the end of the chain no need may
//! remain open.
use crate::plan_tree::PlanResult;
use crate::plan_types::{ActionSpec, PreconditionModel, PreconditionSpec, precondition_models};
use crate::planner::TerminationStrategy;
use crate::planner::types::{
    BranchState, PlanBranch, PositionedBinding, binding_entries, positions_within, pre_entries, req_entries, within,
};
use crate::requirement::{
    ProvisionModel, ProvisionSpec, RequirementModel, RequirementSpec, binding_models, find_binding,
    provision_models, provision_satisfies, provision_satisfies_requirement, requirement_holds,
    requirement_holds_in_state, requirement_models,
};
use crate::snapshot::{BlackboardModel, BlackboardSnapshot, VariantModel, VariantSnapshot, copy_variants, variant_models};
use vstd::prelude::*;

verus! {

broadcast use vstd::std_specs::vec::group_vec_axioms;

/// A wildcard fact provision made concrete by the first binding of its fact name,
/// when that binding has values; any other provision is unchanged.
pub open spec fn concretize_spec(p: ProvisionModel, b: Seq<(Seq<char>, Seq<VariantModel>)>) -> ProvisionModel {
    match p {
        ProvisionModel::FactWildcard { name } => match crate::requirement::first_binding(b, name) {
            Some(vals) => if vals.len() > 0 {
                ProvisionModel::Fact { name, args: vals }
            } else {
                p
            },
            None => p,
        },
        _ => p,
    }
}

/// Concretizes a wildcard fact provision with the current chain-position binding.
///
/// If the provision is not a wildcard, or no binding with values exists for its
/// fact name, the provision is returned unchanged.
pub fn concretize_wildcard_provision(
    prov: &ProvisionSpec,
    current_bindings: &[(String, Vec<VariantSnapshot>)],
) -> (r: ProvisionSpec)
    ensures
        r@ == concretize_spec(prov@, binding_models(current_bindings@)),
{
    match prov {
        ProvisionSpec::FactWildcard { fact_name } => {
            match find_binding(current_bindings, fact_name) {
                Some(values) => {
                    proof {
                        crate::snapshot::lemma_variant_models_len(values@);
                    }
                    if values.len() > 0 {
                        return ProvisionSpec::Fact { fact_name: fact_name.clone(), args: copy_variants(values) };
                    }
                },
                None => {},
            }
            prov.copy()
        },
        _ => prov.copy(),
    }
}

/// Some provision of `provs` satisfies `r` in the context of `world`.
pub open spec fn provided_in_world(r: RequirementModel, provs: Seq<ProvisionModel>, world: BlackboardModel) -> bool {
    exists|i: int| 0 <= i < provs.len() && provision_satisfies(#[trigger] provs[i], r, Some(world))
}

/// Entries kept by a requirement sweep: those whose position is outside
/// `from..=to`, or that no provision satisfies.
pub open spec fn sweep_requirements(
    s: Seq<(usize, RequirementModel)>,
    from: usize,
    to: usize,
    provs: Seq<ProvisionModel>,
    world: BlackboardModel,
) -> Seq<(usize, RequirementModel)>
    decreases s.len(),
{
    if s.len() == 0 {
        Seq::empty()
    } else {
        let rest = sweep_requirements(s.drop_last(), from, to, provs, world);
        if from <= s.last().0 <= to && provided_in_world(s.last().1, provs, world) {
            rest
        } else {
            rest.push(s.last())
        }
    }
}

/// A sweep keeps a subset of the entries, so it keeps them within any bound.
proof fn lemma_within_sweep(
    s: Seq<(usize, RequirementModel)>,
    n: nat,
    from: usize,
    to: usize,
    provs: Seq<ProvisionModel>,
    world: BlackboardModel,
)
    requires
        within(s, n),
    ensures
        within(sweep_requirements(s, from, to, provs, world), n),
    decreases s.len(),
{
    if s.len() > 0 {
        assert(within(s.drop_last(), n)) by {
            assert forall|i: int| 0 <= i < s.drop_last().len() implies (#[trigger] s.drop_last()[i]).0 <= n by {
                assert(s[i].0 <= n);
            }
        }
        lemma_within_sweep(s.drop_last(), n, from, to, provs, world);
        assert(s[s.len() - 1].0 <= n);
    }
}

/// Returns true if some provision satisfies `req` in the context of `world`.
fn provided_by_any(req: &RequirementSpec, provs: &Vec<ProvisionSpec>, world: &BlackboardSnapshot) -> (r: bool)
    ensures
        r == provided_in_world(req@, provision_models(provs@), world@),
{
    let ghost pm = provision_models(provs@);
    let mut i: usize = 0;
    while i < provs.len()
        invariant
            pm == provision_models(provs@),
            i <= provs.len(),
            forall|j: int| 0 <= j < i ==> !provision_satisfies(#[trigger] pm[j], req@, Some(world@)),
        decreases provs.len() - i,
    {
        if provision_satisfies_requirement(&provs[i], req, Some(world)) {
            assert(provision_satisfies(pm[i as int], req@, Some(world@)));
            return true;
        }
        i = i + 1;
    }
    false
}

/// Removes the open requirements positioned in `from..=to` that some provision in
/// `provs` satisfies in the context of `world`, keeping the order of the rest.
fn sweep_open_requirements(
    reqs: &mut Vec<(usize, RequirementSpec)>,
    from: usize,
    to: usize,
    provs: &Vec<ProvisionSpec>,
    world: &BlackboardSnapshot,
)
    ensures
        req_entries(final(reqs)@) == sweep_requirements(req_entries(old(reqs)@), from, to, provision_models(provs@), world@),
{
    let ghost orig = reqs@;
    let ghost pm = provision_models(provs@);
    let mut out: Vec<(usize, RequirementSpec)> = Vec::new();
    let mut rest: Vec<(usize, RequirementSpec)> = Vec::new();
    std::mem::swap(reqs, &mut rest);
    let mut j: usize = 0;
    assert(orig.skip(0) =~= orig);
    assert(orig.len() == rest.len());
    assert(req_entries(orig.take(0)) =~= Seq::<(usize, RequirementModel)>::empty());
    while rest.len() > 0
        invariant
            orig.len() <= usize::MAX,
            pm == provision_models(provs@),
            j <= orig.len(),
            rest@ == orig.skip(j as int),
            req_entries(out@) == sweep_requirements(req_entries(orig.take(j as int)), from, to, pm, world@),
        decreases rest.len(),
    {
        let e = rest.remove(0);
        proof {
            assert(orig[j as int] == e);
            assert(rest@ =~= orig.skip(j as int + 1));
            assert(req_entries(orig.take(j as int + 1)).drop_last() =~= req_entries(orig.take(j as int)));
            assert(req_entries(orig.take(j as int + 1)).last() == (e.0, e.1@));
        }
        if !(from <= e.0 && e.0 <= to && provided_by_any(&e.1, provs, world)) {
            let ghost before = req_entries(out@);
            out.push(e);
            assert(req_entries(out@) =~= before.push((e.0, e.1@)));
        }
        j = j + 1;
    }
    assert(orig.take(j as int) =~= orig);
    *reqs = out;
}

/// Removes the open requirements at chain position 0 that the initial provisions
/// already satisfy (in the context of the initial world).
pub fn clear_initial_state_requirements(
    branch: &mut PlanBranch,
    initial_provisions: &Vec<ProvisionSpec>,
    initial_world: &BlackboardSnapshot,
)
    ensures
        req_entries(final(branch).open_requirements@) == sweep_requirements(
            req_entries(old(branch).open_requirements@),
            0,
            0,
            provision_models(initial_provisions@),
            initial_world@,
        ),
        final(branch).open_preconditions@ == old(branch).open_preconditions@,
        final(branch).action_bindings@ == old(branch).action_bindings@,
        final(branch).action_chain@ == old(branch).action_chain@,
        final(branch).action_costs@ == old(branch).action_costs@,
        final(branch).state == old(branch).state,
        final(branch).simulation_index == old(branch).simulation_index,
        final(branch).current_agent@ == old(branch).current_agent@,
        final(branch).current_world@ == old(branch).current_world@,
        final(branch).cost == old(branch).cost,
        final(branch).goal_index == old(branch).goal_index,
        final(branch).tree_node_id == old(branch).tree_node_id,
        positions_within(*old(branch)) ==> positions_within(*final(branch)),
{
    sweep_open_requirements(&mut branch.open_requirements, 0, 0, initial_provisions, initial_world);
    proof {
        if positions_within(*old(branch)) {
            lemma_within_sweep(
                req_entries(old(branch).open_requirements@),
                old(branch).action_chain@.len(),
                0,
                0,
                provision_models(initial_provisions@),
                initial_world@,
            );
        }
    }
}

/// The provisions of an action made concrete by the current bindings.
pub open spec fn concrete_provisions(provs: Seq<ProvisionModel>, b: Seq<(Seq<char>, Seq<VariantModel>)>) -> Seq<ProvisionModel> {
    provs.map_values(|p: ProvisionModel| concretize_spec(p, b))
}

/// Clears the open requirements at or after the current simulation index that
/// the simulated action's provisions (wildcards made concrete by the current
/// bindings) satisfy in the context of the branch's current world.
pub fn clear_requirements_from_provisions(
    branch: &mut PlanBranch,
    action: &ActionSpec,
    current_bindings: &[(String, Vec<VariantSnapshot>)],
)
    ensures
        req_entries(final(branch).open_requirements@) == sweep_requirements(
            req_entries(old(branch).open_requirements@),
            old(branch).simulation_index,
            usize::MAX,
            concrete_provisions(provision_models(action.provisions@), binding_models(current_bindings@)),
            old(branch).current_world@,
        ),
        final(branch).open_preconditions@ == old(branch).open_preconditions@,
        final(branch).action_bindings@ == old(branch).action_bindings@,
        final(branch).action_chain@ == old(branch).action_chain@,
        final(branch).action_costs@ == old(branch).action_costs@,
        final(branch).state == old(branch).state,
        final(branch).simulation_index == old(branch).simulation_index,
        final(branch).current_agent@ == old(branch).current_agent@,
        final(branch).current_world@ == old(branch).current_world@,
        final(branch).cost == old(branch).cost,
        final(branch).goal_index == old(branch).goal_index,
        final(branch).tree_node_id == old(branch).tree_node_id,
        positions_within(*old(branch)) ==> positions_within(*final(branch)),
{
    let ghost b = binding_models(current_bindings@);
    let mut concrete: Vec<ProvisionSpec> = Vec::new();
    let mut i: usize = 0;
    while i < action.provisions.len()
        invariant
            b == binding_models(current_bindings@),
            i <= action.provisions.len(),
            concrete@.len() == i,
            forall|j: int| 0 <= j < i ==> (#[trigger] concrete@[j])@ == concretize_spec(action.provisions@[j]@, b),
        decreases action.provisions.len() - i,
    {
        concrete.push(concretize_wildcard_provision(&action.provisions[i], current_bindings));
        i = i + 1;
    }
    assert(provision_models(concrete@) =~= concrete_provisions(provision_models(action.provisions@), b));
    sweep_open_requirements(&mut branch.open_requirements, branch.simulation_index, usize::MAX, &concrete, &branch.current_world);
    proof {
        if positions_within(*old(branch)) {
            lemma_within_sweep(
                req_entries(old(branch).open_requirements@),
                old(branch).action_chain@.len(),
                old(branch).simulation_index,
                usize::MAX,
                concrete_provisions(provision_models(action.provisions@), binding_models(current_bindings@)),
                old(branch).current_world@,
            );
        }
    }
}

/// What the end of a chain walk decides for a branch.
#[derive(Clone, Copy, Debug, PartialEq, Eq, Structural)]
pub enum FinalizeOutcome {
    /// The branch is still searching: nothing to finalize.
    StillSearching,
    /// Verification ended with open preconditions: the branch is pruned.
    UnsatisfiedPreconditions,
    /// Verification ended with open requirements: the branch is pruned.
    UnsatisfiedRequirements,
    /// Verification ended with no open need: the chain is a complete plan.
    ChainComplete,
}

/// Decides the end of a chain walk: a verifying branch with open preconditions,
/// or else open requirements, is pruned; otherwise its chain is complete.
pub fn finalize_outcome(branch: &PlanBranch) -> (r: FinalizeOutcome)
    ensures
        r == match branch.state {
            BranchState::Searching => FinalizeOutcome::StillSearching,
            BranchState::Verifying => if branch.open_preconditions@.len() > 0 {
                FinalizeOutcome::UnsatisfiedPreconditions
            } else if branch.open_requirements@.len() > 0 {
                FinalizeOutcome::UnsatisfiedRequirements
            } else {
                FinalizeOutcome::ChainComplete
            },
        },
{
    match branch.state {
        BranchState::Verifying => {
            if branch.open_preconditions.len() > 0 {
                FinalizeOutcome::UnsatisfiedPreconditions
            } else if branch.open_requirements.len() > 0 {
                FinalizeOutcome::UnsatisfiedRequirements
            } else {
                FinalizeOutcome::ChainComplete
            }
        },
        BranchState::Searching => FinalizeOutcome::StillSearching,
    }
}

/// The chain as signed indices.
pub open spec fn signed_chain(s: Seq<usize>) -> Seq<i64> {
    s.map_values(|x: usize| x as i64)
}

/// Bindings with signed positions.
pub open spec fn signed_bindings(s: Seq<(usize, Seq<char>, Seq<VariantModel>)>) -> Seq<(i64, Seq<char>, Seq<VariantModel>)> {
    s.map_values(|e: (usize, Seq<char>, Seq<VariantModel>)| (e.0 as i64, e.1, e.2))
}

/// The successful plan a completed branch records: its chain, cost, goal and bindings.
pub fn plan_result_from_branch(branch: &PlanBranch) -> (r: PlanResult)
    ensures
        r.success,
        r.action_chain@ == signed_chain(branch.action_chain@),
        r.total_cost == branch.cost,
        r.goal_index == branch.goal_index as i64,
        r.deferred_action_indices@.len() == 0,
        r.action_bindings@.map_values(|e: (i64, String, Vec<VariantSnapshot>)| (e.0, e.1@, variant_models(e.2@)))
            == signed_bindings(binding_entries(branch.action_bindings@)),
{
    let mut chain: Vec<i64> = Vec::new();
    let mut i: usize = 0;
    while i < branch.action_chain.len()
        invariant
            i <= branch.action_chain.len(),
            chain@ == signed_chain(branch.action_chain@.take(i as int)),
        decreases branch.action_chain.len() - i,
    {
        chain.push(#[verifier::truncate] (branch.action_chain[i] as i64));
        assert(signed_chain(branch.action_chain@.take(i + 1)) =~= signed_chain(branch.action_chain@.take(i as int)).push(branch.action_chain@[i as int] as i64));
        i = i + 1;
    }
    assert(branch.action_chain@.take(branch.action_chain.len() as int) =~= branch.action_chain@);
    let ghost bm = signed_bindings(binding_entries(branch.action_bindings@));
    let mut bindings: Vec<(i64, String, Vec<VariantSnapshot>)> = Vec::new();
    let mut k: usize = 0;
    while k < branch.action_bindings.len()
        invariant
            bm == signed_bindings(binding_entries(branch.action_bindings@)),
            k <= branch.action_bindings.len(),
            bindings@.len() == k,
            bindings@.map_values(|e: (i64, String, Vec<VariantSnapshot>)| (e.0, e.1@, variant_models(e.2@))) == bm.take(k as int),
        decreases branch.action_bindings.len() - k,
    {
        let e = &branch.action_bindings[k];
        let ghost before = bindings@;
        bindings.push((#[verifier::truncate] (e.0 as i64), e.1.clone(), copy_variants(&e.2)));
        assert(bindings@.map_values(|e: (i64, String, Vec<VariantSnapshot>)| (e.0, e.1@, variant_models(e.2@)))
            =~= bm.take(k + 1));
        k = k + 1;
    }
    assert(bm.take(branch.action_bindings.len() as int) =~= bm);
    PlanResult {
        success: true,
        action_chain: chain,
        total_cost: branch.cost,
        goal_index: #[verifier::truncate] (branch.goal_index as i64),
        deferred_action_indices: Vec::new(),
        action_bindings: bindings,
    }
}

/// Every requirement of the action holds in the branch's current state, given the
/// bindings at the current chain position.
pub fn action_requirements_hold(
    branch: &PlanBranch,
    action: &ActionSpec,
    current_bindings: &[(String, Vec<VariantSnapshot>)],
) -> (r: bool)
    ensures
        r == forall|i: int|
            0 <= i < action.requirements@.len() ==> requirement_holds(
                #[trigger] action.requirements@[i]@,
                branch.current_agent@,
                branch.current_world@,
                binding_models(current_bindings@),
            ),
{
    let mut i: usize = 0;
    while i < action.requirements.len()
        invariant
            i <= action.requirements.len(),
            forall|j: int|
                0 <= j < i ==> requirement_holds(
                    #[trigger] action.requirements@[j]@,
                    branch.current_agent@,
                    branch.current_world@,
                    binding_models(current_bindings@),
                ),
        decreases action.requirements.len() - i,
    {
        if !requirement_holds_in_state(&action.requirements[i], &branch.current_agent, &branch.current_world, current_bindings) {
            return false;
        }
        i = i + 1;
    }
    true
}

/// Records a simulated action: the branch takes the simulated states, the action's
/// provisions clear the later requirements they satisfy in the new world, and the
/// simulation moves to the next chain position.
pub fn advance_after_simulation(
    branch: &mut PlanBranch,
    action: &ActionSpec,
    agent: BlackboardSnapshot,
    world: BlackboardSnapshot,
    current_bindings: &[(String, Vec<VariantSnapshot>)],
)
    requires
        old(branch).simulation_index < usize::MAX,
    ensures
        final(branch).current_agent@ == agent@,
        final(branch).current_world@ == world@,
        req_entries(final(branch).open_requirements@) == sweep_requirements(
            req_entries(old(branch).open_requirements@),
            old(branch).simulation_index,
            usize::MAX,
            concrete_provisions(provision_models(action.provisions@), binding_models(current_bindings@)),
            world@,
        ),
        final(branch).simulation_index == old(branch).simulation_index + 1,
        final(branch).open_preconditions@ == old(branch).open_preconditions@,
        final(branch).action_bindings@ == old(branch).action_bindings@,
        final(branch).action_chain@ == old(branch).action_chain@,
        final(branch).action_costs@ == old(branch).action_costs@,
        final(branch).state == old(branch).state,
        final(branch).cost == old(branch).cost,
        final(branch).goal_index == old(branch).goal_index,
        final(branch).tree_node_id == old(branch).tree_node_id,
        positions_within(*old(branch)) ==> positions_within(*final(branch)),
{
    branch.current_agent = agent;
    branch.current_world = world;
    clear_requirements_from_provisions(branch, action, current_bindings);
    branch.simulation_index = branch.simulation_index + 1;
}

/// Starts the verification pass of a branch whose needs are all matched: it walks
/// its chain from the initial states, starting at position 0.
pub fn begin_verification(branch: &mut PlanBranch, initial_agent: &BlackboardSnapshot, initial_world: &BlackboardSnapshot)
    ensures
        final(branch).state == BranchState::Verifying,
        final(branch).simulation_index == 0,
        final(branch).current_agent@ == initial_agent@,
        final(branch).current_world@ == initial_world@,
        final(branch).open_preconditions@ == old(branch).open_preconditions@,
        final(branch).open_requirements@ == old(branch).open_requirements@,
        final(branch).action_bindings@ == old(branch).action_bindings@,
        final(branch).action_chain@ == old(branch).action_chain@,
        final(branch).action_costs@ == old(branch).action_costs@,
        final(branch).cost == old(branch).cost,
        final(branch).goal_index == old(branch).goal_index,
        final(branch).tree_node_id == old(branch).tree_node_id,
        positions_within(*old(branch)) ==> positions_within(*final(branch)),
{
    branch.state = BranchState::Verifying;
    branch.simulation_index = 0;
    branch.current_agent = initial_agent.copy();
    branch.current_world = initial_world.copy();
}

/// A branch with no open precondition and no open requirement.
pub fn needs_satisfied(branch: &PlanBranch) -> (r: bool)
    ensures
        r == (branch.open_preconditions@.len() == 0 && branch.open_requirements@.len() == 0),
{
    branch.open_preconditions.len() == 0 && branch.open_requirements.len() == 0
}

/// Requirements of an action that are neither already open in the branch nor
/// provided by the initial provisions (in the context of the initial world).
pub open spec fn fresh_requirements(
    reqs: Seq<RequirementModel>,
    open: Seq<(usize, RequirementModel)>,
    initial: Seq<ProvisionModel>,
    world: BlackboardModel,
) -> Seq<RequirementModel>
    decreases reqs.len(),
{
    if reqs.len() == 0 {
        Seq::empty()
    } else {
        let rest = fresh_requirements(reqs.drop_last(), open, initial, world);
        let r = reqs.last();
        if (exists|j: int| 0 <= j < open.len() && (#[trigger] open[j]).1 == r) || provided_in_world(r, initial, world) {
            rest
        } else {
            rest.push(r)
        }
    }
}

/// The action's requirements that become new open needs when it is inserted:
/// those not already open and not provided by the initial state.
pub fn new_requirements_for(
    action: &ActionSpec,
    branch: &PlanBranch,
    initial_provisions: &Vec<ProvisionSpec>,
    initial_world: &BlackboardSnapshot,
) -> (r: Vec<RequirementSpec>)
    ensures
        requirement_models(r@) == fresh_requirements(
            requirement_models(action.requirements@),
            req_entries(branch.open_requirements@),
            provision_models(initial_provisions@),
            initial_world@,
        ),
{
    let ghost reqs = requirement_models(action.requirements@);
    let ghost open = req_entries(branch.open_requirements@);
    let ghost init = provision_models(initial_provisions@);
    let mut out: Vec<RequirementSpec> = Vec::new();
    let mut i: usize = 0;
    assert(reqs.take(0) =~= Seq::<RequirementModel>::empty());
    while i < action.requirements.len()
        invariant
            reqs == requirement_models(action.requirements@),
            open == req_entries(branch.open_requirements@),
            init == provision_models(initial_provisions@),
            i <= action.requirements.len(),
            requirement_models(out@) == fresh_requirements(reqs.take(i as int), open, init, initial_world@),
        decreases action.requirements.len() - i,
    {
        assert(reqs.take(i + 1).drop_last() =~= reqs.take(i as int));
        let req = &action.requirements[i];
        assert(reqs.take(i + 1).last() == req@);
        let mut already = false;
        let mut j: usize = 0;
        while j < branch.open_requirements.len()
            invariant
                open == req_entries(branch.open_requirements@),
                j <= branch.open_requirements.len(),
                already == exists|k: int| 0 <= k < j && (#[trigger] open[k]).1 == req@,
            decreases branch.open_requirements.len() - j,
        {
            if branch.open_requirements[j].1.same_as(req) {
                assert(open[j as int].1 == req@);
                already = true;
            }
            j = j + 1;
        }
        if !already && !provided_by_any(req, initial_provisions, initial_world) {
            let ghost before = requirement_models(out@);
            out.push(req.copy());
            assert(requirement_models(out@) =~= before.push(req@));
        }
        i = i + 1;
    }
    assert(reqs.take(action.requirements.len() as int) =~= reqs);
    out
}


/// Preconditions of an action that are neither already open in the branch nor
/// known to hold in the initial state (`initially_holds[i]` for the i-th).
pub open spec fn fresh_preconditions(
    pres: Seq<PreconditionModel>,
    open: Seq<(usize, PreconditionModel)>,
    initially_holds: Seq<bool>,
) -> Seq<PreconditionModel>
    decreases pres.len(),
{
    if pres.len() == 0 {
        Seq::empty()
    } else {
        let rest = fresh_preconditions(pres.drop_last(), open, initially_holds);
        let p = pres.last();
        if (exists|j: int| 0 <= j < open.len() && (#[trigger] open[j]).1 == p) || initially_holds[pres.len() - 1] {
            rest
        } else {
            rest.push(p)
        }
    }
}

/// The action's preconditions that become new open needs when it is inserted:
/// those not already open and not holding in the initial state. Whether each one
/// holds initially is decided by the caller, which settles numeric comparisons.
pub fn new_preconditions_for(action: &ActionSpec, branch: &PlanBranch, initially_holds: &Vec<bool>) -> (r: Vec<PreconditionSpec>)
    requires
        initially_holds@.len() == action.preconditions@.len(),
    ensures
        precondition_models(r@) == fresh_preconditions(
            precondition_models(action.preconditions@),
            pre_entries(branch.open_preconditions@),
            initially_holds@,
        ),
{
    let ghost pres = precondition_models(action.preconditions@);
    let ghost open = pre_entries(branch.open_preconditions@);
    let mut out: Vec<PreconditionSpec> = Vec::new();
    let mut i: usize = 0;
    assert(pres.take(0) =~= Seq::<PreconditionModel>::empty());
    while i < action.preconditions.len()
        invariant
            pres == precondition_models(action.preconditions@),
            open == pre_entries(branch.open_preconditions@),
            initially_holds@.len() == action.preconditions@.len(),
            i <= action.preconditions.len(),
            precondition_models(out@) == fresh_preconditions(pres.take(i as int), open, initially_holds@.take(i as int)),
        decreases action.preconditions.len() - i,
    {
        assert(pres.take(i + 1).drop_last() =~= pres.take(i as int));
        assert(initially_holds@.take(i + 1).take(i as int) =~= initially_holds@.take(i as int));
        let pre = &action.preconditions[i];
        assert(pres.take(i + 1).last() == pre@);
        let mut already = false;
        let mut j: usize = 0;
        while j < branch.open_preconditions.len()
            invariant
                open == pre_entries(branch.open_preconditions@),
                j <= branch.open_preconditions.len(),
                already == exists|k: int| 0 <= k < j && (#[trigger] open[k]).1 == pre@,
            decreases branch.open_preconditions.len() - j,
        {
            if branch.open_preconditions[j].1.same_as(pre) {
                assert(open[j as int].1 == pre@);
                already = true;
            }
            j = j + 1;
        }
        proof {
            lemma_fresh_preconditions_prefix(pres.take(i + 1), open, initially_holds@.take(i + 1), initially_holds@.take(i as int));
        }
        if !already && !initially_holds[i] {
            let ghost before = precondition_models(out@);
            out.push(pre.copy());
            assert(precondition_models(out@) =~= before.push(pre@));
        }
        i = i + 1;
    }
    assert(pres.take(action.preconditions.len() as int) =~= pres);
    assert(initially_holds@.take(action.preconditions.len() as int) =~= initially_holds@);
    out
}

proof fn lemma_fresh_preconditions_prefix(
    pres: Seq<PreconditionModel>,
    open: Seq<(usize, PreconditionModel)>,
    holds: Seq<bool>,
    shorter: Seq<bool>,
)
    requires
        pres.len() > 0,
        holds.len() == pres.len(),
        shorter == holds.take(pres.len() - 1),
    ensures
        fresh_preconditions(pres.drop_last(), open, holds) == fresh_preconditions(pres.drop_last(), open, shorter),
{
    lemma_fresh_preconditions_ignores_tail(pres.drop_last(), open, holds, shorter);
}

proof fn lemma_fresh_preconditions_ignores_tail(
    pres: Seq<PreconditionModel>,
    open: Seq<(usize, PreconditionModel)>,
    a: Seq<bool>,
    b: Seq<bool>,
)
    requires
        a.len() >= pres.len(),
        b.len() >= pres.len(),
        forall|i: int| 0 <= i < pres.len() ==> a[i] == b[i],
    ensures
        fresh_preconditions(pres, open, a) == fresh_preconditions(pres, open, b),
    decreases pres.len(),
{
    if pres.len() > 0 {
        lemma_fresh_preconditions_ignores_tail(pres.drop_last(), open, a, b);
    }
}

/// What the search does once its queue is drained for the current goal.
#[derive(Clone, Copy, Debug, PartialEq, Eq, Structural)]
pub enum GoalTransition {
    /// Branches wait on callbacks: yield until they are answered.
    AwaitCallbacks,
    /// Move on to the next goal, discarding any empty plan found.
    NextGoal,
    /// Report the best plan found, or a failure.
    Finish,
}

/// The decision once the queue is drained: wait while branches are parked;
/// otherwise go on to the next goal when one remains and the current goal gave
/// no plan or only an empty one (already satisfied); otherwise finish.
pub open spec fn goal_transition_spec(
    has_parked: bool,
    best_chain_len: Option<nat>,
    current_goal: nat,
    goal_count: nat,
) -> GoalTransition {
    if has_parked {
        GoalTransition::AwaitCallbacks
    } else if current_goal + 1 < goal_count && (best_chain_len is None || best_chain_len == Some(0nat)) {
        GoalTransition::NextGoal
    } else {
        GoalTransition::Finish
    }
}

/// Decides what the search does once its queue is drained for the current goal.
pub fn goal_transition(has_parked: bool, best_plan: &Option<PlanResult>, current_goal: usize, goal_count: usize) -> (r: GoalTransition)
    ensures
        r == goal_transition_spec(
            has_parked,
            match best_plan {
                Some(p) => Some(p.action_chain@.len()),
                None => None,
            },
            current_goal as nat,
            goal_count as nat,
        ),
{
    if has_parked {
        return GoalTransition::AwaitCallbacks;
    }
    let more_goals = current_goal < goal_count && goal_count - current_goal > 1;
    match best_plan {
        Some(p) => {
            if p.action_chain.len() == 0 && more_goals {
                GoalTransition::NextGoal
            } else {
                GoalTransition::Finish
            }
        },
        None => {
            if more_goals {
                GoalTransition::NextGoal
            } else {
                GoalTransition::Finish
            }
        },
    }
}

/// Whether a completed verification pass ends the search at once: under
/// `FirstComplete`, when a plan is recorded, unless it is empty (its goal was
/// already satisfied) and more goals remain.
pub fn stops_on_complete(
    strategy: TerminationStrategy,
    best_plan: &Option<PlanResult>,
    current_goal: usize,
    goal_count: usize,
) -> (r: bool)
    ensures
        r == (strategy == TerminationStrategy::FirstComplete && match best_plan {
            Some(p) => !(p.action_chain@.len() == 0 && current_goal + 1 < goal_count),
            None => false,
        }),
{
    match strategy {
        TerminationStrategy::FirstComplete => match best_plan {
            Some(p) => !(p.action_chain.len() == 0 && current_goal < goal_count && goal_count - current_goal > 1),
            None => false,
        },
        TerminationStrategy::BestCost => false,
    }
}


/// The root branch of a goal: empty, for the goal's original index, with the
/// goal's desired preconditions that do not hold initially (`initially_holds[i]`
/// for the i-th, as settled by the caller) open at chain position 0.
pub fn root_branch(
    desired_state: &Vec<PreconditionSpec>,
    original_index: usize,
    initially_holds: &Vec<bool>,
    initial_agent: &BlackboardSnapshot,
    initial_world: &BlackboardSnapshot,
) -> (r: PlanBranch)
    requires
        initially_holds@.len() == desired_state@.len(),
    ensures
        pre_entries(r.open_preconditions@) == crate::planner::types::at_position(
            fresh_preconditions(precondition_models(desired_state@), Seq::empty(), initially_holds@),
            0,
        ),
        r.goal_index == original_index,
        r.action_chain@.len() == 0,
        r.action_costs@.len() == 0,
        r.action_bindings@.len() == 0,
        r.open_requirements@.len() == 0,
        r.state == BranchState::Searching,
        r.simulation_index == 0,
        r.current_agent@ == initial_agent@,
        r.current_world@ == initial_world@,
        r.cost == 0,
        r.tree_node_id == 0,
        positions_within(r),
{
    let mut branch = PlanBranch::new(initial_agent, initial_world);
    branch.goal_index = original_index;
    let ghost pres = precondition_models(desired_state@);
    let ghost empty = Seq::<(usize, PreconditionModel)>::empty();
    let mut i: usize = 0;
    assert(pres.take(0) =~= Seq::<PreconditionModel>::empty());
    assert(pre_entries(branch.open_preconditions@) =~= crate::planner::types::at_position(Seq::<PreconditionModel>::empty(), 0));
    while i < desired_state.len()
        invariant
            pres == precondition_models(desired_state@),
            empty == Seq::<(usize, PreconditionModel)>::empty(),
            initially_holds@.len() == desired_state@.len(),
            i <= desired_state.len(),
            pre_entries(branch.open_preconditions@) == crate::planner::types::at_position(
                fresh_preconditions(pres.take(i as int), empty, initially_holds@.take(i as int)),
                0,
            ),
            branch.goal_index == original_index,
            branch.action_chain@.len() == 0,
            branch.action_costs@.len() == 0,
            branch.action_bindings@.len() == 0,
            branch.open_requirements@.len() == 0,
            branch.state == BranchState::Searching,
            branch.simulation_index == 0,
            branch.current_agent@ == initial_agent@,
            branch.current_world@ == initial_world@,
            branch.cost == 0,
            branch.tree_node_id == 0,
        decreases desired_state.len() - i,
    {
        assert(pres.take(i + 1).drop_last() =~= pres.take(i as int));
        assert(pres.take(i + 1).last() == desired_state@[i as int]@);
        assert(initially_holds@.take(i + 1).take(i as int) =~= initially_holds@.take(i as int));
        proof {
            lemma_fresh_preconditions_prefix(pres.take(i + 1), empty, initially_holds@.take(i + 1), initially_holds@.take(i as int));
        }
        let ghost before = fresh_preconditions(pres.take(i as int), empty, initially_holds@.take(i as int));
        assert(initially_holds@.take(i + 1)[i as int] == initially_holds@[i as int]);
        assert(fresh_preconditions(pres.take(i + 1), empty, initially_holds@.take(i + 1)) == if initially_holds@[i as int] {
            before
        } else {
            before.push(desired_state@[i as int]@)
        });
        if !initially_holds[i] {
            let ghost old_open = branch.open_preconditions@;
            branch.open_preconditions.push((0, desired_state[i].copy()));
            assert(pre_entries(branch.open_preconditions@) =~= pre_entries(old_open).push((0usize, desired_state@[i as int]@)));
            assert(crate::planner::types::at_position(before.push(desired_state@[i as int]@), 0)
                =~= crate::planner::types::at_position(before, 0).push((0usize, desired_state@[i as int]@)));
        }
        i = i + 1;
    }
    assert(pres.take(desired_state.len() as int) =~= pres);
    assert(initially_holds@.take(desired_state.len() as int) =~= initially_holds@);
    branch
}


/// A searching branch may be expanded while its chain is shorter than the depth limit.
pub fn can_expand(branch: &PlanBranch, max_depth: usize) -> (r: bool)
    ensures
        r == (branch.action_chain@.len() < max_depth),
{
    branch.action_chain.len() < max_depth
}

/// A branch has accumulated more open requirements than a legitimate chain of
/// the depth limit can hold (a requirement cycle).
pub fn requirements_overflow(branch: &PlanBranch, max_depth: usize) -> (r: bool)
    ensures
        r == (branch.open_requirements@.len() > max_depth),
{
    branch.open_requirements.len() > max_depth
}

/// The action's preconditions to re-check against the simulated state at the
/// current chain position: builtin ones that are not open at that position.
pub open spec fn to_validate(
    pres: Seq<PreconditionModel>,
    open: Seq<(usize, PreconditionModel)>,
    position: usize,
) -> Seq<usize>
    decreases pres.len(),
{
    if pres.len() == 0 {
        Seq::empty()
    } else {
        let rest = to_validate(pres.drop_last(), open, position);
        let p = pres.last();
        if p is Custom || (exists|j: int| 0 <= j < open.len() && (#[trigger] open[j]) == (position, p)) {
            rest
        } else {
            rest.push((pres.len() - 1) as usize)
        }
    }
}

/// Indices of the action's preconditions to re-check at the branch's current
/// chain position, in order: builtin ones not open at that position.
pub fn preconditions_to_validate(action: &ActionSpec, branch: &PlanBranch) -> (r: Vec<usize>)
    ensures
        r@ == to_validate(
            precondition_models(action.preconditions@),
            pre_entries(branch.open_preconditions@),
            branch.simulation_index,
        ),
{
    let ghost pres = precondition_models(action.preconditions@);
    let ghost open = pre_entries(branch.open_preconditions@);
    let mut out: Vec<usize> = Vec::new();
    let mut i: usize = 0;
    assert(pres.take(0) =~= Seq::<PreconditionModel>::empty());
    while i < action.preconditions.len()
        invariant
            pres == precondition_models(action.preconditions@),
            open == pre_entries(branch.open_preconditions@),
            i <= action.preconditions.len(),
            out@ == to_validate(pres.take(i as int), open, branch.simulation_index),
        decreases action.preconditions.len() - i,
    {
        assert(pres.take(i + 1).drop_last() =~= pres.take(i as int));
        let pre = &action.preconditions[i];
        assert(pres.take(i + 1).last() == pre@);
        let mut open_here = false;
        let mut j: usize = 0;
        while j < branch.open_preconditions.len()
            invariant
                open == pre_entries(branch.open_preconditions@),
                j <= branch.open_preconditions.len(),
                open_here == exists|k: int| 0 <= k < j && (#[trigger] open[k]) == (branch.simulation_index, pre@),
            decreases branch.open_preconditions.len() - j,
        {
            if branch.open_preconditions[j].0 == branch.simulation_index && branch.open_preconditions[j].1.same_as(pre) {
                assert(open[j as int] == (branch.simulation_index, pre@));
                open_here = true;
            }
            j = j + 1;
        }
        let custom = match pre {
            PreconditionSpec::Custom { .. } => true,
            _ => false,
        };
        if !custom && !open_here {
            out.push(i);
        }
        i = i + 1;
    }
    assert(pres.take(action.preconditions.len() as int) =~= pres);
    out
}


/// What the search does with a branch taken from the queue.
#[derive(Clone, Copy, Debug, PartialEq, Eq, Structural)]
pub enum NodeAction {
    /// Drop the branch: it cannot beat the best plan, or it reached the depth limit.
    Discard,
    /// Continue the verification pass of the branch.
    Simulate,
    /// All needs are matched: start the verification pass.
    StartVerification,
    /// Look for predecessor actions that satisfy its open needs.
    Expand,
}

/// The decision for a branch taken from the queue: one whose cost is not below
/// the best plan's is dropped; a verifying branch continues its verification;
/// a searching branch with no open need starts verification; otherwise it is
/// expanded while its chain is shorter than the depth limit, and dropped when
/// it is not.
pub fn dispatch_node(branch: &PlanBranch, cost_not_below_best: bool, max_depth: usize) -> (r: NodeAction)
    ensures
        r == if cost_not_below_best {
            NodeAction::Discard
        } else if branch.state == BranchState::Verifying {
            NodeAction::Simulate
        } else if branch.open_preconditions@.len() == 0 && branch.open_requirements@.len() == 0 {
            NodeAction::StartVerification
        } else if branch.action_chain@.len() < max_depth {
            NodeAction::Expand
        } else {
            NodeAction::Discard
        },
{
    if cost_not_below_best {
        return NodeAction::Discard;
    }
    match branch.state {
        BranchState::Verifying => NodeAction::Simulate,
        BranchState::Searching => {
            if needs_satisfied(branch) {
                NodeAction::StartVerification
            } else if can_expand(branch, max_depth) {
                NodeAction::Expand
            } else {
                NodeAction::Discard
            }
        },
    }
}


/// What evaluating one precondition during a chain walk gave.
#[derive(Clone, Copy, Debug, PartialEq, Eq, Structural)]
pub enum CheckResult {
    /// The precondition holds.
    Holds,
    /// The precondition does not hold.
    Fails,
    /// The answer waits on the callback request with this id.
    Pending(usize),
    /// The evaluation could not be carried out.
    Broken,
}

/// What a chain walk does after one precondition check.
#[derive(Clone, Copy, Debug, PartialEq, Eq, Structural)]
pub enum CheckStep {
    /// Go on with the walk.
    Next,
    /// Drop the branch.
    Prune,
    /// Park the branch until the callback request with this id is answered.
    Wait(usize),
}

/// A check that holds lets the walk go on; a failing one prunes a verifying
/// branch and is passed over while searching; a pending one parks the branch;
/// a broken one prunes it.
pub open spec fn check_step_spec(state: BranchState, result: CheckResult) -> CheckStep {
    match result {
        CheckResult::Holds => CheckStep::Next,
        CheckResult::Fails => if state == BranchState::Verifying {
            CheckStep::Prune
        } else {
            CheckStep::Next
        },
        CheckResult::Pending(id) => CheckStep::Wait(id),
        CheckResult::Broken => CheckStep::Prune,
    }
}

/// Decides the walk's next step after one precondition check of a branch in `state`.
pub fn check_step(state: BranchState, result: CheckResult) -> (r: CheckStep)
    ensures
        r == check_step_spec(state, result),
{
    match result {
        CheckResult::Holds => CheckStep::Next,
        CheckResult::Fails => if state == BranchState::Verifying {
            CheckStep::Prune
        } else {
            CheckStep::Next
        },
        CheckResult::Pending(id) => CheckStep::Wait(id),
        CheckResult::Broken => CheckStep::Prune,
    }
}

/// The index of the first open precondition at or after `from` that belongs to
/// the branch's current chain position, if any.
pub fn next_open_at_position(branch: &PlanBranch, from: usize) -> (r: Option<usize>)
    ensures
        match r {
            Some(i) => from <= i < branch.open_preconditions@.len() && branch.open_preconditions@[i as int].0
                == branch.simulation_index && forall|j: int|
                from <= j < i ==> (#[trigger] branch.open_preconditions@[j]).0 != branch.simulation_index,
            None => forall|j: int|
                from <= j < branch.open_preconditions@.len() ==> (#[trigger] branch.open_preconditions@[j]).0
                    != branch.simulation_index,
        },
{
    let mut i: usize = from;
    while i < branch.open_preconditions.len()
        invariant
            from <= i,
            forall|j: int| from <= j < i ==> (#[trigger] branch.open_preconditions@[j]).0 != branch.simulation_index,
        decreases branch.open_preconditions.len() - i,
    {
        if branch.open_preconditions[i].0 == branch.simulation_index {
            return Some(i);
        }
        i = i + 1;
    }
    None
}

/// Removes the open precondition at index `i`, once it holds at its position.
pub fn discharge_open_precondition(branch: &mut PlanBranch, i: usize)
    requires
        i < old(branch).open_preconditions@.len(),
    ensures
        final(branch).open_preconditions@ == old(branch).open_preconditions@.remove(i as int),
        final(branch).open_requirements@ == old(branch).open_requirements@,
        final(branch).action_bindings@ == old(branch).action_bindings@,
        final(branch).action_chain@ == old(branch).action_chain@,
        final(branch).action_costs@ == old(branch).action_costs@,
        final(branch).state == old(branch).state,
        final(branch).simulation_index == old(branch).simulation_index,
        final(branch).current_agent@ == old(branch).current_agent@,
        final(branch).current_world@ == old(branch).current_world@,
        final(branch).cost == old(branch).cost,
        final(branch).goal_index == old(branch).goal_index,
        final(branch).tree_node_id == old(branch).tree_node_id,
        positions_within(*old(branch)) ==> positions_within(*final(branch)),
{
    let ghost before = branch.open_preconditions@;
    branch.open_preconditions.remove(i);
    proof {
        let n = branch.action_chain@.len();
        if within(pre_entries(before), n) {
            assert forall|k: int| 0 <= k < pre_entries(branch.open_preconditions@).len() implies (
            #[trigger] pre_entries(branch.open_preconditions@)[k]).0 <= n by {
                if k < i {
                    assert(branch.open_preconditions@[k] == before[k]);
                    assert(pre_entries(before)[k].0 <= n);
                } else {
                    assert(branch.open_preconditions@[k] == before[k + 1]);
                    assert(pre_entries(before)[k + 1].0 <= n);
                }
            }
        }
    }
}

/// A validity check is a hard requirement: it lets an action through only when
/// it holds, whatever the branch's state; a pending one makes the discovery
/// wait.
pub fn validity_step(result: CheckResult) -> (r: CheckStep)
    ensures
        r == check_step_spec(BranchState::Verifying, result),
{
    check_step(BranchState::Verifying, result)
}

/// What candidate discovery does for an (action, bindings) pair, given its
/// simulation caches.
#[derive(Clone, Copy, Debug, PartialEq, Eq, Structural)]
pub enum DiscoveryAction {
    /// Use the cached simulation result.
    UseCached,
    /// Wait on the simulation request with this id, still in flight.
    Wait(usize),
    /// Simulate the action now; `forget_pending` when a recorded request is
    /// no longer in flight and its record is dropped first.
    Simulate { forget_pending: bool },
}

/// A cached result is used; else a recorded request still in flight is waited
/// on; else the action is simulated, dropping the record of a request no
/// longer in flight.
pub open spec fn discovery_action_spec(cached: bool, pending: Option<usize>, in_flight: bool) -> DiscoveryAction {
    if cached {
        DiscoveryAction::UseCached
    } else {
        match pending {
            Some(id) => if in_flight {
                DiscoveryAction::Wait(id)
            } else {
                DiscoveryAction::Simulate { forget_pending: true }
            },
            None => DiscoveryAction::Simulate { forget_pending: false },
        }
    }
}

/// Decides how candidate discovery gets a simulation result: `cached` when the
/// result is cached, `pending` the recorded request id if any, `in_flight`
/// whether that request is still awaited.
pub fn discovery_action(cached: bool, pending: Option<usize>, in_flight: bool) -> (r: DiscoveryAction)
    ensures
        r == discovery_action_spec(cached, pending, in_flight),
{
    if cached {
        DiscoveryAction::UseCached
    } else {
        match pending {
            Some(id) => if in_flight {
                DiscoveryAction::Wait(id)
            } else {
                DiscoveryAction::Simulate { forget_pending: true }
            },
            None => DiscoveryAction::Simulate { forget_pending: false },
        }
    }
}

} // verus!
