//! Candidate action discovery: which actions can satisfy a branch's open needs.
//!
//! The symbolic layer matches action provisions against open requirements. The
//! simulation layer (matching action effects against open preconditions) runs
//! through the scripting callbacks and stays with the engine's driver.
use crate::plan_types::ActionSpec;
use crate::planner::types::{PlanBranch, ProvisionKind, match_entries, req_entries};
use crate::requirement::{
    ProvisionModel, ProvisionSpec, RequirementModel, RequirementSpec, binding_models, provision_models,
    provision_satisfies, provision_satisfies_requirement,
};
use crate::snapshot::{BlackboardModel, BlackboardSnapshot, VariantModel, VariantSnapshot, copy_variants, variant_models};
use vstd::prelude::*;

verus! {

broadcast use vstd::std_specs::vec::group_vec_axioms;

/// The index key under which a provision is filed.
pub open spec fn provision_key(p: ProvisionModel) -> (ProvisionKind, Seq<char>) {
    match p {
        ProvisionModel::Binding { name, .. } => (ProvisionKind::Binding, name),
        ProvisionModel::Fact { name, .. } => (ProvisionKind::Fact, name),
        ProvisionModel::FactWildcard { name } => (ProvisionKind::FactWildcard, name),
    }
}

/// The index key under which providers of a requirement are looked up.
pub open spec fn requirement_key(r: RequirementModel) -> (ProvisionKind, Seq<char>) {
    match r {
        RequirementModel::BindingExists { name } => (ProvisionKind::Binding, name),
        RequirementModel::BindingEquals { name, .. } => (ProvisionKind::Binding, name),
        RequirementModel::BindingInSet { name, .. } => (ProvisionKind::Binding, name),
        RequirementModel::Fact { name, .. } => (ProvisionKind::Fact, name),
    }
}

/// A provision is filed under a key that answers the lookup for `r`: its own key,
/// or, for a fact requirement, the wildcard key of the same fact.
pub open spec fn key_answers(p: ProvisionModel, r: RequirementModel) -> bool {
    provision_key(p) == requirement_key(r) || (r is Fact && provision_key(p) == (
        ProvisionKind::FactWildcard,
        requirement_key(r).1,
    ))
}

/// The action has a wildcard fact provision.
pub open spec fn has_wildcard(provs: Seq<ProvisionModel>) -> bool {
    exists|i: int| 0 <= i < provs.len() && (#[trigger] provs[i]) is FactWildcard
}

/// The action is a candidate for the branch: it has no wildcard provision, or one
/// of its provisions is filed under a key that answers an open requirement.
pub open spec fn is_candidate(provs: Seq<ProvisionModel>, reqs: Seq<(usize, RequirementModel)>) -> bool {
    !has_wildcard(provs) || exists|i: int, j: int|
        0 <= i < reqs.len() && 0 <= j < provs.len() && key_answers(#[trigger] provs[j], #[trigger] reqs[i].1)
}

/// The key a provision is filed under.
pub fn provision_index_key(p: &ProvisionSpec) -> (r: (ProvisionKind, String))
    ensures
        (r.0, r.1@) == provision_key(p@),
{
    match p {
        ProvisionSpec::Binding { binding_name, .. } => (ProvisionKind::Binding, binding_name.clone()),
        ProvisionSpec::Fact { fact_name, .. } => (ProvisionKind::Fact, fact_name.clone()),
        ProvisionSpec::FactWildcard { fact_name } => (ProvisionKind::FactWildcard, fact_name.clone()),
    }
}

/// The key under which providers of a requirement are looked up.
pub fn requirement_index_key(r: &RequirementSpec) -> (k: (ProvisionKind, String))
    ensures
        (k.0, k.1@) == requirement_key(r@),
{
    match r {
        RequirementSpec::BindingExists { binding_name }
        | RequirementSpec::BindingEquals { binding_name, .. }
        | RequirementSpec::BindingInSet { binding_name, .. } => (ProvisionKind::Binding, binding_name.clone()),
        RequirementSpec::Fact { fact_name, .. } => (ProvisionKind::Fact, fact_name.clone()),
    }
}

fn key_answers_exec(p: &ProvisionSpec, r: &RequirementSpec) -> (res: bool)
    ensures
        res == key_answers(p@, r@),
{
    let (pk, pn) = provision_index_key(p);
    let (rk, rn) = requirement_index_key(r);
    let names_equal = pn.eq(&rn);
    let is_fact = match r {
        RequirementSpec::Fact { .. } => true,
        _ => false,
    };
    (pk == rk && names_equal) || (is_fact && pk == ProvisionKind::FactWildcard && names_equal)
}

/// Returns true if the action has a wildcard fact provision.
pub fn has_wildcard_provision(action: &ActionSpec) -> (r: bool)
    ensures
        r == has_wildcard(provision_models(action.provisions@)),
{
    let ghost pm = provision_models(action.provisions@);
    let mut i: usize = 0;
    while i < action.provisions.len()
        invariant
            pm == provision_models(action.provisions@),
            i <= action.provisions.len(),
            forall|j: int| 0 <= j < i ==> !((#[trigger] pm[j]) is FactWildcard),
        decreases action.provisions.len() - i,
    {
        if action.provisions[i].is_wildcard() {
            assert(pm[i as int] is FactWildcard);
            return true;
        }
        i = i + 1;
    }
    false
}

/// Indices of the actions to evaluate for a branch, in ascending order and
/// without repetition: every action without a wildcard provision, and every
/// action with a provision filed under a key that answers an open requirement.
pub fn candidate_action_indices(branch: &PlanBranch, actions: &Vec<ActionSpec>) -> (r: Vec<usize>)
    ensures
        forall|i: int| 0 <= i < r@.len() ==> (#[trigger] r@[i]) < actions@.len(),
        forall|i: int, j: int| 0 <= i < j < r@.len() ==> r@[i] < r@[j],
        forall|a: int|
            0 <= a < actions@.len() ==> (r@.contains(a as usize) <==> is_candidate(
                provision_models(actions@[a].provisions@),
                req_entries(branch.open_requirements@),
            )),
{
    let ghost reqs = req_entries(branch.open_requirements@);
    let mut out: Vec<usize> = Vec::new();
    let mut a: usize = 0;
    while a < actions.len()
        invariant
            reqs == req_entries(branch.open_requirements@),
            a <= actions.len(),
            forall|i: int| 0 <= i < out@.len() ==> (#[trigger] out@[i]) < a,
            forall|i: int, j: int| 0 <= i < j < out@.len() ==> out@[i] < out@[j],
            forall|b: int|
                0 <= b < a ==> (out@.contains(b as usize) <==> is_candidate(
                    provision_models(actions@[b].provisions@),
                    reqs,
                )),
        decreases actions.len() - a,
    {
        let action = &actions[a];
        let ghost pm = provision_models(action.provisions@);
        let mut selected = !has_wildcard_provision(action);
        let mut i: usize = 0;
        while i < branch.open_requirements.len()
            invariant
                reqs == req_entries(branch.open_requirements@),
                pm == provision_models(action.provisions@),
                i <= branch.open_requirements.len(),
                selected == (!has_wildcard(pm) || exists|x: int, y: int|
                    0 <= x < i && 0 <= y < pm.len() && key_answers(#[trigger] pm[y], #[trigger] reqs[x].1)),
            decreases branch.open_requirements.len() - i,
        {
            let mut j: usize = 0;
            while j < action.provisions.len()
                invariant
                    reqs == req_entries(branch.open_requirements@),
                    pm == provision_models(action.provisions@),
                    i < branch.open_requirements.len(),
                    j <= action.provisions.len(),
                    selected == (!has_wildcard(pm) || exists|x: int, y: int|
                        (0 <= x < i && 0 <= y < pm.len() || x == i && 0 <= y < j) && key_answers(
                            #[trigger] pm[y],
                            #[trigger] reqs[x].1,
                        )),
                decreases action.provisions.len() - j,
            {
                if key_answers_exec(&action.provisions[j], &branch.open_requirements[i].1) {
                    assert(key_answers(pm[j as int], reqs[i as int].1));
                    selected = true;
                }
                j = j + 1;
            }
            i = i + 1;
        }
        let ghost before = out@;
        if selected {
            out.push(a);
            assert forall|b: int| 0 <= b < a + 1 implies (out@.contains(b as usize) <==> is_candidate(
                provision_models(actions@[b].provisions@),
                reqs,
            )) by {
                if b < a {
                    if before.contains(b as usize) {
                        let k = choose|k: int| 0 <= k < before.len() && before[k] == b as usize;
                        assert(out@[k] == b as usize);
                    }
                    if out@.contains(b as usize) {
                        let k = choose|k: int| 0 <= k < out@.len() && out@[k] == b as usize;
                        assert(k < before.len());
                        assert(before[k] == b as usize);
                    }
                } else {
                    assert(out@[before.len() as int] == a);
                }
            }
        } else {
            assert forall|b: int| 0 <= b < a + 1 implies (out@.contains(b as usize) <==> is_candidate(
                provision_models(actions@[b].provisions@),
                reqs,
            )) by {
                if b == a && out@.contains(b as usize) {
                    let k = choose|k: int| 0 <= k < out@.len() && out@[k] == b as usize;
                    assert(out@[k] < a);
                }
            }
        }
        a = a + 1;
    }
    out
}

/// The first provision (in order) that satisfies `r` in the context of `world`.
pub open spec fn first_satisfying(provs: Seq<ProvisionModel>, r: RequirementModel, world: BlackboardModel) -> Option<ProvisionModel>
    decreases provs.len(),
{
    if provs.len() == 0 {
        None
    } else if provision_satisfies(provs[0], r, Some(world)) {
        Some(provs[0])
    } else {
        first_satisfying(provs.drop_first(), r, world)
    }
}

/// For each open requirement (in order) that some provision satisfies, the
/// requirement's index, the requirement, and the first such provision.
pub open spec fn grouped_matches(
    reqs: Seq<(usize, RequirementModel)>,
    provs: Seq<ProvisionModel>,
    world: BlackboardModel,
) -> Seq<(usize, RequirementModel, ProvisionModel)>
    decreases reqs.len(),
{
    if reqs.len() == 0 {
        Seq::empty()
    } else {
        let rest = grouped_matches(reqs.drop_last(), provs, world);
        match first_satisfying(provs, reqs.last().1, world) {
            Some(p) => rest.push(((reqs.len() - 1) as usize, reqs.last().1, p)),
            None => rest,
        }
    }
}

fn first_satisfying_exec<'a>(provs: &'a Vec<ProvisionSpec>, r: &RequirementSpec, world: &BlackboardSnapshot) -> (res: Option<&'a ProvisionSpec>)
    ensures
        match res {
            Some(p) => first_satisfying(provision_models(provs@), r@, world@) == Some(p@),
            None => first_satisfying(provision_models(provs@), r@, world@) is None,
        },
{
    let ghost pm = provision_models(provs@);
    assert(pm.skip(0) =~= pm);
    let mut i: usize = 0;
    while i < provs.len()
        invariant
            pm == provision_models(provs@),
            i <= provs.len(),
            first_satisfying(pm, r@, world@) == first_satisfying(pm.skip(i as int), r@, world@),
        decreases provs.len() - i,
    {
        assert(pm.skip(i as int).drop_first() =~= pm.skip(i + 1));
        if provision_satisfies_requirement(&provs[i], r, Some(world)) {
            return Some(&provs[i]);
        }
        i = i + 1;
    }
    None
}

/// The requirement matches of an action without wildcard provisions: for each
/// open requirement it satisfies, the first of its provisions that does.
pub fn grouped_requirement_matches(
    branch: &PlanBranch,
    action: &ActionSpec,
    world: &BlackboardSnapshot,
) -> (r: Vec<(usize, RequirementSpec, ProvisionSpec)>)
    ensures
        match_entries(r@) == grouped_matches(
            req_entries(branch.open_requirements@),
            provision_models(action.provisions@),
            world@,
        ),
{
    let ghost reqs = req_entries(branch.open_requirements@);
    let ghost pm = provision_models(action.provisions@);
    let mut out: Vec<(usize, RequirementSpec, ProvisionSpec)> = Vec::new();
    let mut i: usize = 0;
    assert(reqs.take(0) =~= Seq::<(usize, RequirementModel)>::empty());
    while i < branch.open_requirements.len()
        invariant
            reqs == req_entries(branch.open_requirements@),
            pm == provision_models(action.provisions@),
            i <= branch.open_requirements.len(),
            match_entries(out@) == grouped_matches(reqs.take(i as int), pm, world@),
        decreases branch.open_requirements.len() - i,
    {
        assert(reqs.take(i + 1).drop_last() =~= reqs.take(i as int));
        let req = &branch.open_requirements[i].1;
        assert(reqs.take(i + 1).last().1 == req@);
        match first_satisfying_exec(&action.provisions, req, world) {
            Some(p) => {
                let ghost before = match_entries(out@);
                out.push((i, req.copy(), p.copy()));
                assert(match_entries(out@) =~= before.push((i, req@, p@)));
            },
            None => {},
        }
        i = i + 1;
    }
    assert(reqs.take(branch.open_requirements.len() as int) =~= reqs);
    out
}

/// All provisions (in order) that satisfy `r` in the context of `world`.
pub open spec fn all_satisfying(provs: Seq<ProvisionModel>, r: RequirementModel, world: BlackboardModel) -> Seq<ProvisionModel>
    decreases provs.len(),
{
    if provs.len() == 0 {
        Seq::empty()
    } else {
        let rest = all_satisfying(provs.drop_last(), r, world);
        if provision_satisfies(provs.last(), r, Some(world)) {
            rest.push(provs.last())
        } else {
            rest
        }
    }
}

/// For each open requirement in order, every provision that satisfies it, with
/// the requirement's index: one candidate per (requirement, provision) pair.
pub open spec fn wildcard_matches(
    reqs: Seq<(usize, RequirementModel)>,
    provs: Seq<ProvisionModel>,
    world: BlackboardModel,
) -> Seq<(usize, RequirementModel, ProvisionModel)>
    decreases reqs.len(),
{
    if reqs.len() == 0 {
        Seq::empty()
    } else {
        let rest = wildcard_matches(reqs.drop_last(), provs, world);
        let idx = (reqs.len() - 1) as usize;
        let r = reqs.last().1;
        rest + all_satisfying(provs, r, world).map_values(|p: ProvisionModel| (idx, r, p))
    }
}

/// The requirement matches of an action with a wildcard provision: every
/// (open requirement, satisfying provision) pair, requirement by requirement.
pub fn wildcard_requirement_matches(
    branch: &PlanBranch,
    action: &ActionSpec,
    world: &BlackboardSnapshot,
) -> (r: Vec<(usize, RequirementSpec, ProvisionSpec)>)
    ensures
        match_entries(r@) == wildcard_matches(
            req_entries(branch.open_requirements@),
            provision_models(action.provisions@),
            world@,
        ),
{
    let ghost reqs = req_entries(branch.open_requirements@);
    let ghost pm = provision_models(action.provisions@);
    let mut out: Vec<(usize, RequirementSpec, ProvisionSpec)> = Vec::new();
    let mut i: usize = 0;
    assert(reqs.take(0) =~= Seq::<(usize, RequirementModel)>::empty());
    while i < branch.open_requirements.len()
        invariant
            reqs == req_entries(branch.open_requirements@),
            pm == provision_models(action.provisions@),
            i <= branch.open_requirements.len(),
            match_entries(out@) == wildcard_matches(reqs.take(i as int), pm, world@),
        decreases branch.open_requirements.len() - i,
    {
        assert(reqs.take(i + 1).drop_last() =~= reqs.take(i as int));
        let req = &branch.open_requirements[i].1;
        assert(reqs.take(i + 1).last().1 == req@);
        let ghost base = match_entries(out@);
        let mut j: usize = 0;
        assert(pm.take(0) =~= Seq::<ProvisionModel>::empty());
        assert(base + all_satisfying(pm.take(0), req@, world@).map_values(|p: ProvisionModel| (i, req@, p)) =~= base);
        while j < action.provisions.len()
            invariant
                pm == provision_models(action.provisions@),
                j <= action.provisions.len(),
                match_entries(out@) == base + all_satisfying(pm.take(j as int), req@, world@).map_values(
                    |p: ProvisionModel| (i, req@, p),
                ),
            decreases action.provisions.len() - j,
        {
            assert(pm.take(j + 1).drop_last() =~= pm.take(j as int));
            assert(pm.take(j + 1).last() == action.provisions@[j as int]@);
            let prov = &action.provisions[j];
            if provision_satisfies_requirement(prov, req, Some(world)) {
                let ghost before = match_entries(out@);
                out.push((i, req.copy(), prov.copy()));
                assert(match_entries(out@) =~= before.push((i, req@, prov@)));
                assert(all_satisfying(pm.take(j + 1), req@, world@) == all_satisfying(pm.take(j as int), req@, world@).push(prov@));
                assert(all_satisfying(pm.take(j + 1), req@, world@).map_values(|p: ProvisionModel| (i, req@, p))
                    =~= all_satisfying(pm.take(j as int), req@, world@).map_values(|p: ProvisionModel| (i, req@, p)).push((i, req@, prov@)));
            }
            j = j + 1;
        }
        assert(pm.take(action.provisions.len() as int) =~= pm);
        i = i + 1;
    }
    assert(reqs.take(branch.open_requirements.len() as int) =~= reqs);
    out
}

/// The binding map a (provision, requirement) match gives a candidate: the
/// provided binding value, the provided fact arguments, or (for a wildcard) the
/// required fact arguments; none otherwise.
pub open spec fn match_binding_map(p: ProvisionModel, r: RequirementModel) -> Seq<(Seq<char>, Seq<VariantModel>)> {
    match p {
        ProvisionModel::Binding { name, value } => seq![(name, seq![value])],
        ProvisionModel::Fact { name, args } => seq![(name, args)],
        ProvisionModel::FactWildcard { name } => match r {
            RequirementModel::Fact { args, .. } => seq![(name, args)],
            _ => Seq::empty(),
        },
    }
}

/// The binding map a (provision, requirement) match gives a candidate.
pub fn get_bindings_for_match(prov: &ProvisionSpec, req: &RequirementSpec) -> (r: Vec<(String, Vec<VariantSnapshot>)>)
    ensures
        binding_models(r@) == match_binding_map(prov@, req@),
{
    let mut bindings: Vec<(String, Vec<VariantSnapshot>)> = Vec::new();
    match prov {
        ProvisionSpec::Binding { binding_name, value } => {
            let mut vals: Vec<VariantSnapshot> = Vec::new();
            vals.push(crate::snapshot::copy_variant(value));
            proof {
                crate::snapshot::lemma_variant_models_push(Seq::empty(), vals@[0]);
                assert(Seq::<VariantSnapshot>::empty().push(vals@[0]) =~= vals@);
                assert(variant_models(Seq::empty()) =~= Seq::<VariantModel>::empty());
                assert(Seq::<VariantModel>::empty().push(value@) =~= seq![value@]);
            }
            bindings.push((binding_name.clone(), vals));
        },
        ProvisionSpec::Fact { fact_name, args } => {
            bindings.push((fact_name.clone(), copy_variants(args)));
        },
        ProvisionSpec::FactWildcard { fact_name } => match req {
            RequirementSpec::Fact { args, .. } => {
                bindings.push((fact_name.clone(), copy_variants(args)));
            },
            _ => {},
        },
    }
    assert(binding_models(bindings@) =~= match_binding_map(prov@, req@));
    bindings
}


/// An action that can satisfy some open needs of a branch: the requirements it
/// satisfies (requirement index, requirement, provision), the indices of the
/// open preconditions its simulated effect satisfies, and its bindings.
#[derive(Debug)]
pub struct Candidate {
    pub action_idx: usize,
    pub satisfied_requirements: Vec<(usize, RequirementSpec, ProvisionSpec)>,
    pub satisfied_preconditions: Vec<usize>,
    pub bindings: Vec<(String, Vec<VariantSnapshot>)>,
}

/// The positions holding `true`, in ascending order.
pub open spec fn true_indices(s: Seq<bool>) -> Seq<usize>
    decreases s.len(),
{
    if s.len() == 0 {
        Seq::empty()
    } else if s.last() {
        true_indices(s.drop_last()).push((s.len() - 1) as usize)
    } else {
        true_indices(s.drop_last())
    }
}

/// The indices of the open preconditions that hold after an action's simulated
/// effect, given whether each one holds, in order.
pub fn satisfied_precondition_indices(holds: &Vec<bool>) -> (r: Vec<usize>)
    ensures
        r@ == true_indices(holds@),
{
    let mut out: Vec<usize> = Vec::new();
    let mut i: usize = 0;
    assert(holds@.take(0) =~= Seq::<bool>::empty());
    while i < holds.len()
        invariant
            i <= holds.len(),
            out@ == true_indices(holds@.take(i as int)),
        decreases holds.len() - i,
    {
        assert(holds@.take(i + 1).drop_last() =~= holds@.take(i as int));
        if holds[i] {
            out.push(i);
        }
        i = i + 1;
    }
    assert(holds@.take(holds.len() as int) =~= holds@);
    out
}

/// The candidate an action without wildcard provisions gives: one covering all
/// the requirements it satisfies and the preconditions its effect satisfies,
/// with no bindings, when it satisfies anything at all.
pub fn grouped_candidate(
    action_idx: usize,
    satisfied_requirements: Vec<(usize, RequirementSpec, ProvisionSpec)>,
    satisfied_preconditions: Vec<usize>,
) -> (r: Option<Candidate>)
    ensures
        (satisfied_requirements@.len() > 0 || satisfied_preconditions@.len() > 0) ==> {
            &&& r is Some
            &&& r->0.action_idx == action_idx
            &&& r->0.satisfied_requirements == satisfied_requirements
            &&& r->0.satisfied_preconditions == satisfied_preconditions
            &&& r->0.bindings@.len() == 0
        },
        (satisfied_requirements@.len() == 0 && satisfied_preconditions@.len() == 0) ==> r is None,
{
    if satisfied_requirements.len() > 0 || satisfied_preconditions.len() > 0 {
        Some(Candidate { action_idx, satisfied_requirements, satisfied_preconditions, bindings: Vec::new() })
    } else {
        None
    }
}

/// The candidate one (requirement, provision) match of an action with a
/// wildcard provision gives: that single requirement, the preconditions its
/// effect satisfies, and the bindings of the match.
pub fn wildcard_candidate(
    action_idx: usize,
    satisfied: (usize, RequirementSpec, ProvisionSpec),
    satisfied_preconditions: Vec<usize>,
) -> (r: Candidate)
    ensures
        r.action_idx == action_idx,
        r.satisfied_requirements@ == seq![satisfied],
        r.satisfied_preconditions == satisfied_preconditions,
        binding_models(r.bindings@) == match_binding_map(satisfied.2@, satisfied.1@),
{
    let bindings = get_bindings_for_match(&satisfied.2, &satisfied.1);
    let mut reqs: Vec<(usize, RequirementSpec, ProvisionSpec)> = Vec::new();
    reqs.push(satisfied);
    Candidate { action_idx, satisfied_requirements: reqs, satisfied_preconditions, bindings }
}


/// A concrete provision hands its candidate exactly one binding, named by the
/// provision and holding what it provides (the value of a binding, the
/// arguments of a fact), whatever requirement it matched; a wildcard fact hands
/// one holding the arguments of the fact it matched, and nothing otherwise.
pub proof fn lemma_match_binding_from_provision(p: ProvisionModel, r: RequirementModel)
    ensures
        p matches ProvisionModel::Binding { name, value } ==> match_binding_map(p, r).len() == 1
            && match_binding_map(p, r)[0].0 == name && match_binding_map(p, r)[0].1 =~= seq![value],
        p matches ProvisionModel::Fact { name, args } ==> match_binding_map(p, r).len() == 1
            && match_binding_map(p, r)[0].0 == name && match_binding_map(p, r)[0].1 == args,
        p matches ProvisionModel::FactWildcard { name } ==> match r {
            RequirementModel::Fact { args, .. } => match_binding_map(p, r).len() == 1 && match_binding_map(p, r)[0].0
                == name && match_binding_map(p, r)[0].1 == args,
            _ => match_binding_map(p, r).len() == 0,
        },
{
}

} // verus!
