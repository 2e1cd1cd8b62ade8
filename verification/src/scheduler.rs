//! Decisions of the background planning scheduler.
//!
//! The scheduler's driver owns the engine-facing parts (thread pool, callable
//! registry, per-frame callback dispatch); the choices it makes on plain data
//! are made here: clamping job limits, collecting the facts world objects
//! provide and the object ids an action depends on, writing bindings into the
//! state a callable sees, deciding when a job resumes, and turning a finished
//! run into the result that is reported.
use crate::plan_tree::PlanResult;
use crate::plan_types::{GoalSpec, PreconditionSpec};
use crate::planner::goal_selection::reward_key;
use crate::precondition::is_named;
use crate::requirement::{ProvisionModel, ProvisionSpec, binding_models, provision_models};
use crate::snapshot::{
    copy_variant, lookup_property, parse_i64, parsed_i64, property_models, BlackboardSnapshot,
    SimObjectModel, VariantModel, VariantSnapshot,
};
use vstd::prelude::*;

verus! {

broadcast use vstd::std_specs::vec::group_vec_axioms;

/// Rate limiter for the stall notice of a job waiting on a callback: it lets one
/// notice through per distinct pending request id until it is reset.
#[derive(Debug)]
pub struct StallNoticeThrottle {
    logged_ids: Vec<usize>,
}

impl StallNoticeThrottle {
    /// The pending ids whose notice was let through since the last reset.
    pub closed spec fn logged(&self) -> Set<usize> {
        Set::new(|id: usize| self.logged_ids@.contains(id))
    }

    /// Returns true the first time each distinct `pending_id` is seen since the
    /// last reset, and remembers it.
    pub fn should_log(&mut self, pending_id: usize) -> (r: bool)
        ensures
            r == !old(self).logged().contains(pending_id),
            final(self).logged() == old(self).logged().insert(pending_id),
    {
        let mut i: usize = 0;
        while i < self.logged_ids.len()
            invariant
                i <= self.logged_ids@.len(),
                forall|j: int| 0 <= j < i ==> self.logged_ids@[j] != pending_id,
            decreases self.logged_ids.len() - i,
        {
            if self.logged_ids[i] == pending_id {
                assert(self.logged_ids@.contains(pending_id));
                assert(old(self).logged().insert(pending_id) =~= old(self).logged());
                return false;
            }
            i = i + 1;
        }
        let ghost before = self.logged_ids@;
        self.logged_ids.push(pending_id);
        assert(self.logged_ids@[before.len() as int] == pending_id);
        assert forall|id: usize| self.logged_ids@.contains(id) == (before.contains(id) || id == pending_id) by {
            if before.contains(id) {
                let k = choose|k: int| 0 <= k < before.len() && before[k] == id;
                assert(self.logged_ids@[k] == id);
            }
            if self.logged_ids@.contains(id) {
                let k = choose|k: int| 0 <= k < self.logged_ids@.len() && self.logged_ids@[k] == id;
                if k < before.len() {
                    assert(before[k] == id);
                }
            }
        }
        assert(self.logged() =~= old(self).logged().insert(pending_id));
        true
    }

    /// Forgets the remembered ids once the job resumes or finishes waiting.
    pub fn reset(&mut self)
        ensures
            final(self).logged() == Set::<usize>::empty(),
    {
        self.logged_ids = Vec::new();
        assert(self.logged() =~= Set::<usize>::empty());
    }
}

impl Default for StallNoticeThrottle {
    fn default() -> (r: Self)
        ensures
            r.logged() == Set::<usize>::empty(),
    {
        let r = StallNoticeThrottle { logged_ids: Vec::new() };
        assert(r.logged() =~= Set::<usize>::empty());
        r
    }
}

/// Limits of one planning job.
#[derive(Clone, Copy, Debug, PartialEq, Eq)]
pub struct JobLimits {
    pub max_depth: usize,
    pub iteration_budget: usize,
    pub time_slice_ms: u64,
}

/// Clamps the limits a job is submitted with: the depth to at least 1, the
/// iteration budget to at least 100, and the time slice to at least 0 (0 turns
/// time-slicing off).
pub fn clamp_job_limits(max_recursion: i64, iteration_budget: i64, time_slice_ms: i64) -> (r: JobLimits)
    ensures
        r.max_depth == (if max_recursion < 1 { 1 } else { max_recursion }) as usize,
        r.iteration_budget == (if iteration_budget < 100 { 100 } else { iteration_budget }) as usize,
        r.time_slice_ms == (if time_slice_ms < 0 { 0 } else { time_slice_ms }) as u64,
{
    let depth = if max_recursion < 1 { 1 } else { max_recursion };
    let budget = if iteration_budget < 100 { 100 } else { iteration_budget };
    let slice = if time_slice_ms < 0 { 0 } else { time_slice_ms };
    JobLimits {
        max_depth: #[verifier::truncate] (depth as usize),
        iteration_budget: #[verifier::truncate] (budget as usize),
        time_slice_ms: slice as u64,
    }
}

/// Whether a yielded job resumes this frame: always after yielding for budget
/// (pending id 0); after waiting on a callback, once a response arrived this
/// frame or was already delivered for the pending request.
pub fn ready_to_resume(pending_request_id: usize, has_response_this_frame: bool, already_answered: bool) -> (r: bool)
    ensures
        r == (pending_request_id == 0 || has_response_this_frame || already_answered),
{
    if pending_request_id == 0 {
        true
    } else {
        has_response_this_frame || already_answered
    }
}

/// The result reported for a finished run. With no result, the run reports an
/// empty success for the goal already satisfied by the initial state (when there
/// is one), or else a failure. A failed result is turned into an empty-cost
/// success for that satisfied goal, when there is one.
pub fn resolve_completed_plan(result: Option<PlanResult>, satisfied_goal_index: i64) -> (r: PlanResult)
    ensures
        match result {
            None => if satisfied_goal_index >= 0 {
                r.success && r.action_chain@.len() == 0 && r.total_cost == 0 && r.goal_index
                    == satisfied_goal_index && r.deferred_action_indices@.len() == 0
                    && r.action_bindings@.len() == 0
            } else {
                !r.success && r.action_chain@.len() == 0 && r.total_cost == 0 && r.goal_index == -1
                    && r.deferred_action_indices@.len() == 0 && r.action_bindings@.len() == 0
            },
            Some(p) => if !p.success && satisfied_goal_index >= 0 {
                r.success && r.goal_index == satisfied_goal_index && r.total_cost == 0 && r.action_chain
                    == p.action_chain && r.deferred_action_indices == p.deferred_action_indices
                    && r.action_bindings == p.action_bindings
            } else {
                r == p
            },
        },
{
    match result {
        None => {
            if satisfied_goal_index >= 0 {
                PlanResult {
                    success: true,
                    action_chain: Vec::new(),
                    total_cost: 0,
                    goal_index: satisfied_goal_index,
                    deferred_action_indices: Vec::new(),
                    action_bindings: Vec::new(),
                }
            } else {
                PlanResult {
                    success: false,
                    action_chain: Vec::new(),
                    total_cost: 0,
                    goal_index: -1,
                    deferred_action_indices: Vec::new(),
                    action_bindings: Vec::new(),
                }
            }
        },
        Some(p) => {
            let mut p = p;
            if !p.success && satisfied_goal_index >= 0 {
                p.success = true;
                p.goal_index = satisfied_goal_index;
                p.total_cost = 0;
            }
            p
        },
    }
}

/// Appends `item` to a registry and returns its index.
pub fn register_callable<T>(registry: &mut Vec<T>, item: T) -> (id: usize)
    ensures
        id == old(registry)@.len(),
        final(registry)@ == old(registry)@.push(item),
{
    let id = registry.len();
    registry.push(item);
    id
}

/// Object ids an action depends on: those of its preconditions, then those of its
/// validity checks, then its own.
pub open spec fn dependent_ids_spec(
    preconditions: Seq<PreconditionSpec>,
    checks: Seq<PreconditionSpec>,
    own: Seq<i64>,
) -> Seq<i64> {
    precondition_ids(preconditions) + precondition_ids(checks) + own
}

/// The dependent ids of a list of preconditions, in order.
pub open spec fn precondition_ids(s: Seq<PreconditionSpec>) -> Seq<i64>
    decreases s.len(),
{
    if s.len() == 0 {
        Seq::empty()
    } else {
        precondition_ids(s.drop_last()) + match s.last()@ {
            crate::plan_types::PreconditionModel::Custom { deps, .. } => deps,
            _ => Seq::empty(),
        }
    }
}

fn append_precondition_ids(out: &mut Vec<i64>, pres: &Vec<PreconditionSpec>)
    ensures
        final(out)@ == old(out)@ + precondition_ids(pres@),
{
    let ghost base = out@;
    let mut i: usize = 0;
    assert(pres@.take(0) =~= Seq::<PreconditionSpec>::empty());
    assert(base + precondition_ids(pres@.take(0)) =~= base);
    while i < pres.len()
        invariant
            i <= pres.len(),
            out@ == base + precondition_ids(pres@.take(i as int)),
        decreases pres.len() - i,
    {
        assert(pres@.take(i + 1).drop_last() =~= pres@.take(i as int));
        assert(pres@.take(i + 1).last() == pres@[i as int]);
        let ids = pres[i].dependent_object_ids();
        let ghost before = out@;
        let mut j: usize = 0;
        while j < ids.len()
            invariant
                j <= ids@.len(),
                out@ == before + ids@.take(j as int),
            decreases ids.len() - j,
        {
            out.push(ids[j]);
            assert(ids@.take(j + 1) =~= ids@.take(j as int).push(ids@[j as int]));
            j = j + 1;
        }
        assert(ids@.take(ids@.len() as int) =~= ids@);
        assert(out@ =~= base + precondition_ids(pres@.take(i + 1)));
        i = i + 1;
    }
    assert(pres@.take(pres.len() as int) =~= pres@);
}

/// The object ids an action depends on: those of its preconditions, then those of
/// its validity checks, then the action's own.
pub fn collect_dependent_object_ids(
    preconditions: &Vec<PreconditionSpec>,
    validity_checks: &Vec<PreconditionSpec>,
    own: &Vec<i64>,
) -> (r: Vec<i64>)
    ensures
        r@ == dependent_ids_spec(preconditions@, validity_checks@, own@),
{
    let mut out: Vec<i64> = Vec::new();
    append_precondition_ids(&mut out, preconditions);
    append_precondition_ids(&mut out, validity_checks);
    let ghost before = out@;
    let mut j: usize = 0;
    while j < own.len()
        invariant
            j <= own@.len(),
            out@ == before + own@.take(j as int),
        decreases own.len() - j,
    {
        out.push(own[j]);
        assert(own@.take(j + 1) =~= own@.take(j as int).push(own@[j as int]));
        j = j + 1;
    }
    assert(own@.take(own@.len() as int) =~= own@);
    assert(out@ =~= dependent_ids_spec(preconditions@, validity_checks@, own@));
    out
}

/// The arguments of a fact an object provides: its uid as an integer, when the
/// uid is a decimal `i64`; none otherwise.
pub open spec fn uid_args(uid: Seq<char>) -> Seq<VariantModel> {
    match parsed_i64(uid) {
        Some(id) => seq![VariantModel::Int(id)],
        None => Seq::empty(),
    }
}

/// The facts one world object provides: one per `provides` property holding a
/// string, in property order, named by that string.
pub open spec fn object_fact_provisions(uid: Seq<char>, props: Seq<(Seq<char>, VariantModel)>) -> Seq<ProvisionModel>
    decreases props.len(),
{
    if props.len() == 0 {
        Seq::empty()
    } else {
        let rest = object_fact_provisions(uid, props.drop_last());
        let (k, v) = props.last();
        match v {
            VariantModel::Str(name) => if k == "provides"@ {
                rest.push(ProvisionModel::Fact { name, args: uid_args(uid) })
            } else {
                rest
            },
            _ => rest,
        }
    }
}

/// The facts the world objects provide, object by object.
pub open spec fn world_fact_provisions(objects: Seq<(Seq<char>, SimObjectModel)>) -> Seq<ProvisionModel>
    decreases objects.len(),
{
    if objects.len() == 0 {
        Seq::empty()
    } else {
        world_fact_provisions(objects.drop_last()) + object_fact_provisions(
            objects.last().0,
            objects.last().1.properties,
        )
    }
}

fn append_object_facts(out: &mut Vec<ProvisionSpec>, uid: &String, props: &Vec<(String, VariantSnapshot)>)
    ensures
        provision_models(final(out)@) == provision_models(old(out)@) + object_fact_provisions(
            uid@,
            property_models(props@),
        ),
{
    let ghost base = provision_models(out@);
    let ghost pm = property_models(props@);
    let id = parse_i64(uid);
    assert(pm.take(0) =~= Seq::<(Seq<char>, VariantModel)>::empty());
    assert(base + object_fact_provisions(uid@, pm.take(0)) =~= base);
    let mut i: usize = 0;
    while i < props.len()
        invariant
            pm == property_models(props@),
            id == parsed_i64(uid@),
            i <= props.len(),
            provision_models(out@) == base + object_fact_provisions(uid@, pm.take(i as int)),
        decreases props.len() - i,
    {
        assert(pm.take(i + 1).drop_last() =~= pm.take(i as int));
        assert(pm.take(i + 1).last() == (props@[i as int].0@, props@[i as int].1@));
        if is_named(&props[i].0, "provides") {
            match &props[i].1 {
                VariantSnapshot::Str(name) => {
                    let mut args: Vec<VariantSnapshot> = Vec::new();
                    match id {
                        Some(v) => {
                            args.push(VariantSnapshot::Int(v));
                        },
                        None => {},
                    }
                    proof {
                        reveal_with_fuel(crate::snapshot::variant_models, 2);
                        assert(crate::snapshot::variant_models(args@) =~= uid_args(uid@));
                    }
                    let ghost before = provision_models(out@);
                    out.push(ProvisionSpec::Fact { fact_name: name.clone(), args });
                    assert(provision_models(out@) =~= before.push(out@[out@.len() - 1]@));
                },
                _ => {},
            }
        }
        i = i + 1;
    }
    assert(pm.take(props.len() as int) =~= pm);
}

/// Facts the world objects provide through a `provides` string property, object
/// by object and property by property; a fact's single argument is the object's
/// uid as an integer when the uid is a decimal `i64`, and it has none otherwise.
pub fn extract_provisions_from_snapshot(snap: &BlackboardSnapshot) -> (r: Vec<ProvisionSpec>)
    ensures
        provision_models(r@) == world_fact_provisions(snap@.objects),
{
    let ghost objs = snap@.objects;
    let mut out: Vec<ProvisionSpec> = Vec::new();
    let mut i: usize = 0;
    assert(objs.take(0) =~= Seq::<(Seq<char>, SimObjectModel)>::empty());
    while i < snap.objects.len()
        invariant
            objs == snap@.objects,
            i <= snap.objects.len(),
            provision_models(out@) == world_fact_provisions(objs.take(i as int)),
        decreases snap.objects.len() - i,
    {
        assert(objs.take(i + 1).drop_last() =~= objs.take(i as int));
        assert(objs.take(i + 1).last() == (snap.objects@[i as int].0@, snap.objects@[i as int].1@));
        append_object_facts(&mut out, &snap.objects[i].0, &snap.objects[i].1.properties);
        i = i + 1;
    }
    assert(objs.take(snap.objects.len() as int) =~= objs);
    out
}

/// The value a property holds after bindings are written over it in order: the
/// first value of the last non-empty binding with that name, or `base` when
/// there is none.
pub open spec fn injected_property(
    bindings: Seq<(Seq<char>, Seq<VariantModel>)>,
    key: Seq<char>,
    base: Option<VariantModel>,
) -> Option<VariantModel>
    decreases bindings.len(),
{
    if bindings.len() == 0 {
        base
    } else if bindings.last().0 == key && bindings.last().1.len() > 0 {
        Some(bindings.last().1[0])
    } else {
        injected_property(bindings.drop_last(), key, base)
    }
}

/// Writes each non-empty binding's first value into the snapshot's properties
/// under the binding's name, in order; world objects are left alone.
pub fn inject_bindings_into_snapshot(snap: &mut BlackboardSnapshot, bindings: &[(String, Vec<VariantSnapshot>)])
    ensures
        forall|k: Seq<char>|
            #![trigger lookup_property(final(snap)@.properties, k)]
            lookup_property(final(snap)@.properties, k) == injected_property(
                binding_models(bindings@),
                k,
                lookup_property(old(snap)@.properties, k),
            ),
        final(snap)@.objects == old(snap)@.objects,
        old(snap)@.well_formed() ==> final(snap)@.well_formed(),
{
    let ghost bm = binding_models(bindings@);
    let ghost start = old(snap)@;
    let mut i: usize = 0;
    proof {
        assert(bm.take(0) =~= Seq::<(Seq<char>, Seq<VariantModel>)>::empty());
    }
    while i < bindings.len()
        invariant
            bm == binding_models(bindings@),
            i <= bindings.len(),
            snap@.objects == start.objects,
            start.well_formed() ==> snap@.well_formed(),
            forall|k: Seq<char>|
                #![trigger lookup_property(snap@.properties, k)]
                lookup_property(snap@.properties, k) == injected_property(
                    bm.take(i as int),
                    k,
                    lookup_property(start.properties, k),
                ),
        decreases bindings.len() - i,
    {
        assert(bm.take(i + 1).drop_last() =~= bm.take(i as int));
        assert(bm.take(i + 1).last() == bm[i as int]);
        let values = &bindings[i].1;
        proof {
            crate::snapshot::lemma_variant_models_len(values@);
        }
        if values.len() > 0 {
            proof {
                crate::snapshot::lemma_variant_models_index(values@, 0);
            }
            let v = copy_variant(&values[0]);
            snap.set_property(bindings[i].0.clone(), v);
        }
        assert forall|k: Seq<char>|
            #![trigger lookup_property(snap@.properties, k)]
            lookup_property(snap@.properties, k) == injected_property(
                bm.take(i + 1),
                k,
                lookup_property(start.properties, k),
            ) by {}
        i = i + 1;
    }
    assert(bm.take(bindings.len() as int) =~= bm);
}

/// The bit pattern of negative infinity.
pub const NEGATIVE_INFINITY_BITS: u64 = 0xFFF0_0000_0000_0000u64;

/// The float bit pattern is a NaN: all exponent bits set and a non-zero mantissa.
pub open spec fn is_nan_bits(b: u64) -> bool {
    (b / 0x10_0000_0000_0000u64) % 0x800 == 0x7FF && b % 0x10_0000_0000_0000u64 != 0
}

/// The float `a` is a greater number than the float `b`; a NaN is greater than
/// nothing and nothing is greater than a NaN.
pub open spec fn reward_greater(a: u64, b: u64) -> bool {
    !is_nan_bits(a) && !is_nan_bits(b) && reward_key(a) > reward_key(b)
}

/// Among the first `k` goals, the satisfied one with the highest reward above
/// minus infinity (the first of equal ones), with the best reward so far.
pub open spec fn best_satisfied(goals: Seq<GoalSpec>, satisfied: Seq<bool>, k: int) -> (Option<int>, u64)
    decreases k,
{
    if k <= 0 {
        (None, NEGATIVE_INFINITY_BITS)
    } else {
        let (best, reward) = best_satisfied(goals, satisfied, k - 1);
        if satisfied[k - 1] && reward_greater(goals[k - 1].reward_bits, reward) {
            (Some(k - 1), goals[k - 1].reward_bits)
        } else {
            (best, reward)
        }
    }
}

/// The goal reported when the initial state already satisfies every goal: the
/// original index of the satisfied goal with the highest reward (the first of
/// equal ones), or -1 when some goal is still unsatisfied or none has a reward
/// above minus infinity.
pub open spec fn satisfied_goal_spec(goals: Seq<GoalSpec>, satisfied: Seq<bool>) -> i64 {
    if satisfied.contains(false) {
        -1i64
    } else {
        match best_satisfied(goals, satisfied, goals.len() as int).0 {
            Some(i) => goals[i].original_index as i64,
            None => -1i64,
        }
    }
}

fn is_nan_bits_exec(b: u64) -> (r: bool)
    ensures
        r == is_nan_bits(b),
{
    (b / 0x10_0000_0000_0000u64) % 0x800 == 0x7FF && b % 0x10_0000_0000_0000u64 != 0
}

/// Computes `satisfied_goal_spec`; `satisfied[i]` tells whether the initial
/// state satisfies goal `i`.
pub fn satisfied_goal_index(goals: &Vec<GoalSpec>, satisfied: &Vec<bool>) -> (r: i64)
    requires
        satisfied@.len() == goals@.len(),
    ensures
        r == satisfied_goal_spec(goals@, satisfied@),
{
    let mut best: Option<usize> = None;
    let mut best_reward: u64 = NEGATIVE_INFINITY_BITS;
    let mut all_satisfied = true;
    let mut i: usize = 0;
    while i < goals.len()
        invariant
            i <= goals@.len(),
            satisfied@.len() == goals@.len(),
            (match best {
                Some(b) => Some(b as int),
                None => None,
            }, best_reward) == best_satisfied(goals@, satisfied@, i as int),
            all_satisfied == !satisfied@.take(i as int).contains(false),
            best matches Some(b) ==> b < i,
        decreases goals.len() - i,
    {
        let r = goals[i].reward_bits;
        if satisfied[i] && !is_nan_bits_exec(r) && !is_nan_bits_exec(best_reward)
            && crate::planner::goal_selection::reward_key_of(r) > crate::planner::goal_selection::reward_key_of(best_reward) {
            best = Some(i);
            best_reward = r;
        }
        if !satisfied[i] {
            all_satisfied = false;
        }
        proof {
            let next = satisfied@.take(i + 1);
            assert(next =~= satisfied@.take(i as int).push(satisfied@[i as int]));
            if !satisfied@[i as int] {
                assert(next[i as int] == false);
            } else if satisfied@.take(i as int).contains(false) {
                let j = choose|j: int| 0 <= j < i && satisfied@.take(i as int)[j] == false;
                assert(next[j] == false);
            } else {
                assert forall|j: int| 0 <= j < next.len() implies next[j] != false by {
                    if j < i {
                        assert(satisfied@.take(i as int)[j] == next[j]);
                    }
                }
            }
        }
        i = i + 1;
    }
    assert(satisfied@.take(goals@.len() as int) =~= satisfied@);
    if !all_satisfied {
        return -1;
    }
    match best {
        Some(b) => goals[b].original_index as i64,
        None => -1,
    }
}

} // verus!
