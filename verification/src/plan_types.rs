//! Send-safe action, goal and precondition specs.
//!
//! Builtin preconditions are evaluated directly against snapshots. The
//! structural part of that evaluation (which property, which object, which
//! operation, and every non-numeric comparison) is decided here; a comparison
//! between two numbers is handed back as a [`Comparison::Numeric`] for the
//! floating-point layer to settle.
use crate::precondition::{PreconditionOp, PreconditionTarget, TargetModel};
use crate::requirement::{ProvisionSpec, RequirementSpec};
use crate::snapshot::{
    copy_variant, first_object_in_group, lookup_property, BlackboardModel, BlackboardSnapshot,
    SimObjectModel, VariantModel, VariantSnapshot, find_property,
};
use vstd::prelude::*;
use vstd::string::*;

verus! {

broadcast use vstd::std_specs::vec::group_vec_axioms;

/// Send-safe precondition: a builtin check on snapshot data, or a custom
/// callback identified by its index in the callable registry.
#[derive(Debug, PartialEq, Eq, Hash)]
pub enum PreconditionSpec {
    Builtin {
        target: PreconditionTarget,
        operation: PreconditionOp,
        property_name: String,
        value: Option<VariantSnapshot>,
    },
    Custom {
        callable_id: usize,
        /// Object instance ids this precondition depends on.
        dependent_object_ids: Vec<i64>,
    },
}

/// Mathematical model of a [`PreconditionSpec`].
pub enum PreconditionModel {
    Builtin { target: TargetModel, op: PreconditionOp, name: Seq<char>, value: Option<VariantModel> },
    Custom { callable_id: usize, deps: Seq<i64> },
}

pub open spec fn option_model(v: Option<VariantSnapshot>) -> Option<VariantModel> {
    match v {
        Some(x) => Some(x@),
        None => None,
    }
}

impl View for PreconditionSpec {
    type V = PreconditionModel;

    open spec fn view(&self) -> PreconditionModel {
        match self {
            PreconditionSpec::Builtin { target, operation, property_name, value } => PreconditionModel::Builtin {
                target: target@,
                op: *operation,
                name: property_name@,
                value: option_model(*value),
            },
            PreconditionSpec::Custom { callable_id, dependent_object_ids } => PreconditionModel::Custom {
                callable_id: *callable_id,
                deps: dependent_object_ids@,
            },
        }
    }
}

pub open spec fn precondition_models(s: Seq<PreconditionSpec>) -> Seq<PreconditionModel> {
    s.map_values(|p: PreconditionSpec| p@)
}

/// A number read from a snapshot value: an integer or a float bit pattern.
#[derive(Clone, Copy, Debug, PartialEq, Eq, Hash, Structural)]
pub enum NumberSnapshot {
    Int(i64),
    FloatBits(u64),
}

/// Outcome of one builtin comparison: decided, or a numeric comparison to settle.
#[derive(Clone, Copy, Debug, PartialEq, Eq, Hash, Structural)]
pub enum Comparison {
    Decided(bool),
    /// `property op expected`, compared numerically with a tolerance of 1e-4.
    Numeric { op: PreconditionOp, property: NumberSnapshot, expected: NumberSnapshot },
}

/// Result of evaluating a precondition on snapshots without any callback.
#[derive(Debug, PartialEq, Eq)]
pub enum BuiltinEvaluation {
    /// A custom precondition: it needs its callback.
    Custom,
    /// The precondition holds exactly when one of these comparisons holds.
    AnyOf(Vec<Comparison>),
}

/// The number a snapshot value stands for, if it is numeric.
pub open spec fn as_number(v: VariantModel) -> Option<NumberSnapshot> {
    match v {
        VariantModel::Int(i) => Some(NumberSnapshot::Int(i)),
        VariantModel::Float(f) => Some(NumberSnapshot::FloatBits(f)),
        _ => None,
    }
}

/// Operations that compare two numbers.
pub open spec fn is_numeric_op(op: PreconditionOp) -> bool {
    match op {
        PreconditionOp::Equal | PreconditionOp::NotEqual | PreconditionOp::GreaterThan
        | PreconditionOp::GreaterThanOrEqual | PreconditionOp::LessThan
        | PreconditionOp::LessThanOrEqual => true,
        _ => false,
    }
}

/// Equality of two values that are not both numbers: null equals null and the
/// empty string; booleans, strings, integers and object references compare by
/// value; anything else is unequal.
pub open spec fn loose_equal(p: VariantModel, c: VariantModel) -> bool {
    match (p, c) {
        (VariantModel::Nil, VariantModel::Nil) => true,
        (VariantModel::Nil, VariantModel::Str(s)) => s.len() == 0,
        (VariantModel::Str(s), VariantModel::Nil) => s.len() == 0,
        (VariantModel::Bool(a), VariantModel::Bool(b)) => a == b,
        (VariantModel::Str(a), VariantModel::Str(b)) => a == b,
        (VariantModel::Int(a), VariantModel::Int(b)) => a == b,
        (VariantModel::ObjectRef(a), VariantModel::ObjectRef(b)) => a == b,
        _ => false,
    }
}

/// Comparison of a property value with the expected value under `op`.
pub open spec fn compare_spec(op: PreconditionOp, prop: VariantModel, expected: Option<VariantModel>) -> Comparison {
    let c = match expected {
        Some(v) => v,
        None => VariantModel::Nil,
    };
    match (as_number(prop), as_number(c)) {
        (Some(p), Some(n)) => if is_numeric_op(op) {
            Comparison::Numeric { op, property: p, expected: n }
        } else {
            Comparison::Decided(false)
        },
        _ => match op {
            PreconditionOp::Equal => Comparison::Decided(loose_equal(prop, c)),
            PreconditionOp::NotEqual => Comparison::Decided(!loose_equal(prop, c)),
            _ => Comparison::Decided(false),
        },
    }
}

/// Comparison of a named property of one blackboard.
pub open spec fn blackboard_comparison(
    op: PreconditionOp,
    name: Seq<char>,
    expected: Option<VariantModel>,
    source: BlackboardModel,
) -> Comparison {
    match op {
        PreconditionOp::HasProperty => Comparison::Decided(lookup_property(source.properties, name) is Some),
        _ => compare_spec(
            op,
            match lookup_property(source.properties, name) {
                Some(v) => v,
                None => VariantModel::Nil,
            },
            expected,
        ),
    }
}

/// Comparisons for the world objects of `group` whose `property` is set and not null, in object order.
pub open spec fn group_comparisons(
    objects: Seq<(Seq<char>, SimObjectModel)>,
    group: Seq<char>,
    property: Seq<char>,
    op: PreconditionOp,
    expected: Option<VariantModel>,
) -> Seq<Comparison>
    decreases objects.len(),
{
    if objects.len() == 0 {
        Seq::empty()
    } else {
        let rest = group_comparisons(objects.drop_last(), group, property, op, expected);
        let o = objects.last().1;
        if o.groups.contains(group) {
            match lookup_property(o.properties, property) {
                Some(v) => if v is Nil {
                    rest
                } else {
                    rest.push(
                        match op {
                            PreconditionOp::HasProperty => Comparison::Decided(true),
                            _ => compare_spec(op, v, expected),
                        },
                    )
                },
                None => rest,
            }
        } else {
            rest
        }
    }
}

/// What evaluating a precondition on snapshots yields.
pub open spec fn builtin_evaluation(p: PreconditionModel, agent: BlackboardModel, world: BlackboardModel) -> Option<Seq<Comparison>> {
    match p {
        PreconditionModel::Custom { .. } => None,
        PreconditionModel::Builtin { target, op, name, value } => match target {
            TargetModel::Agent => Some(seq![blackboard_comparison(op, name, value, agent)]),
            TargetModel::WorldState => Some(seq![blackboard_comparison(op, name, value, world)]),
            TargetModel::WorldObjectProxy { group, property } => Some(
                group_comparisons(world.objects, group, property, op, value),
            ),
        },
    }
}

/// Evaluating without callbacks leaves exactly the custom preconditions open; an
/// agent precondition reads only the agent's snapshot and a world one only the
/// world's; `HasProperty` on a blackboard is decided by whether the property is
/// there.
pub proof fn lemma_builtin_evaluation_reads(
    p: PreconditionModel,
    agent: BlackboardModel,
    world: BlackboardModel,
    other: BlackboardModel,
)
    ensures
        builtin_evaluation(p, agent, world) is None <==> p is Custom,
        p matches PreconditionModel::Builtin { target: TargetModel::Agent, .. } ==> builtin_evaluation(p, agent, world)
            == builtin_evaluation(p, agent, other),
        p matches PreconditionModel::Builtin { target: TargetModel::WorldState, .. } ==> builtin_evaluation(
            p,
            agent,
            world,
        ) == builtin_evaluation(p, other, world),
        p matches PreconditionModel::Builtin { target: TargetModel::Agent, op: PreconditionOp::HasProperty, name, .. }
            ==> builtin_evaluation(p, agent, world) == Some(
            seq![Comparison::Decided(lookup_property(agent.properties, name) is Some)],
        ),
        p matches PreconditionModel::Builtin {
            target: TargetModel::WorldState,
            op: PreconditionOp::HasProperty,
            name,
            ..
        } ==> builtin_evaluation(p, agent, world) == Some(
            seq![Comparison::Decided(lookup_property(world.properties, name) is Some)],
        ),
{
}

fn as_number_exec(v: &VariantSnapshot) -> (r: Option<NumberSnapshot>)
    ensures
        r == as_number(v@),
{
    match v {
        VariantSnapshot::Int(i) => Some(NumberSnapshot::Int(*i)),
        VariantSnapshot::Float(f) => Some(NumberSnapshot::FloatBits(crate::snapshot::float_key_of(*f))),
        _ => None,
    }
}

fn loose_equal_exec(p: &VariantSnapshot, c: &VariantSnapshot) -> (r: bool)
    ensures
        r == loose_equal(p@, c@),
{
    match (p, c) {
        (VariantSnapshot::Nil, VariantSnapshot::Nil) => true,
        (VariantSnapshot::Nil, VariantSnapshot::Str(s)) => s.as_str().unicode_len() == 0,
        (VariantSnapshot::Str(s), VariantSnapshot::Nil) => s.as_str().unicode_len() == 0,
        (VariantSnapshot::Bool(a), VariantSnapshot::Bool(b)) => *a == *b,
        (VariantSnapshot::Str(a), VariantSnapshot::Str(b)) => a.eq(b),
        (VariantSnapshot::Int(a), VariantSnapshot::Int(b)) => *a == *b,
        (VariantSnapshot::ObjectRef(a), VariantSnapshot::ObjectRef(b)) => *a == *b,
        _ => false,
    }
}

/// Compares a property value with the expected value under `op`; two numbers
/// give a numeric comparison to settle, anything else is decided here.
pub fn compare_values(op: PreconditionOp, prop: &VariantSnapshot, expected: Option<&VariantSnapshot>) -> (r: Comparison)
    ensures
        r == compare_spec(
            op,
            prop@,
            match expected {
                Some(v) => Some(v@),
                None => None,
            },
        ),
{
    let nil = VariantSnapshot::Nil;
    let c: &VariantSnapshot = match expected {
        Some(v) => v,
        None => &nil,
    };
    match (as_number_exec(prop), as_number_exec(c)) {
        (Some(p), Some(n)) => {
            match op {
                PreconditionOp::Equal | PreconditionOp::NotEqual | PreconditionOp::GreaterThan
                | PreconditionOp::GreaterThanOrEqual | PreconditionOp::LessThan
                | PreconditionOp::LessThanOrEqual => Comparison::Numeric { op, property: p, expected: n },
                _ => Comparison::Decided(false),
            }
        },
        _ => match op {
            PreconditionOp::Equal => Comparison::Decided(loose_equal_exec(prop, c)),
            PreconditionOp::NotEqual => Comparison::Decided(!loose_equal_exec(prop, c)),
            _ => Comparison::Decided(false),
        },
    }
}

fn blackboard_comparison_exec(
    op: PreconditionOp,
    name: &String,
    expected: &Option<VariantSnapshot>,
    source: &BlackboardSnapshot,
) -> (r: Comparison)
    ensures
        r == blackboard_comparison(op, name@, option_model(*expected), source@),
{
    let found = source.get_property(name);
    match op {
        PreconditionOp::HasProperty => Comparison::Decided(found.is_some()),
        _ => {
            let nil = VariantSnapshot::Nil;
            let prop: &VariantSnapshot = match found {
                Some(v) => v,
                None => &nil,
            };
            compare_values(op, prop, expected.as_ref())
        },
    }
}

fn group_comparisons_exec(
    world: &BlackboardSnapshot,
    group: &String,
    property: &String,
    op: PreconditionOp,
    expected: &Option<VariantSnapshot>,
) -> (r: Vec<Comparison>)
    ensures
        r@ == group_comparisons(world@.objects, group@, property@, op, option_model(*expected)),
{
    let ghost objs = world@.objects;
    let mut out: Vec<Comparison> = Vec::new();
    let mut i: usize = 0;
    assert(objs.take(0) =~= Seq::<(Seq<char>, SimObjectModel)>::empty());
    while i < world.objects.len()
        invariant
            objs == world@.objects,
            i <= world.objects.len(),
            out@ == group_comparisons(objs.take(i as int), group@, property@, op, option_model(*expected)),
        decreases world.objects.len() - i,
    {
        assert(objs.take(i + 1).drop_last() =~= objs.take(i as int));
        assert(objs.take(i + 1).last() == objs[i as int]);
        let obj = &world.objects[i].1;
        if obj.is_in_group(group) {
            match find_property(&obj.properties, property) {
                Some(v) => {
                    if !v.is_null() {
                        let c = match op {
                            PreconditionOp::HasProperty => Comparison::Decided(true),
                            _ => compare_values(op, v, expected.as_ref()),
                        };
                        out.push(c);
                    }
                },
                None => {},
            }
        }
        i = i + 1;
    }
    assert(objs.take(world.objects.len() as int) =~= objs);
    out
}

impl PreconditionSpec {
    /// The spec a scripted precondition description gives: a custom callback
    /// needs a registered callable (its id) and carries its dependent object
    /// ids; any other operation gives a builtin check of the property on the
    /// target.
    pub fn from_parts(
        target: PreconditionTarget,
        operation: PreconditionOp,
        property_name: String,
        value: Option<VariantSnapshot>,
        callable_id: Option<usize>,
        dependent_object_ids: Vec<i64>,
    ) -> (r: Option<PreconditionSpec>)
        ensures
            operation == PreconditionOp::CustomCallback ==> match callable_id {
                Some(id) => r == Some(PreconditionSpec::Custom { callable_id: id, dependent_object_ids }),
                None => r is None,
            },
            operation != PreconditionOp::CustomCallback ==> r == Some(
                PreconditionSpec::Builtin { target, operation, property_name, value },
            ),
    {
        match operation {
            PreconditionOp::CustomCallback => match callable_id {
                Some(id) => Some(PreconditionSpec::Custom { callable_id: id, dependent_object_ids }),
                None => None,
            },
            _ => Some(PreconditionSpec::Builtin { target, operation, property_name, value }),
        }
    }

    /// Deep copy with the same model.
    pub fn copy(&self) -> (r: Self)
        ensures
            r@ == self@,
    {
        match self {
            PreconditionSpec::Builtin { target, operation, property_name, value } => PreconditionSpec::Builtin {
                target: target.copy(),
                operation: *operation,
                property_name: property_name.clone(),
                value: match value {
                    Some(v) => Some(copy_variant(v)),
                    None => None,
                },
            },
            PreconditionSpec::Custom { callable_id, dependent_object_ids } => PreconditionSpec::Custom {
                callable_id: *callable_id,
                dependent_object_ids: copy_ids(dependent_object_ids),
            },
        }
    }

    /// Structural equality: equal exactly when the models are equal.
    pub fn same_as(&self, other: &Self) -> (r: bool)
        ensures
            r == (self@ == other@),
    {
        match (self, other) {
            (
                PreconditionSpec::Builtin { target: ta, operation: oa, property_name: na, value: va },
                PreconditionSpec::Builtin { target: tb, operation: ob, property_name: nb, value: vb },
            ) => {
                let same_value = match (va, vb) {
                    (Some(x), Some(y)) => crate::snapshot::variant_eq(x, y),
                    (None, None) => true,
                    _ => false,
                };
                ta.same_as(tb) && *oa == *ob && na.eq(nb) && same_value
            },
            (
                PreconditionSpec::Custom { callable_id: ia, dependent_object_ids: da },
                PreconditionSpec::Custom { callable_id: ib, dependent_object_ids: db },
            ) => *ia == *ib && ids_eq(da, db),
            _ => false,
        }
    }

    /// Evaluates this precondition against the snapshots without any callback:
    /// `Custom` for a custom precondition, otherwise the comparisons of which one
    /// must hold (one for an agent or world property, one per eligible object for
    /// a world-object target).
    pub fn evaluate_builtin(&self, agent: &BlackboardSnapshot, world: &BlackboardSnapshot) -> (r: BuiltinEvaluation)
        ensures
            match r {
                BuiltinEvaluation::Custom => builtin_evaluation(self@, agent@, world@) is None,
                BuiltinEvaluation::AnyOf(cs) => builtin_evaluation(self@, agent@, world@) == Some(cs@),
            },
    {
        match self {
            PreconditionSpec::Builtin { target, operation, property_name, value } => {
                match target {
                    PreconditionTarget::Agent => {
                        let c = blackboard_comparison_exec(*operation, property_name, value, agent);
                        let mut v: Vec<Comparison> = Vec::new();
                        v.push(c);
                        assert(v@ =~= seq![c]);
                        BuiltinEvaluation::AnyOf(v)
                    },
                    PreconditionTarget::WorldState => {
                        let c = blackboard_comparison_exec(*operation, property_name, value, world);
                        let mut v: Vec<Comparison> = Vec::new();
                        v.push(c);
                        assert(v@ =~= seq![c]);
                        BuiltinEvaluation::AnyOf(v)
                    },
                    PreconditionTarget::WorldObjectProxy { group, property } => {
                        BuiltinEvaluation::AnyOf(group_comparisons_exec(world, group, property, *operation, value))
                    },
                }
            },
            PreconditionSpec::Custom { .. } => BuiltinEvaluation::Custom,
        }
    }

    /// Returns the callable id if this is a `Custom` variant.
    pub fn callable_id(&self) -> (r: Option<usize>)
        ensures
            r == match self@ {
                PreconditionModel::Custom { callable_id, .. } => Some(callable_id),
                _ => None,
            },
    {
        match self {
            PreconditionSpec::Custom { callable_id, .. } => Some(*callable_id),
            _ => None,
        }
    }

    /// Returns the property name if this is a `Builtin` variant.
    pub fn property_name(&self) -> (r: Option<&str>)
        ensures
            match r {
                Some(s) => self@ matches PreconditionModel::Builtin { name, .. } && s@ == name,
                None => self@ is Custom,
            },
    {
        match self {
            PreconditionSpec::Builtin { property_name, .. } => Some(property_name.as_str()),
            _ => None,
        }
    }

    /// Returns the dependent object ids of a `Custom` variant; none for a builtin.
    pub fn dependent_object_ids(&self) -> (r: &[i64])
        ensures
            r@ == match self@ {
                PreconditionModel::Custom { deps, .. } => deps,
                _ => Seq::empty(),
            },
    {
        match self {
            PreconditionSpec::Custom { dependent_object_ids, .. } => dependent_object_ids.as_slice(),
            _ => &[],
        }
    }
}

impl Clone for PreconditionSpec {
    fn clone(&self) -> (r: Self)
        ensures
            r@ == self@,
    {
        self.copy()
    }
}

/// Copies a vector of instance ids.
pub fn copy_ids(v: &Vec<i64>) -> (r: Vec<i64>)
    ensures
        r@ == v@,
{
    let mut r: Vec<i64> = Vec::new();
    let mut i: usize = 0;
    while i < v.len()
        invariant
            i <= v.len(),
            r@ == v@.subrange(0, i as int),
        decreases v.len() - i,
    {
        r.push(v[i]);
        i = i + 1;
        assert(r@ =~= v@.subrange(0, i as int));
    }
    assert(v@.subrange(0, v.len() as int) =~= v@);
    r
}

/// Equality of two vectors of instance ids.
pub fn ids_eq(a: &Vec<i64>, b: &Vec<i64>) -> (r: bool)
    ensures
        r == (a@ == b@),
{
    if a.len() != b.len() {
        return false;
    }
    let mut i: usize = 0;
    while i < a.len()
        invariant
            a.len() == b.len(),
            i <= a.len(),
            forall|j: int| 0 <= j < i ==> a@[j] == b@[j],
        decreases a.len() - i,
    {
        if a[i] != b[i] {
            return false;
        }
        i = i + 1;
    }
    assert(a@ =~= b@);
    true
}

/// Copies a vector of preconditions.
pub fn copy_preconditions(v: &Vec<PreconditionSpec>) -> (r: Vec<PreconditionSpec>)
    ensures
        precondition_models(r@) == precondition_models(v@),
{
    let mut r: Vec<PreconditionSpec> = Vec::new();
    let mut i: usize = 0;
    while i < v.len()
        invariant
            i <= v.len(),
            r@.len() == i,
            forall|j: int| 0 <= j < i ==> r@[j]@ == v@[j]@,
        decreases v.len() - i,
    {
        r.push(v[i].copy());
        i = i + 1;
    }
    assert(precondition_models(r@) =~= precondition_models(v@));
    r
}

/// Policy for when to re-simulate action effects during planning.
#[derive(Clone, Copy, Debug, PartialEq, Eq, Hash, Structural)]
pub enum RipplePolicy {
    Always,
    OnRequirement,
    Never,
}

/// Identifies the specific type of simulation request.
#[derive(Debug, Clone, Copy, PartialEq, Eq, Hash, Structural)]
pub enum RequestKind {
    Precondition,
    Cost,
    Effect,
}

/// The result of one engine execution step.
#[derive(Debug, Clone)]
pub enum PlannerRunResult {
    /// Planning reached a terminal state, with the plan when one was found.
    Complete(Option<crate::plan_tree::PlanResult>),
    /// Planning is paused waiting for the callback with this request id.
    Pending(usize),
}

/// Send-safe description of an action.
#[derive(Debug)]
pub struct ActionSpec {
    pub name: String,
    pub cost_callable_id: Option<usize>,
    pub effect_callable_id: Option<usize>,
    pub preconditions: Vec<PreconditionSpec>,
    pub validity_checks: Vec<PreconditionSpec>,
    pub requirements: Vec<RequirementSpec>,
    pub provisions: Vec<ProvisionSpec>,
    /// Object instance ids this action depends on.
    pub dependent_object_ids: Vec<i64>,
}

/// Send-safe description of a goal. The reward is the bit pattern of a 64-bit float.
#[derive(Debug)]
pub struct GoalSpec {
    pub name: String,
    pub reward_bits: u64,
    pub desired_state: Vec<PreconditionSpec>,
    pub original_index: usize,
}

/// Source of planner-to-main-thread callback request ids, counting up from 1.
pub struct RequestIdSource {
    next: usize,
}

impl RequestIdSource {
    pub closed spec fn peek(&self) -> nat {
        self.next as nat
    }

    /// A fresh source whose first id is 1.
    pub fn new() -> (r: Self)
        ensures
            r.peek() == 1,
    {
        RequestIdSource { next: 1 }
    }

    /// Returns the next id and advances the source.
    /// Like an atomic `fetch_add`, the counter wraps to 0 after `usize::MAX`.
    pub fn next_request_id(&mut self) -> (id: usize)
        ensures
            id == old(self).peek(),
            final(self).peek() == if old(self).peek() == usize::MAX {
                0
            } else {
                old(self).peek() + 1
            },
    {
        let id = self.next;
        self.next = if self.next == usize::MAX {
            0
        } else {
            self.next + 1
        };
        id
    }
}


/// When the property and the expected value are both numbers, every comparing
/// operator (equality, inequality and the four orderings) is decided by a
/// numeric comparison of exactly those two numbers under that operator; only
/// the operators that compare nothing are decided false.
pub proof fn lemma_numbers_compare_numerically(op: PreconditionOp, prop: VariantModel, expected: VariantModel)
    requires
        as_number(prop) is Some,
        as_number(expected) is Some,
    ensures
        op != PreconditionOp::HasProperty && op != PreconditionOp::CustomCallback ==> compare_spec(
            op,
            prop,
            Some(expected),
        ) == (Comparison::Numeric {
            op,
            property: as_number(prop).unwrap(),
            expected: as_number(expected).unwrap(),
        }),
        op == PreconditionOp::GreaterThanOrEqual ==> (compare_spec(op, prop, Some(expected)) is Numeric),
{
}

/// Values that are not numbers compare by identity under `Equal` for booleans,
/// strings, integers and object references, and `NotEqual` is its negation: two
/// booleans are equal exactly when they are the same boolean.
pub proof fn lemma_plain_values_compare_by_identity(a: VariantModel, b: VariantModel)
    requires
        ((a is Bool && b is Bool) || (a is Str && b is Str) || (a is ObjectRef && b is ObjectRef)),
    ensures
        compare_spec(PreconditionOp::Equal, a, Some(b)) == Comparison::Decided(a == b),
        compare_spec(PreconditionOp::NotEqual, a, Some(b)) == Comparison::Decided(a != b),
{
}


/// Unless both values are numbers, a comparison is decided at once: `NotEqual`
/// is the negation of `Equal`, the orderings are false, a missing expected
/// value counts as null, null equals null and the empty string, and values of
/// different kinds (a boolean and a string, say) are unequal.
pub proof fn lemma_non_numbers_decided(op: PreconditionOp, a: VariantModel, b: Option<VariantModel>)
    requires
        !(as_number(a) is Some && as_number(match b {
            Some(v) => v,
            None => VariantModel::Nil,
        }) is Some),
    ensures
        compare_spec(op, a, b) is Decided,
        compare_spec(PreconditionOp::NotEqual, a, b) == Comparison::Decided(
            !(compare_spec(PreconditionOp::Equal, a, b)->Decided_0),
        ),
        (op == PreconditionOp::GreaterThan || op == PreconditionOp::GreaterThanOrEqual || op
            == PreconditionOp::LessThan || op == PreconditionOp::LessThanOrEqual) ==> compare_spec(op, a, b)
            == Comparison::Decided(false),
        compare_spec(op, a, None) == compare_spec(op, a, Some(VariantModel::Nil)),
        (a is Nil && (b == Some(VariantModel::Nil) || b == Some(VariantModel::Str(Seq::empty())))) ==> compare_spec(
            PreconditionOp::Equal,
            a,
            b,
        ) == Comparison::Decided(true),
        (a is Bool && b matches Some(VariantModel::Str(_))) ==> compare_spec(PreconditionOp::Equal, a, b)
            == Comparison::Decided(false),
{
}

} // verus!
