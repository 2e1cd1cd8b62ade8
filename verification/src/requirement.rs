//! Requirement and provision specs for planner-readable dependency chaining.
//!
//! An action's requirements name bindings or facts that a prior action (or the
//! initial state) must provide; its provisions name what it contributes.
use crate::snapshot::{
    copy_variant, copy_variants, decimal_text, lookup_object, variant_eq, variant_models, variants_eq,
    BlackboardModel, BlackboardSnapshot, VariantModel, VariantSnapshot, find_property, lookup_property,
    first_object_in_group, lemma_variant_models_len, lemma_variant_models_index,
};
use crate::precondition::is_named;
use vstd::prelude::*;
use vstd::string::*;

verus! {

broadcast use vstd::std_specs::vec::group_vec_axioms;

/// A dependency that must be satisfied by a prior action's provisions.
#[derive(Debug, PartialEq, Eq, Hash)]
pub enum RequirementSpec {
    BindingExists { binding_name: String },
    BindingEquals { binding_name: String, value: VariantSnapshot },
    BindingInSet { binding_name: String, set_name: String },
    Fact { fact_name: String, args: Vec<VariantSnapshot> },
}

/// A value or fact that an action contributes for later actions to consume.
#[derive(Debug, PartialEq, Eq, Hash)]
pub enum ProvisionSpec {
    Binding { binding_name: String, value: VariantSnapshot },
    Fact { fact_name: String, args: Vec<VariantSnapshot> },
    FactWildcard { fact_name: String },
}

/// Mathematical model of a [`RequirementSpec`].
pub enum RequirementModel {
    BindingExists { name: Seq<char> },
    BindingEquals { name: Seq<char>, value: VariantModel },
    BindingInSet { name: Seq<char>, set: Seq<char> },
    Fact { name: Seq<char>, args: Seq<VariantModel> },
}

/// Mathematical model of a [`ProvisionSpec`].
pub enum ProvisionModel {
    Binding { name: Seq<char>, value: VariantModel },
    Fact { name: Seq<char>, args: Seq<VariantModel> },
    FactWildcard { name: Seq<char> },
}

impl View for RequirementSpec {
    type V = RequirementModel;

    open spec fn view(&self) -> RequirementModel {
        match self {
            RequirementSpec::BindingExists { binding_name } => RequirementModel::BindingExists {
                name: binding_name@,
            },
            RequirementSpec::BindingEquals { binding_name, value } => RequirementModel::BindingEquals {
                name: binding_name@,
                value: value@,
            },
            RequirementSpec::BindingInSet { binding_name, set_name } => RequirementModel::BindingInSet {
                name: binding_name@,
                set: set_name@,
            },
            RequirementSpec::Fact { fact_name, args } => RequirementModel::Fact {
                name: fact_name@,
                args: variant_models(args@),
            },
        }
    }
}

impl View for ProvisionSpec {
    type V = ProvisionModel;

    open spec fn view(&self) -> ProvisionModel {
        match self {
            ProvisionSpec::Binding { binding_name, value } => ProvisionModel::Binding {
                name: binding_name@,
                value: value@,
            },
            ProvisionSpec::Fact { fact_name, args } => ProvisionModel::Fact {
                name: fact_name@,
                args: variant_models(args@),
            },
            ProvisionSpec::FactWildcard { fact_name } => ProvisionModel::FactWildcard {
                name: fact_name@,
            },
        }
    }
}

/// Models of a sequence of requirements.
pub open spec fn requirement_models(s: Seq<RequirementSpec>) -> Seq<RequirementModel> {
    s.map_values(|r: RequirementSpec| r@)
}

/// Models of a sequence of provisions.
pub open spec fn provision_models(s: Seq<ProvisionSpec>) -> Seq<ProvisionModel> {
    s.map_values(|p: ProvisionSpec| p@)
}

/// Binding values keyed by name (a binding map).
pub open spec fn binding_models(s: Seq<(String, Vec<VariantSnapshot>)>) -> Seq<(Seq<char>, Seq<VariantModel>)> {
    s.map_values(|b: (String, Vec<VariantSnapshot>)| (b.0@, variant_models(b.1@)))
}

impl RequirementSpec {
    /// Deep copy with the same model.
    pub fn copy(&self) -> (r: Self)
        ensures
            r@ == self@,
    {
        match self {
            RequirementSpec::BindingExists { binding_name } => RequirementSpec::BindingExists {
                binding_name: binding_name.clone(),
            },
            RequirementSpec::BindingEquals { binding_name, value } => RequirementSpec::BindingEquals {
                binding_name: binding_name.clone(),
                value: copy_variant(value),
            },
            RequirementSpec::BindingInSet { binding_name, set_name } => RequirementSpec::BindingInSet {
                binding_name: binding_name.clone(),
                set_name: set_name.clone(),
            },
            RequirementSpec::Fact { fact_name, args } => RequirementSpec::Fact {
                fact_name: fact_name.clone(),
                args: copy_variants(args),
            },
        }
    }

    /// Structural equality: equal exactly when the models are equal.
    pub fn same_as(&self, other: &Self) -> (r: bool)
        ensures
            r == (self@ == other@),
    {
        match (self, other) {
            (
                RequirementSpec::BindingExists { binding_name: a },
                RequirementSpec::BindingExists { binding_name: b },
            ) => a.eq(b),
            (
                RequirementSpec::BindingEquals { binding_name: a, value: va },
                RequirementSpec::BindingEquals { binding_name: b, value: vb },
            ) => a.eq(b) && variant_eq(va, vb),
            (
                RequirementSpec::BindingInSet { binding_name: a, set_name: sa },
                RequirementSpec::BindingInSet { binding_name: b, set_name: sb },
            ) => a.eq(b) && sa.eq(sb),
            (
                RequirementSpec::Fact { fact_name: a, args: aa },
                RequirementSpec::Fact { fact_name: b, args: ab },
            ) => a.eq(b) && variants_eq(aa, ab),
            _ => false,
        }
    }
}

impl Clone for RequirementSpec {
    fn clone(&self) -> (r: Self)
        ensures
            r@ == self@,
    {
        self.copy()
    }
}

impl ProvisionSpec {
    /// Deep copy with the same model.
    pub fn copy(&self) -> (r: Self)
        ensures
            r@ == self@,
    {
        match self {
            ProvisionSpec::Binding { binding_name, value } => ProvisionSpec::Binding {
                binding_name: binding_name.clone(),
                value: copy_variant(value),
            },
            ProvisionSpec::Fact { fact_name, args } => ProvisionSpec::Fact {
                fact_name: fact_name.clone(),
                args: copy_variants(args),
            },
            ProvisionSpec::FactWildcard { fact_name } => ProvisionSpec::FactWildcard {
                fact_name: fact_name.clone(),
            },
        }
    }

    /// Structural equality: equal exactly when the models are equal.
    pub fn same_as(&self, other: &Self) -> (r: bool)
        ensures
            r == (self@ == other@),
    {
        match (self, other) {
            (
                ProvisionSpec::Binding { binding_name: a, value: va },
                ProvisionSpec::Binding { binding_name: b, value: vb },
            ) => a.eq(b) && variant_eq(va, vb),
            (
                ProvisionSpec::Fact { fact_name: a, args: aa },
                ProvisionSpec::Fact { fact_name: b, args: ab },
            ) => a.eq(b) && variants_eq(aa, ab),
            (
                ProvisionSpec::FactWildcard { fact_name: a },
                ProvisionSpec::FactWildcard { fact_name: b },
            ) => a.eq(b),
            _ => false,
        }
    }

    /// Returns true for a wildcard fact provision.
    pub fn is_wildcard(&self) -> (r: bool)
        ensures
            r == (self@ is FactWildcard),
    {
        match self {
            ProvisionSpec::FactWildcard { .. } => true,
            _ => false,
        }
    }
}

impl Clone for ProvisionSpec {
    fn clone(&self) -> (r: Self)
        ensures
            r@ == self@,
    {
        self.copy()
    }
}

/// True when `value` refers to a world object (by decimal instance id) that belongs to `set`.
pub open spec fn object_ref_in_set(value: VariantModel, set: Seq<char>, world: BlackboardModel) -> bool {
    match value {
        VariantModel::ObjectRef(id) => match lookup_object(world.objects, decimal_text(id as int)) {
            Some(o) => o.groups.contains(set),
            None => false,
        },
        _ => false,
    }
}

/// Whether a provision satisfies a requirement; with a world, a binding-in-set
/// requirement also needs the provided object to be a world object of that set.
pub open spec fn provision_satisfies(
    p: ProvisionModel,
    r: RequirementModel,
    world: Option<BlackboardModel>,
) -> bool {
    match (p, r) {
        (ProvisionModel::Binding { name: pn, .. }, RequirementModel::BindingExists { name }) => pn
            == name,
        (
            ProvisionModel::Binding { name: pn, value: pv },
            RequirementModel::BindingEquals { name, value },
        ) => pn == name && pv == value,
        (
            ProvisionModel::Binding { name: pn, value: pv },
            RequirementModel::BindingInSet { name, set },
        ) => pn == name && match world {
            Some(w) => object_ref_in_set(pv, set, w),
            None => true,
        },
        (ProvisionModel::Fact { name: pn, args: pa }, RequirementModel::Fact { name, args }) => pn
            == name && (args.len() == 0 || pa == args),
        (ProvisionModel::FactWildcard { name: pn }, RequirementModel::Fact { name, .. }) => pn
            == name,
        _ => false,
    }
}

/// Some provision in `provs` satisfies `r` (without world context).
pub open spec fn requirement_met(r: RequirementModel, provs: Seq<ProvisionModel>) -> bool {
    exists|i: int| 0 <= i < provs.len() && provision_satisfies(#[trigger] provs[i], r, None)
}

/// Requirements of `reqs` that no provision in `provs` satisfies, in order.
pub open spec fn unmet_requirements(reqs: Seq<RequirementModel>, provs: Seq<ProvisionModel>) -> Seq<RequirementModel>
    decreases reqs.len(),
{
    if reqs.len() == 0 {
        Seq::empty()
    } else {
        let rest = unmet_requirements(reqs.drop_last(), provs);
        if requirement_met(reqs.last(), provs) {
            rest
        } else {
            rest.push(reqs.last())
        }
    }
}

/// Appends the elements of `extra` that are not yet present, in order.
pub open spec fn extend_unique<A>(base: Seq<A>, extra: Seq<A>) -> Seq<A>
    decreases extra.len(),
{
    if extra.len() == 0 {
        base
    } else {
        let prefix = extend_unique(base, extra.drop_last());
        if prefix.contains(extra.last()) {
            prefix
        } else {
            prefix.push(extra.last())
        }
    }
}

proof fn lemma_push_contains<A>(s: Seq<A>, v: A)
    ensures
        forall|x: A| #[trigger] s.push(v).contains(x) <==> (s.contains(x) || x == v),
{
    assert forall|x: A| #[trigger] s.push(v).contains(x) <==> (s.contains(x) || x == v) by {
        if s.contains(x) {
            let k = choose|k: int| 0 <= k < s.len() && s[k] == x;
            assert(s.push(v)[k] == x);
        }
        if x == v {
            assert(s.push(v)[s.len() as int] == x);
        }
        if s.push(v).contains(x) {
            let k = choose|k: int| 0 <= k < s.push(v).len() && s.push(v)[k] == x;
            if k < s.len() {
                assert(s[k] == x);
            }
        }
    }
}

proof fn lemma_last_contains<A>(s: Seq<A>)
    requires
        s.len() > 0,
    ensures
        forall|x: A| #[trigger] s.contains(x) <==> (s.drop_last().contains(x) || x == s.last()),
{
    assert(s.drop_last().push(s.last()) =~= s);
    lemma_push_contains(s.drop_last(), s.last());
}

/// Extending keeps the base as a prefix, and an element ends up in the result
/// exactly when it is in the base or in the extra elements.
pub proof fn lemma_extend_unique_members<A>(base: Seq<A>, extra: Seq<A>)
    ensures
        extend_unique(base, extra).len() >= base.len(),
        extend_unique(base, extra).take(base.len() as int) == base,
        forall|x: A| #[trigger] extend_unique(base, extra).contains(x) <==> (base.contains(x) || extra.contains(x)),
    decreases extra.len(),
{
    if extra.len() == 0 {
        assert(base.take(base.len() as int) =~= base);
    } else {
        let prefix = extend_unique(base, extra.drop_last());
        lemma_extend_unique_members(base, extra.drop_last());
        lemma_last_contains(extra);
        lemma_push_contains(prefix, extra.last());
        if !prefix.contains(extra.last()) {
            assert(prefix.push(extra.last()).take(base.len() as int) =~= prefix.take(base.len() as int));
        }
        assert forall|x: A| #[trigger] extend_unique(base, extra).contains(x) <==> (base.contains(x) || extra.contains(x)) by {
            assert(prefix.contains(x) <==> (base.contains(x) || extra.drop_last().contains(x)));
            assert(extra.contains(x) <==> (extra.drop_last().contains(x) || x == extra.last()));
            assert(prefix.push(extra.last()).contains(x) <==> (prefix.contains(x) || x == extra.last()));
        }
    }
}

/// Extending a list that has no repeated element gives a list that has none.
pub proof fn lemma_extend_unique_no_duplicates<A>(base: Seq<A>, extra: Seq<A>)
    requires
        base.no_duplicates(),
    ensures
        extend_unique(base, extra).no_duplicates(),
    decreases extra.len(),
{
    if extra.len() > 0 {
        lemma_extend_unique_no_duplicates(base, extra.drop_last());
        let prefix = extend_unique(base, extra.drop_last());
        if !prefix.contains(extra.last()) {
            let e = prefix.push(extra.last());
            assert forall|i: int, j: int| 0 <= i < e.len() && 0 <= j < e.len() && i != j implies e[i] != e[j] by {
                if i < prefix.len() && j < prefix.len() {
                } else if i < prefix.len() {
                    assert(prefix.contains(e[i]));
                } else {
                    assert(prefix.contains(e[j]));
                }
            }
        }
    }
}

/// Extending by elements all already present changes nothing.
pub proof fn lemma_extend_unique_present<A>(base: Seq<A>, extra: Seq<A>)
    requires
        forall|x: A| extra.contains(x) ==> base.contains(x),
    ensures
        extend_unique(base, extra) == base,
    decreases extra.len(),
{
    if extra.len() > 0 {
        assert forall|x: A| extra.drop_last().contains(x) implies base.contains(x) by {
            let k = choose|k: int| 0 <= k < extra.drop_last().len() && extra.drop_last()[k] == x;
            assert(extra[k] == x);
        }
        lemma_extend_unique_present(base, extra.drop_last());
        assert(extra.contains(extra.last()));
    }
}

/// Extending twice by the same elements gives what extending once gives.
pub proof fn lemma_extend_unique_idempotent<A>(base: Seq<A>, extra: Seq<A>)
    ensures
        extend_unique(extend_unique(base, extra), extra) == extend_unique(base, extra),
{
    lemma_extend_unique_members(base, extra);
    lemma_extend_unique_present(extend_unique(base, extra), extra);
}

/// The unmet requirements are exactly the requirements (in order) that no
/// provision satisfies: each is an unmet requirement of the list, and every
/// unmet requirement of the list is among them.
pub proof fn lemma_unmet_requirements(reqs: Seq<RequirementModel>, provs: Seq<ProvisionModel>)
    ensures
        forall|r: RequirementModel| #[trigger] unmet_requirements(reqs, provs).contains(r) <==> (reqs.contains(r) && !requirement_met(r, provs)),
        unmet_requirements(reqs, provs).len() <= reqs.len(),
    decreases reqs.len(),
{
    if reqs.len() > 0 {
        lemma_unmet_requirements(reqs.drop_last(), provs);
        let rest = unmet_requirements(reqs.drop_last(), provs);
        assert forall|r: RequirementModel| #[trigger] unmet_requirements(reqs, provs).contains(r) <==> (reqs.contains(r) && !requirement_met(r, provs)) by {
            if reqs.drop_last().contains(r) {
                let k = choose|k: int| 0 <= k < reqs.drop_last().len() && reqs.drop_last()[k] == r;
                assert(reqs[k] == r);
            }
            if reqs.contains(r) && r != reqs.last() {
                let k = choose|k: int| 0 <= k < reqs.len() && reqs[k] == r;
                assert(reqs.drop_last()[k] == r);
            }
            assert(reqs.contains(reqs.last()));
            if !requirement_met(reqs.last(), provs) {
                let e = rest.push(reqs.last());
                if rest.contains(r) {
                    let k = choose|k: int| 0 <= k < rest.len() && rest[k] == r;
                    assert(e[k] == r);
                }
                if e.contains(r) {
                    let k = choose|k: int| 0 <= k < e.len() && e[k] == r;
                    if k < rest.len() {
                        assert(rest[k] == r);
                    }
                }
                assert(e[rest.len() as int] == reqs.last());
            }
        }
    }
}

/// Binding provisions for the agent properties that hold a meaningful value
/// (neither null nor the empty string), in property order.
pub open spec fn initial_provisions(props: Seq<(Seq<char>, VariantModel)>) -> Seq<ProvisionModel>
    decreases props.len(),
{
    if props.len() == 0 {
        Seq::empty()
    } else {
        let rest = initial_provisions(props.drop_last());
        let (k, v) = props.last();
        if meaningful_value(v) {
            rest.push(ProvisionModel::Binding { name: k, value: v })
        } else {
            rest
        }
    }
}

/// A value that can stand for a binding: neither null nor the empty string.
pub open spec fn meaningful_value(v: VariantModel) -> bool {
    !(v is Nil) && !(v matches VariantModel::Str(s) && s.len() == 0)
}

/// The fields a scripted requirement or provision description carries; absent
/// fields are `None`, and absent arguments are empty.
#[derive(Debug)]
pub struct SpecFields {
    pub kind: String,
    pub binding_name: Option<String>,
    pub value: Option<VariantSnapshot>,
    pub set_name: Option<String>,
    pub fact_name: Option<String>,
    pub args: Vec<VariantSnapshot>,
}

/// The text of an optional string field.
pub open spec fn opt_text(s: Option<String>) -> Option<Seq<char>> {
    match s {
        Some(t) => Some(t@),
        None => None,
    }
}

/// The requirement a description denotes: its kind picks the variant, and the
/// fields that variant needs must be present; an unknown kind denotes none.
pub open spec fn requirement_from_fields_spec(f: SpecFields) -> Option<RequirementModel> {
    if f.kind@ == "binding_exists"@ {
        match opt_text(f.binding_name) {
            Some(n) => Some(RequirementModel::BindingExists { name: n }),
            None => None,
        }
    } else if f.kind@ == "binding_equals"@ {
        match (opt_text(f.binding_name), f.value) {
            (Some(n), Some(v)) => Some(RequirementModel::BindingEquals { name: n, value: v@ }),
            _ => None,
        }
    } else if f.kind@ == "binding_in_set"@ {
        match (opt_text(f.binding_name), opt_text(f.set_name)) {
            (Some(n), Some(set)) => Some(RequirementModel::BindingInSet { name: n, set }),
            _ => None,
        }
    } else if f.kind@ == "fact"@ {
        match opt_text(f.fact_name) {
            Some(n) => Some(RequirementModel::Fact { name: n, args: variant_models(f.args@) }),
            None => None,
        }
    } else {
        None
    }
}

/// The provision a description denotes: its kind picks the variant, and the
/// fields that variant needs must be present; an unknown kind denotes none.
pub open spec fn provision_from_fields_spec(f: SpecFields) -> Option<ProvisionModel> {
    if f.kind@ == "binding"@ {
        match (opt_text(f.binding_name), f.value) {
            (Some(n), Some(v)) => Some(ProvisionModel::Binding { name: n, value: v@ }),
            _ => None,
        }
    } else if f.kind@ == "fact"@ {
        match opt_text(f.fact_name) {
            Some(n) => Some(ProvisionModel::Fact { name: n, args: variant_models(f.args@) }),
            None => None,
        }
    } else if f.kind@ == "fact_wildcard"@ {
        match opt_text(f.fact_name) {
            Some(n) => Some(ProvisionModel::FactWildcard { name: n }),
            None => None,
        }
    } else {
        None
    }
}

impl RequirementSpec {
    /// Builds a requirement from a scripted description: `binding_exists`
    /// needs a binding name, `binding_equals` a binding name and a value,
    /// `binding_in_set` a binding name and a set name, `fact` a fact name (its
    /// arguments may be empty); any other kind, or a missing field, gives `None`.
    pub fn from_fields(f: &SpecFields) -> (r: Option<RequirementSpec>)
        ensures
            match r {
                Some(req) => requirement_from_fields_spec(*f) == Some(req@),
                None => requirement_from_fields_spec(*f) is None,
            },
    {
        if is_named(&f.kind, "binding_exists") {
            match &f.binding_name {
                Some(n) => Some(RequirementSpec::BindingExists { binding_name: n.clone() }),
                None => None,
            }
        } else if is_named(&f.kind, "binding_equals") {
            match (&f.binding_name, &f.value) {
                (Some(n), Some(v)) => Some(RequirementSpec::BindingEquals { binding_name: n.clone(), value: copy_variant(v) }),
                _ => None,
            }
        } else if is_named(&f.kind, "binding_in_set") {
            match (&f.binding_name, &f.set_name) {
                (Some(n), Some(set)) => Some(RequirementSpec::BindingInSet { binding_name: n.clone(), set_name: set.clone() }),
                _ => None,
            }
        } else if is_named(&f.kind, "fact") {
            match &f.fact_name {
                Some(n) => Some(RequirementSpec::Fact { fact_name: n.clone(), args: copy_variants(&f.args) }),
                None => None,
            }
        } else {
            None
        }
    }
}

impl ProvisionSpec {
    /// Builds a provision from a scripted description: `binding` needs a
    /// binding name and a value, `fact` a fact name (its arguments may be
    /// empty), `fact_wildcard` a fact name; any other kind, or a missing field,
    /// gives `None`.
    pub fn from_fields(f: &SpecFields) -> (r: Option<ProvisionSpec>)
        ensures
            match r {
                Some(p) => provision_from_fields_spec(*f) == Some(p@),
                None => provision_from_fields_spec(*f) is None,
            },
    {
        if is_named(&f.kind, "binding") {
            match (&f.binding_name, &f.value) {
                (Some(n), Some(v)) => Some(ProvisionSpec::Binding { binding_name: n.clone(), value: copy_variant(v) }),
                _ => None,
            }
        } else if is_named(&f.kind, "fact") {
            match &f.fact_name {
                Some(n) => Some(ProvisionSpec::Fact { fact_name: n.clone(), args: copy_variants(&f.args) }),
                None => None,
            }
        } else if is_named(&f.kind, "fact_wildcard") {
            match &f.fact_name {
                Some(n) => Some(ProvisionSpec::FactWildcard { fact_name: n.clone() }),
                None => None,
            }
        } else {
            None
        }
    }
}

/// Returns `true` if `p` satisfies `r`; with a world, a binding-in-set requirement
/// also checks that the provided object is a world object of that set.
pub fn provision_satisfies_requirement(
    provision: &ProvisionSpec,
    requirement: &RequirementSpec,
    world: Option<&BlackboardSnapshot>,
) -> (res: bool)
    ensures
        res == provision_satisfies(
            provision@,
            requirement@,
            match world {
                Some(w) => Some(w@),
                None => None,
            },
        ),
{
    match (provision, requirement) {
        (
            ProvisionSpec::Binding { binding_name: provided_name, .. },
            RequirementSpec::BindingExists { binding_name },
        ) => provided_name.eq(binding_name),
        (
            ProvisionSpec::Binding { binding_name: provided_name, value: provided_value },
            RequirementSpec::BindingEquals { binding_name, value },
        ) => provided_name.eq(binding_name) && variant_eq(provided_value, value),
        (
            ProvisionSpec::Binding { binding_name: provided_name, value: provided_value },
            RequirementSpec::BindingInSet { binding_name, set_name },
        ) => {
            if !provided_name.eq(binding_name) {
                return false;
            }
            match world {
                Some(w) => object_in_set(provided_value, set_name, w),
                None => true,
            }
        },
        (
            ProvisionSpec::Fact { fact_name: provided_name, args: provided_args },
            RequirementSpec::Fact { fact_name, args },
        ) => provided_name.eq(fact_name) && (args.len() == 0 || variants_eq(provided_args, args)),
        (
            ProvisionSpec::FactWildcard { fact_name: provided_name },
            RequirementSpec::Fact { fact_name, .. },
        ) => provided_name.eq(fact_name),
        _ => false,
    }
}

/// Returns true if `value` is an object reference to a world object in `set`.
pub fn object_in_set(value: &VariantSnapshot, set: &String, world: &BlackboardSnapshot) -> (r: bool)
    ensures
        r == object_ref_in_set(value@, set@, world@),
{
    match value {
        VariantSnapshot::ObjectRef(id) => match world.get_object_by_instance_id(*id) {
            Some(o) => o.is_in_group(set),
            None => false,
        },
        _ => false,
    }
}

/// Returns `true` if `requirement` is satisfied by at least one entry in `provisions`.
pub fn requirement_satisfied(requirement: &RequirementSpec, provisions: &[ProvisionSpec]) -> (r: bool)
    ensures
        r == requirement_met(requirement@, provision_models(provisions@)),
{
    let ghost provs = provision_models(provisions@);
    let mut i: usize = 0;
    while i < provisions.len()
        invariant
            provs == provision_models(provisions@),
            i <= provisions.len(),
            forall|j: int| 0 <= j < i ==> !provision_satisfies(#[trigger] provs[j], requirement@, None),
        decreases provisions.len() - i,
    {
        if provision_satisfies_requirement(&provisions[i], requirement, None) {
            assert(provision_satisfies(provs[i as int], requirement@, None));
            return true;
        }
        i = i + 1;
    }
    false
}

/// Returns `true` if every requirement in `requirements` is satisfied by at least one provision.
pub fn requirements_satisfied(requirements: &[RequirementSpec], provisions: &[ProvisionSpec]) -> (r: bool)
    ensures
        r == forall|i: int|
            0 <= i < requirements@.len() ==> requirement_met(
                #[trigger] requirement_models(requirements@)[i],
                provision_models(provisions@),
            ),
{
    let mut i: usize = 0;
    while i < requirements.len()
        invariant
            i <= requirements.len(),
            forall|j: int|
                0 <= j < i ==> requirement_met(
                    #[trigger] requirement_models(requirements@)[j],
                    provision_models(provisions@),
                ),
        decreases requirements.len() - i,
    {
        if !requirement_satisfied(&requirements[i], provisions) {
            assert(!requirement_met(requirement_models(requirements@)[i as int], provision_models(provisions@)));
            return false;
        }
        i = i + 1;
    }
    true
}

/// Returns `true` if any requirement in `requirements` is satisfied by `provisions`.
pub fn provisions_satisfy_any_requirement(
    provisions: &[ProvisionSpec],
    requirements: &[RequirementSpec],
) -> (r: bool)
    ensures
        r == exists|i: int|
            0 <= i < requirements@.len() && requirement_met(
                #[trigger] requirement_models(requirements@)[i],
                provision_models(provisions@),
            ),
{
    let mut i: usize = 0;
    while i < requirements.len()
        invariant
            i <= requirements.len(),
            forall|j: int|
                0 <= j < i ==> !requirement_met(
                    #[trigger] requirement_models(requirements@)[j],
                    provision_models(provisions@),
                ),
        decreases requirements.len() - i,
    {
        if requirement_satisfied(&requirements[i], provisions) {
            assert(requirement_met(requirement_models(requirements@)[i as int], provision_models(provisions@)));
            return true;
        }
        i = i + 1;
    }
    false
}

/// Returns the requirements that no provision satisfies, in their original order.
pub fn get_unsatisfied_requirements(
    requirements: &[RequirementSpec],
    provisions: &[ProvisionSpec],
) -> (r: Vec<RequirementSpec>)
    ensures
        requirement_models(r@) == unmet_requirements(
            requirement_models(requirements@),
            provision_models(provisions@),
        ),
{
    let ghost reqs = requirement_models(requirements@);
    let ghost provs = provision_models(provisions@);
    let mut out: Vec<RequirementSpec> = Vec::new();
    let mut i: usize = 0;
    assert(reqs.take(0) =~= Seq::<RequirementModel>::empty());
    while i < requirements.len()
        invariant
            reqs == requirement_models(requirements@),
            provs == provision_models(provisions@),
            i <= requirements.len(),
            requirement_models(out@) == unmet_requirements(reqs.take(i as int), provs),
        decreases requirements.len() - i,
    {
        assert(reqs.take(i + 1).drop_last() =~= reqs.take(i as int));
        let met = requirement_satisfied(&requirements[i], provisions);
        if !met {
            out.push(requirements[i].copy());
            assert(requirement_models(out@) =~= unmet_requirements(reqs.take(i as int), provs).push(reqs[i as int]));
        }
        i = i + 1;
    }
    assert(reqs.take(requirements.len() as int) =~= reqs);
    out
}

/// Returns a filtered copy of `requirements` with any already-satisfied entries removed.
pub fn remove_satisfied_requirements(
    requirements: &[RequirementSpec],
    provisions: &[ProvisionSpec],
) -> (r: Vec<RequirementSpec>)
    ensures
        requirement_models(r@) == unmet_requirements(
            requirement_models(requirements@),
            provision_models(provisions@),
        ),
{
    get_unsatisfied_requirements(requirements, provisions)
}

/// Returns true if `list` holds a requirement equal to `r`.
pub fn contains_requirement(list: &Vec<RequirementSpec>, r: &RequirementSpec) -> (res: bool)
    ensures
        res == requirement_models(list@).contains(r@),
{
    let mut i: usize = 0;
    while i < list.len()
        invariant
            i <= list.len(),
            forall|j: int| 0 <= j < i ==> list@[j]@ != r@,
        decreases list.len() - i,
    {
        if list[i].same_as(r) {
            assert(requirement_models(list@)[i as int] == r@);
            return true;
        }
        i = i + 1;
    }
    assert(!requirement_models(list@).contains(r@)) by {
        if requirement_models(list@).contains(r@) {
            let k = choose|k: int| 0 <= k < list@.len() && requirement_models(list@)[k] == r@;
            assert(list@[k]@ == r@);
        }
    }
    false
}

/// Returns true if `list` holds a provision equal to `p`.
pub fn contains_provision(list: &Vec<ProvisionSpec>, p: &ProvisionSpec) -> (res: bool)
    ensures
        res == provision_models(list@).contains(p@),
{
    let mut i: usize = 0;
    while i < list.len()
        invariant
            i <= list.len(),
            forall|j: int| 0 <= j < i ==> list@[j]@ != p@,
        decreases list.len() - i,
    {
        if list[i].same_as(p) {
            assert(provision_models(list@)[i as int] == p@);
            return true;
        }
        i = i + 1;
    }
    assert(!provision_models(list@).contains(p@)) by {
        if provision_models(list@).contains(p@) {
            let k = choose|k: int| 0 <= k < list@.len() && provision_models(list@)[k] == p@;
            assert(list@[k]@ == p@);
        }
    }
    false
}

/// Appends entries from `additional` into `requirements`, skipping ones already present.
pub fn extend_unique_requirements(requirements: &mut Vec<RequirementSpec>, additional: &[RequirementSpec])
    ensures
        requirement_models(final(requirements)@) == extend_unique(
            requirement_models(old(requirements)@),
            requirement_models(additional@),
        ),
{
    let ghost base = requirement_models(requirements@);
    let ghost extra = requirement_models(additional@);
    let mut i: usize = 0;
    assert(extra.take(0) =~= Seq::<RequirementModel>::empty());
    while i < additional.len()
        invariant
            extra == requirement_models(additional@),
            i <= additional.len(),
            requirement_models(requirements@) == extend_unique(base, extra.take(i as int)),
        decreases additional.len() - i,
    {
        assert(extra.take(i + 1).drop_last() =~= extra.take(i as int));
        assert(extra.take(i + 1).last() == additional@[i as int]@);
        if !contains_requirement(requirements, &additional[i]) {
            let ghost before = requirement_models(requirements@);
            requirements.push(additional[i].copy());
            assert(requirement_models(requirements@) =~= before.push(additional@[i as int]@));
        }
        i = i + 1;
    }
    assert(extra.take(additional.len() as int) =~= extra);
}

/// Appends entries from `additional` into `provisions`, skipping ones already present.
pub fn extend_unique_provisions(provisions: &mut Vec<ProvisionSpec>, additional: &[ProvisionSpec])
    ensures
        provision_models(final(provisions)@) == extend_unique(
            provision_models(old(provisions)@),
            provision_models(additional@),
        ),
{
    let ghost base = provision_models(provisions@);
    let ghost extra = provision_models(additional@);
    let mut i: usize = 0;
    assert(extra.take(0) =~= Seq::<ProvisionModel>::empty());
    while i < additional.len()
        invariant
            extra == provision_models(additional@),
            i <= additional.len(),
            provision_models(provisions@) == extend_unique(base, extra.take(i as int)),
        decreases additional.len() - i,
    {
        assert(extra.take(i + 1).drop_last() =~= extra.take(i as int));
        assert(extra.take(i + 1).last() == additional@[i as int]@);
        if !contains_provision(provisions, &additional[i]) {
            let ghost before = provision_models(provisions@);
            provisions.push(additional[i].copy());
            assert(provision_models(provisions@) =~= before.push(additional@[i as int]@));
        }
        i = i + 1;
    }
    assert(extra.take(additional.len() as int) =~= extra);
}

/// Binding provisions for every agent property holding a meaningful value
/// (neither null nor the empty string), in property order.
pub fn extract_initial_provisions(agent: &BlackboardSnapshot) -> (r: Vec<ProvisionSpec>)
    ensures
        provision_models(r@) == initial_provisions(agent@.properties),
{
    let ghost props = agent@.properties;
    let mut provisions: Vec<ProvisionSpec> = Vec::new();
    let mut i: usize = 0;
    assert(props.take(0) =~= Seq::<(Seq<char>, VariantModel)>::empty());
    while i < agent.properties.len()
        invariant
            props == agent@.properties,
            i <= agent.properties.len(),
            provision_models(provisions@) == initial_provisions(props.take(i as int)),
        decreases agent.properties.len() - i,
    {
        assert(props.take(i + 1).drop_last() =~= props.take(i as int));
        assert(props.take(i + 1).last() == (agent.properties@[i as int].0@, agent.properties@[i as int].1@));
        let value = &agent.properties[i].1;
        if !value.is_null() && !value.is_empty_string() {
            let ghost before = provision_models(provisions@);
            provisions.push(
                ProvisionSpec::Binding {
                    binding_name: agent.properties[i].0.clone(),
                    value: copy_variant(value),
                },
            );
            assert(provision_models(provisions@) =~= before.push(provisions@[provisions@.len() - 1]@));
        }
        i = i + 1;
    }
    assert(props.take(agent.properties.len() as int) =~= props);
    provisions
}

/// Some binding named `name` holds at least one value.
pub open spec fn has_nonempty_binding(b: Seq<(Seq<char>, Seq<VariantModel>)>, name: Seq<char>) -> bool {
    exists|i: int| 0 <= i < b.len() && (#[trigger] b[i]).0 == name && b[i].1.len() > 0
}

/// Some binding named `name` holds exactly the single value `value`.
pub open spec fn has_single_binding(
    b: Seq<(Seq<char>, Seq<VariantModel>)>,
    name: Seq<char>,
    value: VariantModel,
) -> bool {
    exists|i: int|
        0 <= i < b.len() && (#[trigger] b[i]).0 == name && b[i].1.len() == 1 && b[i].1[0] == value
}

/// Some binding named `name` has a first value that is a world object of `set`.
pub open spec fn has_binding_in_set(
    b: Seq<(Seq<char>, Seq<VariantModel>)>,
    name: Seq<char>,
    set: Seq<char>,
    world: BlackboardModel,
) -> bool {
    exists|i: int|
        0 <= i < b.len() && (#[trigger] b[i]).0 == name && b[i].1.len() > 0 && object_ref_in_set(
            b[i].1[0],
            set,
            world,
        )
}

/// Values of the first binding named `name`, if any.
pub open spec fn first_binding(b: Seq<(Seq<char>, Seq<VariantModel>)>, name: Seq<char>) -> Option<Seq<VariantModel>>
    decreases b.len(),
{
    if b.len() == 0 {
        None
    } else if b[0].0 == name {
        Some(b[0].1)
    } else {
        first_binding(b.drop_first(), name)
    }
}

/// The `position` property of the world object referred to by `v`, if any.
pub open spec fn target_position(v: VariantModel, world: BlackboardModel) -> Option<VariantModel> {
    match v {
        VariantModel::ObjectRef(id) => match lookup_object(world.objects, decimal_text(id as int)) {
            Some(o) => lookup_property(o.properties, "position"@),
            None => None,
        },
        _ => None,
    }
}

/// The `position` property of the agent's first location object, if any.
pub open spec fn agent_position(agent: BlackboardModel) -> Option<VariantModel> {
    match first_object_in_group(agent.objects, "GdPAILocationData"@) {
        Some(o) => lookup_property(o.properties, "position"@),
        None => None,
    }
}

/// Whether a requirement holds in the given agent/world state, also accepting the
/// chain-position bindings promised by predecessor actions.
pub open spec fn requirement_holds(
    r: RequirementModel,
    agent: BlackboardModel,
    world: BlackboardModel,
    b: Seq<(Seq<char>, Seq<VariantModel>)>,
) -> bool {
    match r {
        RequirementModel::BindingExists { name } => has_nonempty_binding(b, name) || match lookup_property(
            agent.properties,
            name,
        ) {
            Some(v) => meaningful_value(v),
            None => false,
        },
        RequirementModel::BindingEquals { name, value } => has_single_binding(b, name, value)
            || lookup_property(agent.properties, name) == Some(value),
        RequirementModel::BindingInSet { name, set } => has_binding_in_set(b, name, set, world)
            || match lookup_property(agent.properties, name) {
            Some(v) => object_ref_in_set(v, set, world),
            None => false,
        },
        RequirementModel::Fact { name, args } => {
            if name == "at_target"@ && args.len() > 0 {
                let tp = target_position(args[0], world);
                let ap = agent_position(agent);
                if tp is Some && ap is Some {
                    tp == ap
                } else {
                    match first_binding(b, name) {
                        Some(vals) => vals == args,
                        None => false,
                    }
                }
            } else {
                true
            }
        },
    }
}

/// The string `"at_target"`.
fn at_target_name() -> (r: String)
    ensures
        r@ == "at_target"@,
{
    String::from_str("at_target")
}

/// The string `"position"`.
fn position_name() -> (r: String)
    ensures
        r@ == "position"@,
{
    String::from_str("position")
}

/// The string `"GdPAILocationData"`.
fn location_group_name() -> (r: String)
    ensures
        r@ == "GdPAILocationData"@,
{
    String::from_str("GdPAILocationData")
}

/// Values of the first binding named `name`, if any.
pub fn find_binding<'a>(bindings: &'a [(String, Vec<VariantSnapshot>)], name: &String) -> (r: Option<&'a Vec<VariantSnapshot>>)
    ensures
        match r {
            Some(v) => first_binding(binding_models(bindings@), name@) == Some(variant_models(v@)),
            None => first_binding(binding_models(bindings@), name@) is None,
        },
{
    let ghost m = binding_models(bindings@);
    assert(m.skip(0) =~= m);
    let mut i: usize = 0;
    while i < bindings.len()
        invariant
            m == binding_models(bindings@),
            i <= bindings.len(),
            first_binding(m, name@) == first_binding(m.skip(i as int), name@),
        decreases bindings.len() - i,
    {
        assert(m.skip(i as int).drop_first() =~= m.skip(i + 1));
        if bindings[i].0.eq(name) {
            return Some(&bindings[i].1);
        }
        i = i + 1;
    }
    None
}

/// Returns `true` if `requirement` holds in the given `agent` and `world` state, also
/// accepting the per-chain-position bindings promised by predecessor actions.
#[verifier::loop_isolation(false)]
pub fn requirement_holds_in_state(
    requirement: &RequirementSpec,
    agent: &BlackboardSnapshot,
    world: &BlackboardSnapshot,
    current_bindings: &[(String, Vec<VariantSnapshot>)],
) -> (res: bool)
    ensures
        res == requirement_holds(requirement@, agent@, world@, binding_models(current_bindings@)),
{
    let ghost b = binding_models(current_bindings@);
    match requirement {
        RequirementSpec::BindingExists { binding_name } => {
            let mut i: usize = 0;
            while i < current_bindings.len()
                invariant
                    b == binding_models(current_bindings@),
                    i <= current_bindings.len(),
                    forall|j: int| 0 <= j < i ==> !((#[trigger] b[j]).0 == binding_name@ && b[j].1.len() > 0),
                decreases current_bindings.len() - i,
            {
                proof {
                    lemma_variant_models_len(current_bindings@[i as int].1@);
                }
                if current_bindings[i].0.eq(binding_name) && current_bindings[i].1.len() > 0 {
                    assert(b[i as int].0 == binding_name@ && b[i as int].1.len() > 0);
                    return true;
                }
                i = i + 1;
            }
            match agent.get_property(binding_name) {
                Some(v) => !v.is_null() && !v.is_empty_string(),
                None => false,
            }
        },
        RequirementSpec::BindingEquals { binding_name, value } => {
            let mut i: usize = 0;
            while i < current_bindings.len()
                invariant
                    b == binding_models(current_bindings@),
                    i <= current_bindings.len(),
                    forall|j: int|
                        0 <= j < i ==> !((#[trigger] b[j]).0 == binding_name@ && b[j].1.len() == 1
                            && b[j].1[0] == value@),
                decreases current_bindings.len() - i,
            {
                let vals = &current_bindings[i].1;
                proof {
                    lemma_variant_models_len(vals@);
                    if vals@.len() == 1 {
                        lemma_variant_models_index(vals@, 0);
                    }
                }
                if current_bindings[i].0.eq(binding_name) && vals.len() == 1 && variant_eq(&vals[0], value) {
                    assert(b[i as int].0 == binding_name@ && b[i as int].1.len() == 1 && b[i as int].1[0] == value@);
                    return true;
                }
                i = i + 1;
            }
            match agent.get_property(binding_name) {
                Some(v) => variant_eq(v, value),
                None => false,
            }
        },
        RequirementSpec::BindingInSet { binding_name, set_name } => {
            let mut i: usize = 0;
            while i < current_bindings.len()
                invariant
                    b == binding_models(current_bindings@),
                    i <= current_bindings.len(),
                    forall|j: int|
                        0 <= j < i ==> !((#[trigger] b[j]).0 == binding_name@ && b[j].1.len() > 0
                            && object_ref_in_set(b[j].1[0], set_name@, world@)),
                decreases current_bindings.len() - i,
            {
                let vals = &current_bindings[i].1;
                proof {
                    lemma_variant_models_len(vals@);
                    if vals@.len() > 0 {
                        lemma_variant_models_index(vals@, 0);
                    }
                }
                if current_bindings[i].0.eq(binding_name) && vals.len() > 0 && object_in_set(&vals[0], set_name, world) {
                    assert(b[i as int].0 == binding_name@ && b[i as int].1.len() > 0 && object_ref_in_set(b[i as int].1[0], set_name@, world@));
                    return true;
                }
                i = i + 1;
            }
            match agent.get_property(binding_name) {
                Some(v) => object_in_set(v, set_name, world),
                None => false,
            }
        },
        RequirementSpec::Fact { fact_name, args } => {
            proof {
                lemma_variant_models_len(args@);
                if args@.len() > 0 {
                    lemma_variant_models_index(args@, 0);
                }
            }
            let at_target = at_target_name();
            if fact_name.eq(&at_target) && args.len() > 0 {
                let position = position_name();
                let target_pos = match &args[0] {
                    VariantSnapshot::ObjectRef(id) => match world.get_object_by_instance_id(*id) {
                        Some(obj) => find_property(&obj.properties, &position),
                        None => None,
                    },
                    _ => None,
                };
                let location = location_group_name();
                let agent_pos = match agent.get_object_by_group(&location) {
                    Some(obj) => find_property(&obj.properties, &position),
                    None => None,
                };
                match (target_pos, agent_pos) {
                    (Some(tp), Some(ap)) => {
                        return variant_eq(tp, ap);
                    },
                    _ => {},
                }
                match find_binding(current_bindings, fact_name) {
                    Some(vals) => variants_eq(vals, args),
                    None => false,
                }
            } else {
                true
            }
        },
    }
}


/// With a world given, a binding provision satisfies a binding-in-set
/// requirement exactly when the names agree and the provided value refers, by
/// its instance id, to a world object that belongs to the set.
pub proof fn lemma_binding_in_set_needs_membership(
    provided_name: Seq<char>,
    provided: VariantModel,
    name: Seq<char>,
    set: Seq<char>,
    world: BlackboardModel,
)
    ensures
        provision_satisfies(
            ProvisionModel::Binding { name: provided_name, value: provided },
            RequirementModel::BindingInSet { name, set },
            Some(world),
        ) <==> provided_name == name && exists|id: i64|
            provided == VariantModel::ObjectRef(id) && match #[trigger] lookup_object(
                world.objects,
                decimal_text(id as int),
            ) {
                Some(o) => o.groups.contains(set),
                None => false,
            },
{
    if let VariantModel::ObjectRef(id) = provided {
        assert(provided == VariantModel::ObjectRef(id));
        let l = lookup_object(world.objects, decimal_text(id as int));
    }
}

/// A provided object that is not in the requested set never satisfies a
/// binding-in-set requirement in that world, whatever the names.
pub proof fn lemma_object_outside_set_fails(
    provided_name: Seq<char>,
    id: i64,
    name: Seq<char>,
    set: Seq<char>,
    world: BlackboardModel,
    o: crate::snapshot::SimObjectModel,
)
    requires
        lookup_object(world.objects, decimal_text(id as int)) == Some(o),
        !o.groups.contains(set),
    ensures
        !provision_satisfies(
            ProvisionModel::Binding { name: provided_name, value: VariantModel::ObjectRef(id) },
            RequirementModel::BindingInSet { name, set },
            Some(world),
        ),
{
}

/// When no chain binding carries the name, a binding-equals requirement holds
/// in a state exactly when the agent's property of that name has the required
/// value: a different value, or no property, makes it fail.
pub proof fn lemma_binding_equals_reads_agent(
    name: Seq<char>,
    value: VariantModel,
    agent: BlackboardModel,
    world: BlackboardModel,
    b: Seq<(Seq<char>, Seq<VariantModel>)>,
)
    requires
        forall|i: int| 0 <= i < b.len() ==> (#[trigger] b[i]).0 != name,
    ensures
        requirement_holds(RequirementModel::BindingEquals { name, value }, agent, world, b) <==> lookup_property(
            agent.properties,
            name,
        ) == Some(value),
{
    if has_single_binding(b, name, value) {
        let i = choose|i: int| 0 <= i < b.len() && (#[trigger] b[i]).0 == name && b[i].1.len() == 1 && b[i].1[0] == value;
        assert(b[i].0 != name);
    }
}


/// The name a provision provides under.
pub open spec fn provided_name(p: ProvisionModel) -> Seq<char> {
    match p {
        ProvisionModel::Binding { name, .. } => name,
        ProvisionModel::Fact { name, .. } => name,
        ProvisionModel::FactWildcard { name } => name,
    }
}

/// The name a requirement asks for.
pub open spec fn required_name(r: RequirementModel) -> Seq<char> {
    match r {
        RequirementModel::BindingExists { name } => name,
        RequirementModel::BindingEquals { name, .. } => name,
        RequirementModel::BindingInSet { name, .. } => name,
        RequirementModel::Fact { name, .. } => name,
    }
}

/// A provision only ever satisfies a requirement of its own name and kind
/// (bindings for binding requirements, facts for fact requirements); a binding
/// satisfies a binding-equals requirement exactly when it provides that very
/// value; a concrete fact satisfies a fact requirement with arguments exactly
/// when it provides those arguments; and without a world, a binding of the
/// right name satisfies any binding requirement but binding-equals.
pub proof fn lemma_provision_matching(p: ProvisionModel, r: RequirementModel, world: Option<BlackboardModel>)
    ensures
        provision_satisfies(p, r, world) ==> provided_name(p) == required_name(r),
        provision_satisfies(p, r, world) ==> (p is Binding <==> !(r is Fact)),
        (world is None && p is Binding && !(r is Fact) && !(r is BindingEquals)) ==> (provision_satisfies(p, r, world)
            <==> provided_name(p) == required_name(r)),
{
}

/// A binding satisfies a binding-equals requirement exactly when it has its name
/// and provides that very value.
pub proof fn lemma_binding_equals_matching(
    provided_name: Seq<char>,
    provided: VariantModel,
    name: Seq<char>,
    value: VariantModel,
    world: Option<BlackboardModel>,
)
    ensures
        provision_satisfies(
            ProvisionModel::Binding { name: provided_name, value: provided },
            RequirementModel::BindingEquals { name, value },
            world,
        ) <==> provided_name == name && provided == value,
{
}

/// A concrete fact satisfies a fact requirement that names arguments exactly
/// when it has its name and provides those arguments; a requirement without
/// arguments takes any fact of its name.
pub proof fn lemma_fact_matching(
    provided_name: Seq<char>,
    provided: Seq<VariantModel>,
    name: Seq<char>,
    args: Seq<VariantModel>,
    world: Option<BlackboardModel>,
)
    ensures
        args.len() > 0 ==> (provision_satisfies(
            ProvisionModel::Fact { name: provided_name, args: provided },
            RequirementModel::Fact { name, args },
            world,
        ) <==> provided_name == name && provided == args),
        args.len() == 0 ==> (provision_satisfies(
            ProvisionModel::Fact { name: provided_name, args: provided },
            RequirementModel::Fact { name, args },
            world,
        ) <==> provided_name == name),
{
}

/// When no chain binding carries the name, a binding-exists requirement holds
/// exactly when the agent has a non-null, non-empty property of that name, and a
/// binding-in-set requirement holds exactly when the agent's property of that
/// name refers to a world object of the set.
pub proof fn lemma_binding_requirements_read_agent(
    name: Seq<char>,
    set: Seq<char>,
    agent: BlackboardModel,
    world: BlackboardModel,
    b: Seq<(Seq<char>, Seq<VariantModel>)>,
)
    requires
        forall|i: int| 0 <= i < b.len() ==> (#[trigger] b[i]).0 != name,
    ensures
        requirement_holds(RequirementModel::BindingExists { name }, agent, world, b) <==> match lookup_property(
            agent.properties,
            name,
        ) {
            Some(v) => !(v is Nil) && v != VariantModel::Str(Seq::empty()),
            None => false,
        },
        requirement_holds(RequirementModel::BindingInSet { name, set }, agent, world, b) <==> exists|id: i64|
            lookup_property(agent.properties, name) == Some(VariantModel::ObjectRef(id)) && match #[trigger] lookup_object(
                world.objects,
                decimal_text(id as int),
            ) {
                Some(o) => o.groups.contains(set),
                None => false,
            },
{
    if has_nonempty_binding(b, name) {
        let i = choose|i: int| 0 <= i < b.len() && (#[trigger] b[i]).0 == name && b[i].1.len() > 0;
        assert(b[i].0 != name);
    }
    if has_binding_in_set(b, name, set, world) {
        let i = choose|i: int|
            0 <= i < b.len() && (#[trigger] b[i]).0 == name && b[i].1.len() > 0 && object_ref_in_set(b[i].1[0], set, world);
        assert(b[i].0 != name);
    }
    match lookup_property(agent.properties, name) {
        Some(v) => {
            if let VariantModel::Str(s) = v {
                if s.len() == 0 {
                    assert(s =~= Seq::<char>::empty());
                }
            }
            if let VariantModel::ObjectRef(id) = v {
                let l = lookup_object(world.objects, decimal_text(id as int));
            }
        },
        None => {},
    }
}

} // verus!
