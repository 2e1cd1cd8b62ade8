//! Precondition targets and operations.
//!
//! Operation names come from the scripting bridge as strings; they are matched
//! case-insensitively, and unknown names fall back to `HasProperty`.
use crate::snapshot::VariantSnapshot;
use vstd::prelude::*;
use vstd::string::*;

verus! {

/// Where to evaluate a precondition.
#[derive(Debug, PartialEq, Eq, Hash)]
pub enum PreconditionTarget {
    Agent,
    WorldState,
    /// Evaluate against a property of the world objects that belong to `group`.
    WorldObjectProxy { group: String, property: String },
}

/// Mathematical model of a [`PreconditionTarget`].
pub enum TargetModel {
    Agent,
    WorldState,
    WorldObjectProxy { group: Seq<char>, property: Seq<char> },
}

impl View for PreconditionTarget {
    type V = TargetModel;

    open spec fn view(&self) -> TargetModel {
        match self {
            PreconditionTarget::Agent => TargetModel::Agent,
            PreconditionTarget::WorldState => TargetModel::WorldState,
            PreconditionTarget::WorldObjectProxy { group, property } => TargetModel::WorldObjectProxy {
                group: group@,
                property: property@,
            },
        }
    }
}

impl PreconditionTarget {
    /// Deep copy with the same model.
    pub fn copy(&self) -> (r: Self)
        ensures
            r@ == self@,
    {
        match self {
            PreconditionTarget::Agent => PreconditionTarget::Agent,
            PreconditionTarget::WorldState => PreconditionTarget::WorldState,
            PreconditionTarget::WorldObjectProxy { group, property } => PreconditionTarget::WorldObjectProxy {
                group: group.clone(),
                property: property.clone(),
            },
        }
    }

    /// Structural equality: equal exactly when the models are equal.
    pub fn same_as(&self, other: &Self) -> (r: bool)
        ensures
            r == (self@ == other@),
    {
        match (self, other) {
            (PreconditionTarget::Agent, PreconditionTarget::Agent) => true,
            (PreconditionTarget::WorldState, PreconditionTarget::WorldState) => true,
            (
                PreconditionTarget::WorldObjectProxy { group: ga, property: pa },
                PreconditionTarget::WorldObjectProxy { group: gb, property: pb },
            ) => ga.eq(gb) && pa.eq(pb),
            _ => false,
        }
    }
}

impl Clone for PreconditionTarget {
    fn clone(&self) -> (r: Self)
        ensures
            r@ == self@,
    {
        self.copy()
    }
}

/// Types of precondition operations.
#[derive(Clone, Copy, Debug, PartialEq, Eq, Hash, Structural)]
pub enum PreconditionOp {
    HasProperty,
    Equal,
    NotEqual,
    GreaterThan,
    GreaterThanOrEqual,
    LessThan,
    LessThanOrEqual,
    CustomCallback,
}

/// The operation named by an already lower-cased operation name.
pub open spec fn operation_for_name(s: Seq<char>) -> PreconditionOp {
    if s == "has_property"@ {
        PreconditionOp::HasProperty
    } else if s == "equal"@ {
        PreconditionOp::Equal
    } else if s == "not_equal"@ {
        PreconditionOp::NotEqual
    } else if s == "greater_than"@ {
        PreconditionOp::GreaterThan
    } else if s == "greater_than_or_equal"@ {
        PreconditionOp::GreaterThanOrEqual
    } else if s == "less_than"@ {
        PreconditionOp::LessThan
    } else if s == "less_than_or_equal"@ {
        PreconditionOp::LessThanOrEqual
    } else if s == "custom_callback"@ {
        PreconditionOp::CustomCallback
    } else {
        PreconditionOp::HasProperty
    }
}

/// The target named by an already lower-cased target name.
pub open spec fn target_for_name(s: Seq<char>, group: Seq<char>, property: Seq<char>) -> TargetModel {
    if s == "world_state"@ {
        TargetModel::WorldState
    } else if s == "world_object_proxy"@ {
        TargetModel::WorldObjectProxy { group, property }
    } else {
        TargetModel::Agent
    }
}

/// Lower-case mapping of a string, as `str::to_lowercase` computes it.
pub uninterp spec fn lowercase(s: Seq<char>) -> Seq<char>;

/// Lower-cases `s`.
///
/// Calls `str::to_lowercase`; the contract names its result (the Unicode
/// lower-case mapping of the characters of `s`) and states nothing more of it.
#[verifier::external_body]
fn to_lowercase(s: &str) -> (r: String)
    ensures
        r@ == lowercase(s@),
{
    s.to_lowercase()
}

/// Returns true if `s` is the text `name`.
pub(crate) fn is_named(s: &String, name: &str) -> (r: bool)
    ensures
        r == (s@ == name@),
{
    s.eq(&String::from_str(name))
}

/// Maps an already lower-cased operation name to its operation; unknown names give
/// `HasProperty`.
pub fn operation_from_lowercase(s: &String) -> (r: PreconditionOp)
    ensures
        r == operation_for_name(s@),
{
    if is_named(s, "has_property") {
        PreconditionOp::HasProperty
    } else if is_named(s, "equal") {
        PreconditionOp::Equal
    } else if is_named(s, "not_equal") {
        PreconditionOp::NotEqual
    } else if is_named(s, "greater_than") {
        PreconditionOp::GreaterThan
    } else if is_named(s, "greater_than_or_equal") {
        PreconditionOp::GreaterThanOrEqual
    } else if is_named(s, "less_than") {
        PreconditionOp::LessThan
    } else if is_named(s, "less_than_or_equal") {
        PreconditionOp::LessThanOrEqual
    } else if is_named(s, "custom_callback") {
        PreconditionOp::CustomCallback
    } else {
        PreconditionOp::HasProperty
    }
}

/// Maps an already lower-cased target name to its target: `world_state`, or
/// `world_object_proxy` with `group` and `property`; any other name means the agent.
pub fn target_from_lowercase(s: &String, group: String, property: String) -> (r: PreconditionTarget)
    ensures
        r@ == target_for_name(s@, group@, property@),
{
    if is_named(s, "world_state") {
        PreconditionTarget::WorldState
    } else if is_named(s, "world_object_proxy") {
        PreconditionTarget::WorldObjectProxy { group, property }
    } else {
        PreconditionTarget::Agent
    }
}

/// Maps a target name (ignoring case) to its target; `world_object_proxy` uses
/// `group` and `property`, and any other name than `world_state` means the agent.
pub fn parse_target(s: &str, group: String, property: String) -> (r: PreconditionTarget)
    ensures
        r@ == target_for_name(lowercase(s@), group@, property@),
{
    let lowered = to_lowercase(s);
    target_from_lowercase(&lowered, group, property)
}

/// A precondition as described by the scripting bridge, in plain values: the
/// target, the operation, the property, the value to compare with, and the
/// registered id of the evaluation callable, if any.
#[derive(Debug)]
pub struct PreconditionHandler {
    pub target: PreconditionTarget,
    pub operation: PreconditionOp,
    pub property_name: String,
    pub value: Option<VariantSnapshot>,
    pub eval_callable: Option<usize>,
}

/// The string of an optional text field, or the empty string.
pub open spec fn text_or_empty(s: Option<String>) -> Seq<char> {
    match s {
        Some(t) => t@,
        None => Seq::empty(),
    }
}

fn string_or_empty(s: Option<String>) -> (r: String)
    ensures
        r@ == text_or_empty(s),
{
    match s {
        Some(t) => t,
        None => String::new(),
    }
}

impl PreconditionHandler {
    /// Maps an operation name from the scripting bridge to its operation, ignoring
    /// case; unrecognised names fall back to `HasProperty`.
    pub fn parse_operation(s: &str) -> (r: PreconditionOp)
        ensures
            r == operation_for_name(lowercase(s@)),
    {
        let lowered = to_lowercase(s);
        operation_from_lowercase(&lowered)
    }

    /// Builds a handler from the fields of a scripted description. A missing
    /// target means the agent; `group` and `property` matter only for the
    /// `world_object_proxy` target and default to empty; a missing operation
    /// means `HasProperty`; a missing property name is empty.
    pub fn from_fields(
        target: Option<&str>,
        group: Option<String>,
        property: Option<String>,
        operation: Option<&str>,
        property_name: Option<String>,
        value: Option<VariantSnapshot>,
        eval_callable: Option<usize>,
    ) -> (r: PreconditionHandler)
        ensures
            r.target@ == match target {
                Some(t) => target_for_name(lowercase(t@), text_or_empty(group), text_or_empty(property)),
                None => TargetModel::Agent,
            },
            r.operation == match operation {
                Some(o) => operation_for_name(lowercase(o@)),
                None => PreconditionOp::HasProperty,
            },
            r.property_name@ == text_or_empty(property_name),
            r.value == value,
            r.eval_callable == eval_callable,
    {
        let t = match target {
            Some(name) => parse_target(name, string_or_empty(group), string_or_empty(property)),
            None => PreconditionTarget::Agent,
        };
        let op = match operation {
            Some(name) => PreconditionHandler::parse_operation(name),
            None => PreconditionOp::HasProperty,
        };
        PreconditionHandler {
            target: t,
            operation: op,
            property_name: string_or_empty(property_name),
            value,
            eval_callable,
        }
    }
}

} // verus!
