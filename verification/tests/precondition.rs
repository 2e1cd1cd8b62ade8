use gdplanningai_rust::precondition::{
    operation_from_lowercase, parse_target, target_from_lowercase, PreconditionHandler, PreconditionOp,
    PreconditionTarget,
};
use gdplanningai_rust::snapshot::VariantSnapshot;

#[test]
fn parse_all_known_operations() {
    assert_eq!(PreconditionHandler::parse_operation("has_property"), PreconditionOp::HasProperty);
    assert_eq!(PreconditionHandler::parse_operation("equal"), PreconditionOp::Equal);
    assert_eq!(PreconditionHandler::parse_operation("not_equal"), PreconditionOp::NotEqual);
    assert_eq!(PreconditionHandler::parse_operation("greater_than"), PreconditionOp::GreaterThan);
    assert_eq!(
        PreconditionHandler::parse_operation("greater_than_or_equal"),
        PreconditionOp::GreaterThanOrEqual
    );
    assert_eq!(PreconditionHandler::parse_operation("less_than"), PreconditionOp::LessThan);
    assert_eq!(PreconditionHandler::parse_operation("less_than_or_equal"), PreconditionOp::LessThanOrEqual);
    assert_eq!(PreconditionHandler::parse_operation("custom_callback"), PreconditionOp::CustomCallback);
}

#[test]
fn parse_operation_is_case_insensitive() {
    assert_eq!(PreconditionHandler::parse_operation("EQUAL"), PreconditionOp::Equal);
    assert_eq!(PreconditionHandler::parse_operation("Greater_Than"), PreconditionOp::GreaterThan);
    assert_eq!(PreconditionHandler::parse_operation("HAS_PROPERTY"), PreconditionOp::HasProperty);
    assert_eq!(PreconditionHandler::parse_operation("CUSTOM_CALLBACK"), PreconditionOp::CustomCallback);
}

#[test]
fn parse_unknown_operation_defaults_to_has_property() {
    assert_eq!(PreconditionHandler::parse_operation("nonexistent"), PreconditionOp::HasProperty);
    assert_eq!(PreconditionHandler::parse_operation(""), PreconditionOp::HasProperty);
    assert_eq!(PreconditionHandler::parse_operation("gt"), PreconditionOp::HasProperty);
}

#[test]
fn target_names_ignore_case() {
    assert_eq!(parse_target("World_State", String::new(), String::new()), PreconditionTarget::WorldState);
    assert_eq!(
        parse_target("WORLD_OBJECT_PROXY", "trees".to_string(), "fruit".to_string()),
        PreconditionTarget::WorldObjectProxy { group: "trees".to_string(), property: "fruit".to_string() }
    );
    assert_eq!(parse_target("anything", "g".to_string(), "p".to_string()), PreconditionTarget::Agent);
}

#[test]
fn handler_fields_take_defaults() {
    let h = PreconditionHandler::from_fields(None, None, None, None, None, None, None);
    assert_eq!(h.target, PreconditionTarget::Agent);
    assert_eq!(h.operation, PreconditionOp::HasProperty);
    assert_eq!(h.property_name, "");
    assert_eq!(h.value, None);
    assert_eq!(h.eval_callable, None);
    let h = PreconditionHandler::from_fields(
        Some("world_object_proxy"),
        Some("food".to_string()),
        None,
        Some("Less_Than"),
        Some("hunger".to_string()),
        Some(VariantSnapshot::Int(3)),
        Some(2),
    );
    assert_eq!(h.target, PreconditionTarget::WorldObjectProxy { group: "food".to_string(), property: String::new() });
    assert_eq!(h.operation, PreconditionOp::LessThan);
    assert_eq!(h.property_name, "hunger");
    assert_eq!(h.value, Some(VariantSnapshot::Int(3)));
    assert_eq!(h.eval_callable, Some(2));
}

#[test]
fn lowercase_names_map_directly() {
    assert_eq!(operation_from_lowercase(&"less_than".to_string()), PreconditionOp::LessThan);
    assert_eq!(operation_from_lowercase(&"LESS_THAN".to_string()), PreconditionOp::HasProperty);
    assert_eq!(target_from_lowercase(&"world_state".to_string(), String::new(), String::new()), PreconditionTarget::WorldState);
    assert_eq!(target_from_lowercase(&"World_State".to_string(), String::new(), String::new()), PreconditionTarget::Agent);
}
