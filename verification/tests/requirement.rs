use gdplanningai_rust::requirement::{
    extend_unique_provisions, extend_unique_requirements, extract_initial_provisions, get_unsatisfied_requirements,
    provision_satisfies_requirement, provisions_satisfy_any_requirement, remove_satisfied_requirements,
    requirement_holds_in_state, requirement_satisfied, requirements_satisfied, ProvisionSpec, RequirementSpec,
    SpecFields,
};
use gdplanningai_rust::snapshot::{BlackboardSnapshot, SimObjectData, VariantSnapshot};

fn empty_snapshot() -> BlackboardSnapshot {
    BlackboardSnapshot { properties: vec![], objects: vec![] }
}

fn grouped(uid: &str, group: &str) -> (String, SimObjectData) {
    (uid.to_string(), SimObjectData { uid: uid.to_string(), groups: vec![group.to_string()], properties: vec![] })
}

fn fields(kind: &str) -> SpecFields {
    SpecFields { kind: kind.to_string(), binding_name: None, value: None, set_name: None, fact_name: None, args: vec![] }
}

#[test]
fn binding_in_set_checks_all_matching_bindings() {
    let agent = empty_snapshot();
    let mut world = empty_snapshot();
    world.objects.push(grouped("1", "weapon"));
    world.objects.push(grouped("2", "food"));

    let current_bindings = vec![
        ("held_item".to_string(), vec![VariantSnapshot::ObjectRef(1)]),
        ("held_item".to_string(), vec![VariantSnapshot::ObjectRef(2)]),
    ];

    let req = RequirementSpec::BindingInSet { binding_name: "held_item".to_string(), set_name: "food".to_string() };

    assert!(
        requirement_holds_in_state(&req, &agent, &world, &current_bindings),
        "BindingInSet should pass when any matching binding is in the requested set"
    );
}

#[test]
fn binding_in_set_rejects_object_outside_set() {
    let agent = empty_snapshot();
    let mut world = empty_snapshot();
    world.objects.push(grouped("1", "weapon"));
    let current_bindings = vec![("held_item".to_string(), vec![VariantSnapshot::ObjectRef(1)])];
    let req = RequirementSpec::BindingInSet { binding_name: "held_item".to_string(), set_name: "food".to_string() };
    assert!(!requirement_holds_in_state(&req, &agent, &world, &current_bindings));
}

#[test]
fn binding_exists_accepts_agent_property_or_binding() {
    let agent = BlackboardSnapshot {
        properties: vec![("weapon".to_string(), VariantSnapshot::Str(String::new()))],
        objects: vec![],
    };
    let world = empty_snapshot();
    let req = RequirementSpec::BindingExists { binding_name: "weapon".to_string() };
    assert!(!requirement_holds_in_state(&req, &agent, &world, &[]));
    let bindings = vec![("weapon".to_string(), vec![VariantSnapshot::ObjectRef(4)])];
    assert!(requirement_holds_in_state(&req, &agent, &world, &bindings));
}

#[test]
fn provisions_match_requirements_by_kind() {
    let fact_req = RequirementSpec::Fact { fact_name: "at_target".to_string(), args: vec![VariantSnapshot::ObjectRef(5)] };
    let wildcard = ProvisionSpec::FactWildcard { fact_name: "at_target".to_string() };
    let other = ProvisionSpec::Fact { fact_name: "at_target".to_string(), args: vec![VariantSnapshot::ObjectRef(6)] };
    assert!(provision_satisfies_requirement(&wildcard, &fact_req, None));
    assert!(!provision_satisfies_requirement(&other, &fact_req, None));
    let exists = RequirementSpec::BindingExists { binding_name: "item".to_string() };
    let binding = ProvisionSpec::Binding { binding_name: "item".to_string(), value: VariantSnapshot::Int(1) };
    assert!(provision_satisfies_requirement(&binding, &exists, None));
    assert!(requirement_satisfied(&exists, &[binding.clone()]));
    assert!(!requirements_satisfied(&[exists.clone(), fact_req.clone()], &[binding.clone()]));
    assert!(provisions_satisfy_any_requirement(&[binding], &[fact_req, exists]));
}

#[test]
fn unsatisfied_requirements_keep_order() {
    let a = RequirementSpec::BindingExists { binding_name: "a".to_string() };
    let b = RequirementSpec::BindingExists { binding_name: "b".to_string() };
    let c = RequirementSpec::BindingExists { binding_name: "c".to_string() };
    let provs = vec![ProvisionSpec::Binding { binding_name: "b".to_string(), value: VariantSnapshot::Int(1) }];
    let reqs = vec![a.clone(), b, c.clone()];
    assert_eq!(get_unsatisfied_requirements(&reqs, &provs), vec![a.clone(), c.clone()]);
    assert_eq!(remove_satisfied_requirements(&reqs, &provs), vec![a, c]);
}

#[test]
fn extending_skips_duplicates() {
    let a = RequirementSpec::BindingExists { binding_name: "a".to_string() };
    let b = RequirementSpec::BindingExists { binding_name: "b".to_string() };
    let mut reqs = vec![a.clone()];
    extend_unique_requirements(&mut reqs, &[b.clone(), a.clone(), b.clone()]);
    assert_eq!(reqs, vec![a.clone(), b.clone()]);
    extend_unique_requirements(&mut reqs, &[b.clone(), a.clone(), b.clone()]);
    assert_eq!(reqs, vec![a, b]);
    let p = ProvisionSpec::FactWildcard { fact_name: "x".to_string() };
    let mut provs = vec![];
    extend_unique_provisions(&mut provs, &[p.clone(), p.clone()]);
    assert_eq!(provs, vec![p]);
}

#[test]
fn initial_provisions_skip_null_and_empty_values() {
    let agent = BlackboardSnapshot {
        properties: vec![
            ("hunger".to_string(), VariantSnapshot::Int(3)),
            ("target".to_string(), VariantSnapshot::Nil),
            ("name".to_string(), VariantSnapshot::Str(String::new())),
            ("tool".to_string(), VariantSnapshot::ObjectRef(9)),
        ],
        objects: vec![],
    };
    assert_eq!(
        extract_initial_provisions(&agent),
        vec![
            ProvisionSpec::Binding { binding_name: "hunger".to_string(), value: VariantSnapshot::Int(3) },
            ProvisionSpec::Binding { binding_name: "tool".to_string(), value: VariantSnapshot::ObjectRef(9) },
        ]
    );
}

#[test]
fn requirement_fields_need_their_names() {
    let mut f = fields("binding_equals");
    f.binding_name = Some("item".to_string());
    assert_eq!(RequirementSpec::from_fields(&f), None);
    f.value = Some(VariantSnapshot::Int(2));
    assert_eq!(
        RequirementSpec::from_fields(&f),
        Some(RequirementSpec::BindingEquals { binding_name: "item".to_string(), value: VariantSnapshot::Int(2) })
    );
    let mut f = fields("fact");
    f.fact_name = Some("at_target".to_string());
    assert_eq!(
        RequirementSpec::from_fields(&f),
        Some(RequirementSpec::Fact { fact_name: "at_target".to_string(), args: vec![] })
    );
    let mut f = fields("binding_in_set");
    f.binding_name = Some("x".to_string());
    f.set_name = Some("food".to_string());
    assert_eq!(
        RequirementSpec::from_fields(&f),
        Some(RequirementSpec::BindingInSet { binding_name: "x".to_string(), set_name: "food".to_string() })
    );
    assert_eq!(RequirementSpec::from_fields(&fields("binding_exists")), None);
    assert_eq!(RequirementSpec::from_fields(&fields("")), None);
}

#[test]
fn provision_fields_need_their_names() {
    let mut f = fields("fact_wildcard");
    assert_eq!(ProvisionSpec::from_fields(&f), None);
    f.fact_name = Some("at_target".to_string());
    assert_eq!(ProvisionSpec::from_fields(&f), Some(ProvisionSpec::FactWildcard { fact_name: "at_target".to_string() }));
    let mut f = fields("binding");
    f.binding_name = Some("item".to_string());
    f.value = Some(VariantSnapshot::ObjectRef(3));
    assert_eq!(
        ProvisionSpec::from_fields(&f),
        Some(ProvisionSpec::Binding { binding_name: "item".to_string(), value: VariantSnapshot::ObjectRef(3) })
    );
    assert_eq!(ProvisionSpec::from_fields(&fields("binding_exists")), None);
}

#[test]
fn signed_zeros_are_one_float_value() {
    let req = RequirementSpec::BindingEquals { binding_name: "speed".to_string(), value: VariantSnapshot::Float((-0.0f64).to_bits()) };
    let prov = ProvisionSpec::Binding { binding_name: "speed".to_string(), value: VariantSnapshot::Float(0.0f64.to_bits()) };
    assert!(provision_satisfies_requirement(&prov, &req, None));
    let other = ProvisionSpec::Binding { binding_name: "speed".to_string(), value: VariantSnapshot::Float(1.0f64.to_bits()) };
    assert!(!provision_satisfies_requirement(&other, &req, None));
}
