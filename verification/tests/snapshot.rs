use gdplanningai_rust::snapshot::{BlackboardSnapshot, SimObjectData, VariantSnapshot};

fn make_test_snapshot() -> BlackboardSnapshot {
    BlackboardSnapshot {
        properties: vec![
            ("health".to_string(), VariantSnapshot::Int(100)),
            ("stamina".to_string(), VariantSnapshot::Float(75.5f64.to_bits())),
            ("name".to_string(), VariantSnapshot::Str("TestAgent".to_string())),
            ("is_alive".to_string(), VariantSnapshot::Bool(true)),
        ],
        objects: vec![],
    }
}

#[test]
fn variant_snapshot_nil_preserves_type() {
    let snap = VariantSnapshot::Nil;
    assert!(matches!(snap, VariantSnapshot::Nil));
}

#[test]
fn variant_snapshot_int_preserves_value() {
    let snap = VariantSnapshot::Int(42);
    match snap {
        VariantSnapshot::Int(v) => assert_eq!(v, 42),
        _ => panic!("Expected Int variant"),
    }
}

#[test]
fn variant_snapshot_float_preserves_value() {
    let snap = VariantSnapshot::Float(3.14159f64.to_bits());
    match snap {
        VariantSnapshot::Float(v) => assert!((f64::from_bits(v) - 3.14159).abs() < f64::EPSILON),
        _ => panic!("Expected Float variant"),
    }
}

#[test]
fn blackboard_snapshot_retrieves_stored_values() {
    let snapshot = make_test_snapshot();

    match snapshot.get_property(&"health".to_string()).unwrap() {
        VariantSnapshot::Int(v) => assert_eq!(*v, 100),
        _ => panic!("Expected Int"),
    }

    match snapshot.get_property(&"stamina".to_string()).unwrap() {
        VariantSnapshot::Float(v) => assert!((f64::from_bits(*v) - 75.5).abs() < f64::EPSILON),
        _ => panic!("Expected Float"),
    }

    match snapshot.get_property(&"name".to_string()).unwrap() {
        VariantSnapshot::Str(s) => assert_eq!(s, "TestAgent"),
        _ => panic!("Expected Str"),
    }

    match snapshot.get_property(&"is_alive".to_string()).unwrap() {
        VariantSnapshot::Bool(b) => assert!(*b),
        _ => panic!("Expected Bool"),
    }
}

#[test]
fn blackboard_snapshot_missing_property_returns_none() {
    let snapshot = make_test_snapshot();
    assert!(snapshot.get_property(&"nonexistent".to_string()).is_none());
}

#[test]
fn blackboard_snapshot_clone_creates_independent_copy() {
    let original = make_test_snapshot();
    let mut cloned = original.clone();

    cloned.set_property("new_prop".to_string(), VariantSnapshot::Int(42));

    assert!(original.get_property(&"new_prop".to_string()).is_none());
    assert!(cloned.get_property(&"new_prop".to_string()).is_some());
}

#[test]
fn set_property_replaces_existing_value() {
    let mut snapshot = make_test_snapshot();
    snapshot.set_property("health".to_string(), VariantSnapshot::Int(7));
    assert_eq!(snapshot.get_property(&"health".to_string()), Some(&VariantSnapshot::Int(7)));
    assert_eq!(snapshot.properties.len(), 4);
    assert!(snapshot.has_property(&"name".to_string()));
}

#[test]
fn objects_are_found_by_uid_instance_id_and_group() {
    let snapshot = BlackboardSnapshot {
        properties: vec![],
        objects: vec![
            (
                "-12".to_string(),
                SimObjectData { uid: "-12".to_string(), groups: vec!["tree".to_string()], properties: vec![] },
            ),
            (
                "30".to_string(),
                SimObjectData {
                    uid: "30".to_string(),
                    groups: vec!["food".to_string(), "tree".to_string()],
                    properties: vec![],
                },
            ),
        ],
    };
    assert_eq!(snapshot.get_object_by_instance_id(-12).map(|o| o.uid.clone()), Some("-12".to_string()));
    assert_eq!(snapshot.get_object_by_instance_id(30).map(|o| o.uid.clone()), Some("30".to_string()));
    assert!(snapshot.get_object_by_instance_id(31).is_none());
    assert_eq!(snapshot.get_object(&"30".to_string()).map(|o| o.groups.len()), Some(2));
    assert_eq!(snapshot.get_object_by_group(&"tree".to_string()).map(|o| o.uid.clone()), Some("-12".to_string()));
    assert_eq!(snapshot.get_object_by_group(&"food".to_string()).map(|o| o.uid.clone()), Some("30".to_string()));
    assert!(snapshot.get_object_by_group(&"rock".to_string()).is_none());
}

#[test]
fn sim_object_group_membership() {
    let empty = SimObjectData { uid: "1".to_string(), groups: vec![], properties: vec![] };
    assert!(!empty.is_in_group(&"enemies".to_string()));
    let member = SimObjectData { uid: "2".to_string(), groups: vec!["enemies".to_string()], properties: vec![] };
    assert!(member.is_in_group(&"enemies".to_string()));
}

#[test]
fn group_membership_check_with_empty_groups() {
    let object = SimObjectData { uid: "1".to_string(), groups: Vec::new(), properties: vec![] };
    assert!(!object.is_in_group(&"enemy".to_string()));
}

#[test]
fn group_membership_check_with_matching_group() {
    let object = SimObjectData {
        uid: "1".to_string(),
        groups: vec!["enemy".to_string(), "mobile".to_string()],
        properties: vec![],
    };
    assert!(object.is_in_group(&"enemy".to_string()));
    assert!(object.is_in_group(&"mobile".to_string()));
    assert!(!object.is_in_group(&"ally".to_string()));
}

#[test]
fn uid_field_stores_string_correctly() {
    let instance_id: i64 = 12345;
    let snapshot = BlackboardSnapshot {
        properties: vec![],
        objects: vec![("12345".to_string(), SimObjectData { uid: "12345".to_string(), groups: vec![], properties: vec![] })],
    };
    let found = snapshot.get_object_by_instance_id(instance_id).expect("object keyed by its decimal instance id");
    assert_eq!(found.uid, "12345");
    assert!(!found.uid.is_empty());
}

#[test]
fn setting_a_key_twice_keeps_one_entry() {
    let mut bb = BlackboardSnapshot::new();
    bb.set_property("hunger".to_string(), VariantSnapshot::Int(3));
    bb.set_property("thirst".to_string(), VariantSnapshot::Int(1));
    bb.set_property("hunger".to_string(), VariantSnapshot::Int(5));
    assert_eq!(bb.properties.len(), 2);
    assert_eq!(bb.get_property(&"hunger".to_string()), Some(&VariantSnapshot::Int(5)));
}
