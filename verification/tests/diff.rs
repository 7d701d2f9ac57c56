use ovejas::diff::{compute_delta, Resource, ResourceSet};
use ovejas::errors::ResourceError;
use ovejas::json::{json_eq, json_wf, JsonValue};

fn user_params(name: &str, uid: i64, gid: i64) -> JsonValue {
    JsonValue::Object(vec![
        (String::from("name"), JsonValue::Str(String::from(name))),
        (String::from("uid"), JsonValue::Int(uid)),
        (String::from("gid"), JsonValue::Int(gid)),
    ])
}

fn resource(urn: &str, params: JsonValue) -> Resource {
    Resource { urn: String::from(urn), parameters: params }
}

fn set_of(resources: Vec<Resource>) -> ResourceSet {
    ResourceSet::from_resources(resources).unwrap()
}

#[test]
fn diff() {
    let local = set_of(vec![resource(
        "ovejas.system::User::user_0",
        user_params("user0", 100, 101),
    )]);
    let remote = set_of(vec![resource(
        "ovejas.system::User::user_0",
        user_params("user0", 110, 111),
    )]);

    let delta = compute_delta(&local, &remote);

    assert_eq!(delta.resources_to_delete.len(), 0);
    assert_eq!(delta.resources_to_create.len(), 0);
    assert_eq!(delta.resources_to_update.len(), 1);
    let expected = resource("ovejas.system::User::user_0", user_params("user0", 110, 111));
    assert_eq!(delta.resources_to_update[0].urn, expected.urn);
    assert!(json_eq(&delta.resources_to_update[0].parameters, &expected.parameters));
}

#[test]
fn diff_partitions_presence_and_content() {
    let local = set_of(vec![
        resource("ns::User::gone", user_params("gone", 1, 1)),
        resource("ns::User::same", user_params("same", 2, 2)),
        resource("ns::User::changed", user_params("changed", 3, 3)),
    ]);
    let remote = set_of(vec![
        resource("ns::User::same", user_params("same", 2, 2)),
        resource("ns::User::changed", user_params("changed", 3, 4)),
        resource("ns::User::fresh", user_params("fresh", 5, 5)),
    ]);

    let delta = compute_delta(&local, &remote);

    assert_eq!(delta.resources_to_create.len(), 1);
    assert_eq!(delta.resources_to_create[0].urn, "ns::User::fresh");
    assert_eq!(delta.resources_to_delete.len(), 1);
    assert_eq!(delta.resources_to_delete[0].urn, "ns::User::gone");
    assert_eq!(delta.resources_to_update.len(), 1);
    assert_eq!(delta.resources_to_update[0].urn, "ns::User::changed");
}

#[test]
fn diff_of_identical_sets_is_empty() {
    let build = || {
        set_of(vec![
            resource("ns::User::a", user_params("a", 1, 1)),
            resource("ns::User::b", user_params("b", 2, 2)),
        ])
    };
    let delta = compute_delta(&build(), &build());
    assert_eq!(delta.resources_to_create.len(), 0);
    assert_eq!(delta.resources_to_delete.len(), 0);
    assert_eq!(delta.resources_to_update.len(), 0);
}

#[test]
fn duplicate_urn_is_rejected() {
    let r = ResourceSet::from_resources(vec![
        resource("ns::User::a", user_params("a", 1, 1)),
        resource("ns::User::a", user_params("b", 2, 2)),
    ]);
    assert!(matches!(r, Err(ResourceError::DuplicateUrn)));
}

#[test]
fn object_key_order_is_irrelevant() {
    let a = JsonValue::Object(vec![
        (String::from("uid"), JsonValue::Int(1)),
        (String::from("name"), JsonValue::Str(String::from("x"))),
    ]);
    let b = JsonValue::Object(vec![
        (String::from("name"), JsonValue::Str(String::from("x"))),
        (String::from("uid"), JsonValue::Int(1)),
    ]);
    assert!(json_eq(&a, &b));
    assert!(json_eq(&b, &a));
}

#[test]
fn value_kinds_must_match_exactly() {
    assert!(!json_eq(&JsonValue::Int(1), &JsonValue::Str(String::from("1"))));
    assert!(!json_eq(&JsonValue::Null, &JsonValue::Bool(false)));
    let nested_a = JsonValue::Array(vec![JsonValue::Int(1), JsonValue::Int(2)]);
    let nested_b = JsonValue::Array(vec![JsonValue::Int(1), JsonValue::Int(3)]);
    assert!(!json_eq(&nested_a, &nested_b));
}

#[test]
fn repeated_object_key_is_ill_formed() {
    let v = JsonValue::Object(vec![
        (String::from("k"), JsonValue::Int(1)),
        (String::from("k"), JsonValue::Int(2)),
    ]);
    assert!(!json_wf(&v));
    let ok = JsonValue::Object(vec![
        (String::from("k"), JsonValue::Int(1)),
        (String::from("l"), JsonValue::Int(2)),
    ]);
    assert!(json_wf(&ok));
}
