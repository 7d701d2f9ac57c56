use ovejas::diff::{Resource, ResourceSet};
use ovejas::errors::ResourceError;
use ovejas::json::JsonValue;
use ovejas::provider::{get_provider, parse_user, plan_environment_update, Action};
use ovejas::urn::parse_urn;
use ovejas::wire::EnvironmentUpdateOperation;

fn user_params(name: &str, uid: i64, gid: i64) -> JsonValue {
    JsonValue::Object(vec![
        (String::from("name"), JsonValue::Str(String::from(name))),
        (String::from("uid"), JsonValue::Int(uid)),
        (String::from("gid"), JsonValue::Int(gid)),
    ])
}

fn resource(urn: &str, params: JsonValue) -> Resource {
    Resource { urn: String::from(urn), parameters: params }
}

fn set_of(resources: Vec<Resource>) -> ResourceSet {
    ResourceSet::from_resources(resources).unwrap()
}

#[test]
fn urn_splits_into_three_segments() {
    let u = parse_urn("ovejas.system::User::user_0").unwrap();
    assert_eq!(u.namespace, "ovejas.system");
    assert_eq!(u.kind, "User");
    assert_eq!(u.instance, "user_0");
}

#[test]
fn malformed_urn_is_a_fatal_resource_error() {
    assert!(matches!(parse_urn("bad-urn"), Err(ResourceError::InvalidUrn)));
    assert!(matches!(parse_urn("only::two"), Err(ResourceError::InvalidUrn)));
    assert!(matches!(parse_urn("a::b::c::d"), Err(ResourceError::InvalidUrn)));
    let r = resource("bad-urn", user_params("alice", 1, 1));
    assert!(matches!(get_provider(&r), Err(ResourceError::InvalidUrn)));
}

#[test]
fn unknown_kind_aborts_instead_of_skipping() {
    let r = resource("ns::Teapot::t0", user_params("alice", 1, 1));
    assert!(matches!(get_provider(&r), Err(ResourceError::UnknownKind)));
}

#[test]
fn user_provider_reads_its_parameters() {
    let r = resource("ns::User::u0", user_params("alice", 1000, 1001));
    let u = get_provider(&r).unwrap();
    assert_eq!(u.name, "alice");
    assert_eq!(u.uid, 1000);
    assert_eq!(u.gid, 1001);
}

#[test]
fn user_parameters_must_fit_the_schema() {
    let missing = JsonValue::Object(vec![(
        String::from("name"),
        JsonValue::Str(String::from("alice")),
    )]);
    assert!(matches!(parse_user(&missing), Err(ResourceError::InvalidParameters)));
    let negative = user_params("alice", -1, 0);
    assert!(matches!(parse_user(&negative), Err(ResourceError::InvalidParameters)));
    assert!(matches!(parse_user(&JsonValue::Null), Err(ResourceError::InvalidParameters)));
}

#[test]
fn update_plan_orders_updates_then_deletes_then_creates() {
    let local = set_of(vec![
        resource("ns::User::changed", user_params("changed", 1, 1)),
        resource("ns::User::gone", user_params("gone", 2, 2)),
    ]);
    let target = set_of(vec![
        resource("ns::User::changed", user_params("changed", 1, 9)),
        resource("ns::User::fresh", user_params("fresh", 3, 3)),
    ]);

    let plan = plan_environment_update(
        &EnvironmentUpdateOperation::Update,
        &local,
        &target,
        false,
    );
    assert_eq!(plan.len(), 3);
    assert_eq!(plan[0].0, Action::Update);
    assert_eq!(plan[0].1.urn, "ns::User::changed");
    assert_eq!(plan[1].0, Action::Delete);
    assert_eq!(plan[1].1.urn, "ns::User::gone");
    assert_eq!(plan[2].0, Action::Create);
    assert_eq!(plan[2].1.urn, "ns::User::fresh");
}

#[test]
fn create_plan_applies_every_target_resource_in_order() {
    let empty = set_of(Vec::new());
    let target = set_of(vec![
        resource("ns::User::a", user_params("a", 1, 1)),
        resource("ns::User::b", user_params("b", 2, 2)),
    ]);
    let plan = plan_environment_update(
        &EnvironmentUpdateOperation::Create,
        &empty,
        &target,
        false,
    );
    assert_eq!(plan.len(), 2);
    assert_eq!(plan[0].0, Action::Create);
    assert_eq!(plan[0].1.urn, "ns::User::a");
    assert_eq!(plan[1].0, Action::Create);
    assert_eq!(plan[1].1.urn, "ns::User::b");
}

#[test]
fn destroy_plan_deletes_every_local_resource() {
    let local = set_of(vec![resource("ns::User::a", user_params("a", 1, 1))]);
    let empty = set_of(Vec::new());
    let plan = plan_environment_update(
        &EnvironmentUpdateOperation::Destroy,
        &local,
        &empty,
        false,
    );
    assert_eq!(plan.len(), 1);
    assert_eq!(plan[0].0, Action::Delete);
    assert_eq!(plan[0].1.urn, "ns::User::a");
}

#[test]
fn dry_run_plans_nothing() {
    let local = set_of(vec![resource("ns::User::a", user_params("a", 1, 1))]);
    let empty = set_of(Vec::new());
    let plan = plan_environment_update(&EnvironmentUpdateOperation::Destroy, &local, &empty, true);
    assert!(plan.is_empty());
}
