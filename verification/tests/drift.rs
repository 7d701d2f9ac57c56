use ovejas::drift::{classify_drift, device_status_cycle, document_hash};
use ovejas::ops::{StateAction, StateOperationMessage};
use ovejas::session::apply_state_operation;
use ovejas::store::StateStore;
use ovejas::wire::EnvironmentUpdateOperation;

#[test]
fn document_hash_is_md5_of_the_text() {
    let expected: [u8; 16] = [
        0x90, 0x01, 0x50, 0x98, 0x3c, 0xd2, 0x4f, 0xb0, 0xd6, 0x96, 0x3f, 0x7d, 0x28, 0xe1,
        0x7f, 0x72,
    ];
    assert_eq!(document_hash("abc"), expected);
    assert_ne!(document_hash(""), expected);
}

#[test]
fn no_stored_state_classifies_as_destroy() {
    let r = classify_drift(None, &None).unwrap();
    assert_eq!(r.operation, EnvironmentUpdateOperation::Destroy);
    assert!(r.state.is_none());
}

#[test]
fn destroy_sentinel_classifies_as_destroy() {
    let reported = Some(document_hash("{}"));
    let r = classify_drift(Some(String::from("{}")), &reported).unwrap();
    assert_eq!(r.operation, EnvironmentUpdateOperation::Destroy);
    assert!(r.state.is_none());
}

#[test]
fn unreported_hash_classifies_as_create_with_payload() {
    let doc = String::from("{\"resources\":[]}");
    let r = classify_drift(Some(doc.clone()), &None).unwrap();
    assert_eq!(r.operation, EnvironmentUpdateOperation::Create);
    assert_eq!(r.state, Some(doc));
}

#[test]
fn mismatched_hash_classifies_as_update_with_payload() {
    let doc = String::from("{\"resources\":[]}");
    let stale = document_hash("something else");
    let r = classify_drift(Some(doc.clone()), &Some(stale)).unwrap();
    assert_eq!(r.operation, EnvironmentUpdateOperation::Update);
    assert_eq!(r.state, Some(doc));
}

#[test]
fn matching_hash_emits_nothing() {
    let doc = String::from("{\"resources\":[]}");
    let current = document_hash(doc.as_str());
    assert!(classify_drift(Some(doc), &Some(current)).is_none());
}

fn up(store: &mut StateStore, project: &str, environment: &str, doc: &str, now: i64) {
    let msg = StateOperationMessage {
        environment: String::from(environment),
        action: StateAction::Up,
        state: Some(String::from(doc)),
        project: String::from(project),
    };
    apply_state_operation(store, &msg, now).unwrap();
}

fn down(store: &mut StateStore, project: &str, environment: &str, now: i64) {
    let msg = StateOperationMessage {
        environment: String::from(environment),
        action: StateAction::Down,
        state: None,
        project: String::from(project),
    };
    apply_state_operation(store, &msg, now).unwrap();
}

#[test]
fn up_then_down_drives_create_then_destroy() {
    let doc = "{\"resources\":[{\"urn\":\"ns::User::u0\",\"parameters\":{\"name\":\"alice\",\"uid\":1,\"gid\":1}}]}";
    let mut store = StateStore::new();
    up(&mut store, "ns", "prod", doc, 1);
    store.device_create(&String::from("m-7"), &String::from("m-7"), 1).unwrap();
    store
        .enroll(&String::from("m-7"), &String::from("ns"), &String::from("prod"))
        .unwrap();

    let report: Vec<(String, [u8; 16])> = Vec::new();
    let updates = device_status_cycle(&store, &String::from("m-7"), &report).unwrap();
    assert_eq!(updates.len(), 1);
    assert_eq!(updates[0].0, "prod");
    assert_eq!(updates[0].1.operation, EnvironmentUpdateOperation::Create);
    assert_eq!(updates[0].1.state, Some(String::from(doc)));

    down(&mut store, "ns", "prod", 2);
    let report2 = vec![(String::from("prod"), document_hash(doc))];
    let updates2 = device_status_cycle(&store, &String::from("m-7"), &report2).unwrap();
    assert_eq!(updates2.len(), 1);
    assert_eq!(updates2[0].0, "prod");
    assert_eq!(updates2[0].1.operation, EnvironmentUpdateOperation::Destroy);
    assert!(updates2[0].1.state.is_none());
}

#[test]
fn cycle_skips_environments_at_rest_and_unenrolled_ones() {
    let mut store = StateStore::new();
    up(&mut store, "ns", "prod", "{\"resources\":[]}", 1);
    up(&mut store, "ns", "staging", "{\"other\":true}", 1);
    store.device_create(&String::from("m-1"), &String::from("m-1"), 1).unwrap();
    store
        .enroll(&String::from("m-1"), &String::from("ns"), &String::from("prod"))
        .unwrap();

    let at_rest = vec![(String::from("prod"), document_hash("{\"resources\":[]}"))];
    let updates = device_status_cycle(&store, &String::from("m-1"), &at_rest).unwrap();
    assert!(updates.is_empty());
}

#[test]
fn cycle_rejects_an_unknown_machine() {
    let store = StateStore::new();
    let report: Vec<(String, [u8; 16])> = Vec::new();
    assert!(device_status_cycle(&store, &String::from("ghost"), &report).is_err());
}
