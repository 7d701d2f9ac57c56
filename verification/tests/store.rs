use ovejas::errors::StoreError;
use ovejas::store::StateStore;

#[test]
fn upsert_project_is_get_or_create() {
    let mut store = StateStore::new();
    let p1 = store.upsert_project(&String::from("ns"), 10);
    let p2 = store.upsert_project(&String::from("ns"), 20);
    assert_eq!(p1.id, p2.id);
    assert_eq!(p2.created_at, 10);
    let q = store.upsert_project(&String::from("other"), 30);
    assert_ne!(q.id, p1.id);
}

#[test]
fn upsert_environment_is_scoped_to_project() {
    let mut store = StateStore::new();
    let p = store.upsert_project(&String::from("ns"), 0);
    let q = store.upsert_project(&String::from("other"), 0);
    let e1 = store.upsert_environment(p.id, &String::from("prod"), 0);
    let e2 = store.upsert_environment(p.id, &String::from("prod"), 0);
    let e3 = store.upsert_environment(q.id, &String::from("prod"), 0);
    assert_eq!(e1.id, e2.id);
    assert_ne!(e1.id, e3.id);
}

#[test]
fn append_state_is_append_only_and_latest_wins() {
    let mut store = StateStore::new();
    let p = store.upsert_project(&String::from("ns"), 0);
    let e = store.upsert_environment(p.id, &String::from("prod"), 0);

    let r1 = store.append_state(e.id, &String::from("{\"v\":1}"), 1);
    let r2 = store.append_state(e.id, &String::from("{\"v\":2}"), 2);
    let r3 = store.append_state(e.id, &String::from("{\"v\":2}"), 3);

    assert!(r1.id < r2.id && r2.id < r3.id);

    let latest = store.latest_state(e.id).unwrap();
    assert_eq!(latest.id, r3.id);
    assert_eq!(latest.json, "{\"v\":2}");

    let first = store.state_by_id(r1.id).unwrap();
    assert_eq!(first.json, "{\"v\":1}");
    let second = store.state_by_id(r2.id).unwrap();
    assert_eq!(second.json, "{\"v\":2}");
}

#[test]
fn latest_state_of_unknown_environment_is_none() {
    let store = StateStore::new();
    assert!(store.latest_state(7).is_none());
}

#[test]
fn device_create_rejects_duplicate_machine_id() {
    let mut store = StateStore::new();
    let d = store.device_create(&String::from("box"), &String::from("m-1"), 0).unwrap();
    assert_eq!(d.machine_id, "m-1");
    let again = store.device_create(&String::from("box2"), &String::from("m-1"), 0);
    assert!(matches!(again, Err(StoreError::Duplicate)));
    let found = store.device_by_machine_id(&String::from("m-1")).unwrap();
    assert_eq!(found.id, d.id);
}

#[test]
fn device_delete_removes_the_row() {
    let mut store = StateStore::new();
    store.device_create(&String::from("box"), &String::from("m-1"), 0).unwrap();
    assert_eq!(store.device_delete(&String::from("m-1")), 1);
    assert!(store.device_by_machine_id(&String::from("m-1")).is_none());
    assert_eq!(store.device_delete(&String::from("m-1")), 0);
}

#[test]
fn enroll_requires_all_three_rows() {
    let mut store = StateStore::new();
    let missing = store.enroll(
        &String::from("m-1"),
        &String::from("ns"),
        &String::from("prod"),
    );
    assert!(matches!(missing, Err(StoreError::NotFound)));

    let p = store.upsert_project(&String::from("ns"), 0);
    store.upsert_environment(p.id, &String::from("prod"), 0);
    store.device_create(&String::from("box"), &String::from("m-1"), 0).unwrap();
    let granted = store.enroll(
        &String::from("m-1"),
        &String::from("ns"),
        &String::from("prod"),
    );
    assert!(granted.is_ok());
}

#[test]
fn enrolled_environments_excludes_other_environments() {
    let mut store = StateStore::new();
    let p = store.upsert_project(&String::from("ns"), 0);
    let prod = store.upsert_environment(p.id, &String::from("prod"), 0);
    store.upsert_environment(p.id, &String::from("staging"), 0);
    let d = store.device_create(&String::from("box"), &String::from("m-1"), 0).unwrap();
    store
        .enroll(&String::from("m-1"), &String::from("ns"), &String::from("prod"))
        .unwrap();

    let envs = store.enrolled_environments(d.id);
    assert_eq!(envs.len(), 1);
    assert_eq!(envs[0].id, prod.id);
    assert_eq!(envs[0].name, "prod");
}

#[test]
fn user_create_appends_an_account() {
    let mut store = StateStore::new();
    let u = store.user_create(&String::from("op"), &String::from("tok-op-1"), 4);
    assert_eq!(u.name, "op");
    assert_eq!(u.created_at, 4);
}
