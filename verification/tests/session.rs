use ovejas::errors::{ProtocolError, ValidationError};
use ovejas::ops::{StateAction, StateOperationMessage};
use ovejas::session::{
    apply_state_operation, is_websocket_request, json_msg_body, match_route, parse_machine_type,
    rejection_response, validate_connection, ListenerType, RestRoute,
};
use ovejas::store::StateStore;

#[test]
fn machine_type_header_names_the_role() {
    assert!(matches!(
        parse_machine_type(&Some(String::from("device"))),
        Some(ListenerType::Device)
    ));
    assert!(matches!(parse_machine_type(&Some(String::from("cli"))), Some(ListenerType::CLI)));
    assert!(parse_machine_type(&Some(String::from("toaster"))).is_none());
    assert!(parse_machine_type(&None).is_none());
}

#[test]
fn device_without_machine_id_is_rejected() {
    let store = StateStore::new();
    let r = validate_connection(&ListenerType::Device, &None, &store);
    assert!(matches!(r, Err(ValidationError::NoMachineIdSet)));
}

#[test]
fn unregistered_device_is_rejected() {
    let store = StateStore::new();
    let r = validate_connection(&ListenerType::Device, &Some(String::from("m-1")), &store);
    assert!(matches!(r, Err(ValidationError::DeviceNotRegistered)));
}

#[test]
fn registered_device_and_cli_pass_validation() {
    let mut store = StateStore::new();
    store.device_create(&String::from("box"), &String::from("m-1"), 0).unwrap();
    assert!(validate_connection(&ListenerType::Device, &Some(String::from("m-1")), &store).is_ok());
    assert!(validate_connection(&ListenerType::CLI, &None, &store).is_ok());
}

#[test]
fn rejections_carry_status_and_structured_body() {
    let (status, body) = rejection_response(&ValidationError::NoMachineIdSet);
    assert_eq!(status, 400);
    assert_eq!(body, "{\"msg\": \"No machine-id set in header\", \"data\": null}");

    let (status, body) = rejection_response(&ValidationError::DeviceNotRegistered);
    assert_eq!(status, 404);
    assert_eq!(body, "{\"msg\": \"Device not registered\", \"data\": null}");
}

#[test]
fn json_msg_body_wraps_the_reason() {
    assert_eq!(json_msg_body("all good"), "{\"msg\": \"all good\", \"data\": null}");
}

fn upgrade_headers() -> (Option<String>, Option<String>, Option<String>) {
    (
        Some(String::from("keep-alive, Upgrade")),
        Some(String::from("WebSocket")),
        Some(String::from("13")),
    )
}

#[test]
fn a_full_upgrade_header_set_is_a_websocket_request() {
    let (connection, upgrade, version) = upgrade_headers();
    assert!(is_websocket_request(
        true,
        true,
        &connection,
        &upgrade,
        &version,
        true,
        &String::from("/socket"),
    ));
}

#[test]
fn a_plain_request_is_not_a_websocket_request() {
    let (connection, upgrade, version) = upgrade_headers();
    let socket = String::from("/socket");
    assert!(!is_websocket_request(false, true, &connection, &upgrade, &version, true, &socket));
    assert!(!is_websocket_request(true, true, &None, &upgrade, &version, true, &socket));
    assert!(!is_websocket_request(
        true,
        true,
        &Some(String::from("keep-alive")),
        &upgrade,
        &version,
        true,
        &socket,
    ));
    assert!(!is_websocket_request(
        true,
        true,
        &connection,
        &upgrade,
        &Some(String::from("12")),
        true,
        &socket,
    ));
    assert!(!is_websocket_request(true, true, &connection, &upgrade, &version, false, &socket));
    assert!(!is_websocket_request(
        true,
        true,
        &connection,
        &upgrade,
        &version,
        true,
        &String::from("/device"),
    ));
}

#[test]
fn the_upgrade_token_is_matched_whole_and_case_insensitively() {
    let (_, upgrade, version) = upgrade_headers();
    let socket = String::from("/socket");
    let fused = Some(String::from("upgradeable"));
    assert!(!is_websocket_request(true, true, &fused, &upgrade, &version, true, &socket));
    let shouted = Some(String::from("UPGRADE"));
    assert!(is_websocket_request(true, true, &shouted, &upgrade, &version, true, &socket));
}

#[test]
fn routes_cover_the_rest_surface() {
    assert_eq!(
        match_route(&String::from("/device"), true, false),
        Some(RestRoute::DeviceCreate)
    );
    assert_eq!(
        match_route(&String::from("/device"), false, true),
        Some(RestRoute::DeviceDelete)
    );
    assert_eq!(match_route(&String::from("/user"), true, false), Some(RestRoute::UserCreate));
    assert_eq!(match_route(&String::from("/user"), false, true), Some(RestRoute::UserDelete));
    assert_eq!(
        match_route(&String::from("/enroll_device"), true, false),
        Some(RestRoute::EnrollDevice)
    );
    assert_eq!(match_route(&String::from("/enroll_device"), false, true), None);
    assert_eq!(match_route(&String::from("/missing"), true, false), None);
}

#[test]
fn up_writes_project_environment_and_state() {
    let mut store = StateStore::new();
    let msg = StateOperationMessage {
        environment: String::from("prod"),
        action: StateAction::Up,
        state: Some(String::from("{\"resources\":[]}")),
        project: String::from("ns"),
    };
    apply_state_operation(&mut store, &msg, 9).unwrap();

    let p = store.project_by_name(&String::from("ns")).unwrap();
    let e = store.environment_by_name(p.id, &String::from("prod")).unwrap();
    let latest = store.latest_state(e.id).unwrap();
    assert_eq!(latest.json, "{\"resources\":[]}");
    assert_eq!(latest.created_at, 9);
}

#[test]
fn up_without_a_document_is_malformed_and_changes_nothing() {
    let mut store = StateStore::new();
    let msg = StateOperationMessage {
        environment: String::from("prod"),
        action: StateAction::Up,
        state: None,
        project: String::from("ns"),
    };
    let r = apply_state_operation(&mut store, &msg, 0);
    assert!(matches!(r, Err(ProtocolError::MissingState)));
    assert!(store.project_by_name(&String::from("ns")).is_none());
}

#[test]
fn down_writes_the_destroy_sentinel() {
    let mut store = StateStore::new();
    let up = StateOperationMessage {
        environment: String::from("prod"),
        action: StateAction::Up,
        state: Some(String::from("{\"resources\":[]}")),
        project: String::from("ns"),
    };
    apply_state_operation(&mut store, &up, 1).unwrap();
    let down = StateOperationMessage {
        environment: String::from("prod"),
        action: StateAction::Down,
        state: None,
        project: String::from("ns"),
    };
    apply_state_operation(&mut store, &down, 2).unwrap();

    let p = store.project_by_name(&String::from("ns")).unwrap();
    let e = store.environment_by_name(p.id, &String::from("prod")).unwrap();
    assert_eq!(store.latest_state(e.id).unwrap().json, "{}");
}

#[test]
fn preview_does_not_mutate_the_store() {
    let mut store = StateStore::new();
    let msg = StateOperationMessage {
        environment: String::from("prod"),
        action: StateAction::Preview,
        state: Some(String::from("{\"resources\":[]}")),
        project: String::from("ns"),
    };
    apply_state_operation(&mut store, &msg, 0).unwrap();
    assert!(store.project_by_name(&String::from("ns")).is_none());
}
