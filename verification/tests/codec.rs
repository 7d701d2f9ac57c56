use ovejas::codec::{
    decode_request, decode_status_response, encode_request, encode_status_response,
};
use ovejas::errors::ProtocolError;
use ovejas::ops::{decode_state_operation, encode_state_operation, RequestOperations as StateOp};
use ovejas::wire::{
    CurrentStatusResponse, DeviceStatus, EnvironmentUpdate, EnvironmentUpdateOperation,
    RequestOperations,
};

#[test]
fn status_request_round_trips() {
    let frame = encode_request(&RequestOperations::StatusRequest);
    assert_eq!(frame, vec![1u8]);
    let back = decode_request(&frame).unwrap();
    assert!(matches!(back, RequestOperations::StatusRequest));
}

#[test]
fn update_environments_request_round_trips() {
    let entries = vec![
        (
            String::from("prod"),
            EnvironmentUpdate {
                state: Some(String::from("{\"resources\":[]}")),
                operation: EnvironmentUpdateOperation::Create,
            },
        ),
        (
            String::from("staging"),
            EnvironmentUpdate { state: None, operation: EnvironmentUpdateOperation::Destroy },
        ),
    ];
    let frame = encode_request(&RequestOperations::UpdateEnvironmentsRequest(entries));
    let back = decode_request(&frame).unwrap();
    match back {
        RequestOperations::UpdateEnvironmentsRequest(m) => {
            assert_eq!(m.len(), 2);
            assert_eq!(m[0].0, "prod");
            assert_eq!(m[0].1.operation, EnvironmentUpdateOperation::Create);
            assert_eq!(m[0].1.state, Some(String::from("{\"resources\":[]}")));
            assert_eq!(m[1].0, "staging");
            assert_eq!(m[1].1.operation, EnvironmentUpdateOperation::Destroy);
            assert_eq!(m[1].1.state, None);
        },
        _ => panic!("wrong message"),
    }
}

#[test]
fn status_response_round_trips() {
    let m = CurrentStatusResponse {
        status: DeviceStatus::Idle,
        timestamp: String::from("2024-01-01 00:00:00"),
        state_hashes: vec![
            (String::from("prod"), [7u8; 16]),
            (String::from("dev"), [9u8; 16]),
        ],
    };
    let frame = encode_status_response(&m);
    let back = decode_status_response(&frame).unwrap();
    assert!(matches!(back.status, DeviceStatus::Idle));
    assert_eq!(back.timestamp, "2024-01-01 00:00:00");
    assert_eq!(back.state_hashes.len(), 2);
    assert_eq!(back.state_hashes[0].0, "prod");
    assert_eq!(back.state_hashes[0].1, [7u8; 16]);
    assert_eq!(back.state_hashes[1].0, "dev");
    assert_eq!(back.state_hashes[1].1, [9u8; 16]);
}

#[test]
fn empty_frame_is_truncated() {
    let frame: Vec<u8> = Vec::new();
    assert!(matches!(decode_request(&frame), Err(ProtocolError::Truncated)));
    assert!(matches!(decode_status_response(&frame), Err(ProtocolError::Truncated)));
}

#[test]
fn unknown_opcode_is_fatal() {
    let frame = vec![0x77u8];
    assert!(matches!(decode_request(&frame), Err(ProtocolError::UnknownOpcode)));
}

#[test]
fn trailing_bytes_are_fatal() {
    let frame = vec![1u8, 0u8];
    assert!(matches!(decode_request(&frame), Err(ProtocolError::TrailingBytes)));
}

#[test]
fn announced_content_must_be_present() {
    // An update request announcing one entry but ending immediately.
    let frame = vec![2u8, 1, 0, 0, 0];
    assert!(matches!(decode_request(&frame), Err(ProtocolError::Truncated)));
}

#[test]
fn state_operation_opcodes_round_trip() {
    let frame = encode_state_operation(&StateOp::RequestState);
    assert_eq!(frame, vec![1u8]);
    assert!(matches!(decode_state_operation(&frame), Ok(StateOp::RequestState)));

    let frame = encode_state_operation(&StateOp::UpdateState(String::from("{\"a\":1}")));
    match decode_state_operation(&frame) {
        Ok(StateOp::UpdateState(s)) => assert_eq!(s, "{\"a\":1}"),
        _ => panic!("wrong message"),
    }

    let frame = encode_state_operation(&StateOp::DestroyState);
    assert_eq!(frame, vec![3u8]);
    assert!(matches!(decode_state_operation(&frame), Ok(StateOp::DestroyState)));
}

#[test]
fn text_that_is_not_utf8_is_malformed() {
    let frame = vec![2u8, 0xff, 0xfe, 0x01];
    assert!(matches!(decode_state_operation(&frame), Err(ProtocolError::MalformedText)));
    // A status response whose timestamp length announces two invalid bytes.
    let frame = vec![1u8, 2, 0, 0, 0, 0xff, 0xfe, 0u8, 0, 0, 0];
    assert!(matches!(
        decode_status_response(&frame),
        Err(ProtocolError::MalformedText)
    ));
}

#[test]
fn text_survives_the_frame_beyond_ascii() {
    let entries = vec![(
        String::from("prod\u{e9}\u{4e16}"),
        EnvironmentUpdate {
            state: Some(String::from("caf\u{e9} \u{2603}")),
            operation: EnvironmentUpdateOperation::Update,
        },
    )];
    let frame = encode_request(&RequestOperations::UpdateEnvironmentsRequest(entries));
    match decode_request(&frame).unwrap() {
        RequestOperations::UpdateEnvironmentsRequest(m) => {
            assert_eq!(m[0].0, "prod\u{e9}\u{4e16}");
            assert_eq!(m[0].1.state, Some(String::from("caf\u{e9} \u{2603}")));
        },
        _ => panic!("wrong message"),
    }
}

#[test]
fn state_operation_unknown_opcode_is_fatal() {
    let frame = vec![0x10u8];
    assert!(matches!(decode_state_operation(&frame), Err(ProtocolError::UnknownOpcode)));
}
