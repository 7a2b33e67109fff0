//! Request and response messages and the timestamp admission rule.

use many_core::protocol::{validate_time, RequestMessage, ResponseMessage};
use many_core::types::{Address, Timestamp};

fn request_at(ts: u64) -> RequestMessage {
    RequestMessage {
        version: Some(1),
        from: Some(Address::anonymous()),
        to: Address::anonymous(),
        method: String::from("status"),
        data: b"null".to_vec(),
        timestamp: Some(Timestamp::new(ts)),
        id: None,
        nonce: None,
    }
}

#[test]
fn validate_time_window() {
    let timestamp = 1_700_000_000u64;
    let request = request_at(timestamp);

    // Accepted at the same instant.
    assert!(validate_time(&request, timestamp, 100).is_ok());
    // Accepted when the clock lags.
    assert!(validate_time(&request, timestamp - 10, 100).is_ok());
    // Accepted when the clock leads.
    assert!(validate_time(&request, timestamp + 10, 100).is_ok());

    // Rejected too far in the past.
    assert!(validate_time(&request, timestamp - 101, 100).is_err());
    // Rejected too far in the future.
    assert!(validate_time(&request, timestamp + 101, 100).is_err());
}

#[test]
fn validate_time_requires_timestamp() {
    let mut request = request_at(0);
    request.timestamp = None;
    let err = validate_time(&request, 5, 100).unwrap_err();
    assert_eq!(err.code, many_core::error::CODE_REQUIRED_FIELD_MISSING);
}

#[test]
fn validate_time_zero_timeout_rejects() {
    let request = request_at(5);
    let err = validate_time(&request, 5, 0).unwrap_err();
    assert_eq!(err.code, many_core::error::CODE_TIMESTAMP_OUT_OF_RANGE);
}

#[test]
fn request_round_trip() {
    let request = request_at(42);
    let bytes = request.to_bytes();
    let back = RequestMessage::from_bytes(&bytes).unwrap();
    assert_eq!(back.to_bytes(), bytes);
    assert_eq!(back.method, "status");
    assert_eq!(back.timestamp, Some(Timestamp::new(42)));
}

#[test]
fn response_round_trip_with_error() {
    let resp = ResponseMessage {
        version: None,
        from: Address::anonymous(),
        to: None,
        data: Err(many_core::error::ManyError::new(-90001, Some(String::from("nope")))),
        timestamp: Some(Timestamp::new(0)),
        id: Some(7),
    };
    let bytes = resp.to_bytes();
    let back = ResponseMessage::from_bytes(&bytes).unwrap();
    assert_eq!(back.to_bytes(), bytes);
    let err = back.data.unwrap_err();
    assert_eq!(err.code, -90001);
    assert!(err.is_attribute_specific());
}
