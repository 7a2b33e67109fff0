//! The backend server: registration, destination validation, status and
//! dispatch.

use many_core::protocol::{RequestMessage, ResponseMessage};
use many_core::server::{ManyModuleInfo, ManyServer, Status, MANYSERVER_DEFAULT_TIMEOUT};
use many_core::types::{Address, Timestamp};

fn identity(seed: u8) -> Address {
    let mut bytes: Vec<u8> = vec![1];
    bytes.extend_from_slice(&[seed; 28]);
    Address::from_bytes(bytes).unwrap()
}

fn status_request(to: Address, ts: u64, nonce: u8) -> RequestMessage {
    RequestMessage {
        version: Some(1),
        from: Some(Address::anonymous()),
        to,
        method: String::from("status"),
        data: b"null".to_vec(),
        timestamp: Some(Timestamp::new(ts)),
        id: None,
        nonce: Some(vec![nonce]),
    }
}

#[test]
fn simple_status() {
    let id = identity(4);
    let server = ManyServer::simple(
        String::from("test-server"),
        id.clone(),
        Some(String::from("1.0.0")),
    );
    let response = server.execute(&status_request(id.clone(), 100, 0), 100);
    let status = Status::from_bytes(&response.data.unwrap()).unwrap();
    assert_eq!(status.version, 1);
    assert_eq!(status.name, "test-server");
    assert_eq!(status.identity, id);
    assert_eq!(status.attributes, vec![0]);
    assert_eq!(status.server_version, Some(String::from("1.0.0")));
    assert_eq!(status.timeout, Some(MANYSERVER_DEFAULT_TIMEOUT));
}

#[test]
fn server_manages_time() {
    let server_id = identity(4);
    let mut server = ManyServer::simple(String::from("test-server"), server_id.clone(), None);
    let timestamp = 1_700_000_000u64;

    // The caller's clock matches the message: accepted.
    let response = server.execute(&status_request(server_id.clone(), timestamp, 0), timestamp);
    assert!(response.data.is_ok());

    // A fixed server time equal to the message time: accepted.
    server.set_time(Some(timestamp));
    let response = server.execute(&status_request(server_id.clone(), timestamp, 1), 0);
    assert!(response.data.is_ok());

    // The server's fixed time moved ten hours back: rejected.
    server.set_time(Some(timestamp - 60 * 60 * 10));
    let response = server.execute(&status_request(server_id.clone(), timestamp, 2), 0);
    let err = response.data.unwrap_err();
    assert_eq!(err.code, many_core::error::CODE_TIMESTAMP_OUT_OF_RANGE);

    // A message stamped ten hours back, matching the fixed time: accepted.
    let response =
        server.execute(&status_request(server_id.clone(), timestamp - 60 * 60 * 10, 3), 0);
    assert!(response.data.is_ok());
}

#[test]
fn validate_id_accepts_anonymous_and_self() {
    let id = identity(4);
    let server = ManyServer::new(String::from("s"), id.clone());
    assert!(server.validate_id(&status_request(Address::anonymous(), 0, 0)).is_ok());
    assert!(server.validate_id(&status_request(id, 0, 0)).is_ok());
    let err = server.validate_id(&status_request(identity(5), 0, 0)).unwrap_err();
    assert_eq!(err.code, many_core::error::CODE_UNKNOWN_DESTINATION);
}

#[test]
fn add_module_refuses_collisions() {
    let mut server = ManyServer::simple(String::from("s"), identity(4), None);
    // Another module under the base attribute is refused.
    let dup_attr = ManyModuleInfo {
        attribute: Some(0),
        name: String::from("other"),
        endpoints: vec![String::from("other.a")],
    };
    assert!(server.add_module(dup_attr).is_err());
    // Another module serving an already served endpoint is refused.
    let dup_endpoint = ManyModuleInfo {
        attribute: Some(2),
        name: String::from("other"),
        endpoints: vec![String::from("status")],
    };
    assert!(server.add_module(dup_endpoint).is_err());
    // A fresh module is accepted and found.
    let fresh = ManyModuleInfo {
        attribute: Some(2),
        name: String::from("ledger"),
        endpoints: vec![String::from("ledger.send")],
    };
    assert!(server.add_module(fresh).is_ok());
    let mut req = status_request(Address::anonymous(), 0, 0);
    req.method = String::from("ledger.send");
    assert!(server.find_module(&req).is_some());
    req.method = String::from("ledger.mint");
    assert!(server.find_module(&req).is_none());
}

#[test]
fn unrouted_method_is_answered_with_routing_error() {
    let server = ManyServer::simple(String::from("s"), identity(4), None);
    let mut req = status_request(Address::anonymous(), 100, 0);
    req.method = String::from("nowhere.at");
    let response: ResponseMessage = server.execute(&req, 100);
    let err = response.data.unwrap_err();
    assert_eq!(err.code, many_core::error::CODE_COULD_NOT_ROUTE_MESSAGE);
}

#[test]
fn status_round_trip() {
    let s = Status {
        version: 1,
        name: String::from("node"),
        public_key: Some(vec![1, 2, 3]),
        identity: identity(4),
        attributes: vec![0, 2, 4],
        server_version: None,
        timeout: Some(300),
    };
    let bytes = s.to_bytes();
    let back = Status::from_bytes(&bytes).unwrap();
    assert_eq!(back.to_bytes(), bytes);
    assert_eq!(back.attributes, vec![0, 2, 4]);
    assert_eq!(back.public_key, Some(vec![1, 2, 3]));
}

/// A message without a timestamp is rejected with the missing-field error
/// naming the timestamp field.
#[test]
fn missing_timestamp_names_the_field() {
    let server_id = identity(4);
    let server = ManyServer::simple(String::from("test-server"), server_id.clone(), None);
    let mut request = status_request(server_id, 0, 0);
    request.timestamp = None;
    let response = server.execute(&request, 1_700_000_000);
    let err = response.data.unwrap_err();
    assert_eq!(err.code, many_core::error::CODE_REQUIRED_FIELD_MISSING);
    assert_eq!(err.message.unwrap(), "timestamp");
}
