//! The event model: views, the codec and its round trip.

use many_core::events::{EventInfo, EventKind, EventLog};
use many_core::eventid::EventId;
use many_core::types::{Address, Timestamp};

fn identity(seed: u8) -> Address {
    let mut bytes: Vec<u8> = vec![1];
    bytes.extend_from_slice(&[seed; 28]);
    Address::from_bytes(bytes).unwrap()
}

#[test]
fn event_info_addresses() {
    let i0 = identity(0);
    let i01 = i0.with_subresource_id(1).unwrap();

    let s0 = EventInfo::Send {
        from: i0.clone(),
        to: i01.clone(),
        symbol: Address::anonymous(),
        amount: 0,
    };
    let addrs = s0.addresses();
    assert_eq!(addrs.len(), 2);
    assert!(addrs.contains(&i0));
    assert!(addrs.contains(&i01));
}

#[test]
fn event_info_addresses_inner() {
    // A submission's nested transaction does not contribute addresses; only
    // the submitter and the account are mentioned.
    let i0 = identity(0);
    let i1 = identity(1);
    let s0 = EventInfo::AccountMultisigExpired {
        account: i0.clone(),
        token: vec![],
        time: Timestamp::new(0),
    };
    let addrs = s0.addresses();
    assert_eq!(addrs.len(), 1);
    assert!(addrs.contains(&i0));
    assert!(!addrs.contains(&i1));
}

#[test]
fn event_info_is_about() {
    let i0 = identity(0);
    let i1 = identity(1);
    let i01 = i0.with_subresource_id(1).unwrap();
    let i11 = i1.with_subresource_id(1).unwrap();

    let s0 = EventInfo::Send {
        from: i0.clone(),
        to: i01.clone(),
        symbol: Address::anonymous(),
        amount: 0,
    };
    assert!(s0.is_about(&i0));
    assert!(s0.is_about(&i01));
    assert!(!s0.is_about(&i1));
    assert!(!s0.is_about(&i11));
}

#[test]
fn event_info_is_about_null() {
    let i0 = identity(0);
    let i01 = i0.with_subresource_id(1).unwrap();
    let token: Vec<u8> = Vec::new();

    let s0 = EventInfo::AccountMultisigExecute {
        account: i01.clone(),
        token,
        executer: None,
        response: many_core::protocol::ResponseMessage {
            version: None,
            from: Address::anonymous(),
            to: None,
            data: Ok(vec![]),
            timestamp: None,
            id: None,
        },
    };
    assert!(s0.is_about(&i01));
    assert!(!s0.is_about(&Address::anonymous()));
}

#[test]
fn event_info_symbol() {
    let i0 = identity(0);
    let i1 = identity(1);
    let i01 = i0.with_subresource_id(1).unwrap();

    let event = EventInfo::Send { from: i0.clone(), to: i01, symbol: i1.clone(), amount: 0 };
    assert_eq!(event.symbol(), Some(&i1));

    let event = EventInfo::AccountDisable { account: i0 };
    assert_eq!(event.symbol(), None);
}

#[test]
fn encode_decode() {
    let event = hex::decode(
        "a30045030000000201c11a62e7dcea02a500820\
982010301d92710582080e8acda9634f6f745be872b0e5e9b65b1d3624a3ba91c6432143\
f60e90000020245020000000103f604d92712a301d92710582080e8acda9634f6f745be8\
72b0e5e9b65b1d3624a3ba91c6432143f60e900000204a3003a00015f9001781d4163636\
f756e742077697468204944207b69647d20756e6b6e6f776e2e02a162696478326d61666\
66261686b736477617165656e6179793267786b65333268676237617134616f347774373\
4356c7366733677696a7005c11a62e7dcf5",
    )
    .unwrap();
    let event_log = EventLog::from_bytes(&event).unwrap();
    assert_eq!(event_log.kind(), EventKind::AccountMultisigExecute);
    if let EventInfo::AccountMultisigExecute { response, .. } = event_log.content {
        assert!(response.data.unwrap_err().is_attribute_specific());
    } else {
        panic!("wrong event kind");
    }
    // The decoded entry re-encodes to the exact bytes it came from.
    let back = many_core::events::reencode_event_log(&event).unwrap();
    assert_eq!(back, event);
}

#[test]
fn event_log_round_trip() {
    let ev = EventLog {
        id: EventId::from_u64((5u64 << 32) | 1),
        time: Timestamp::new(1_700_000_000),
        content: EventInfo::KvStorePut {
            key: b"hello".to_vec(),
            value: b"world".to_vec(),
            owner: identity(9),
        },
    };
    let bytes = ev.to_bytes();
    let back = EventLog::from_bytes(&bytes).unwrap();
    assert_eq!(back.to_bytes(), bytes);
    assert_eq!(back.kind(), EventKind::KvStorePut);
}
