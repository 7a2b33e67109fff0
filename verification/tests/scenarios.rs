//! End-to-end scenarios over the bridge, the replay cache, the storage core
//! and the migration engine.

use coset::CborSerializable;
use many_core::abci::{
    AbciBridge, CHECK_SUCCESS, CHECK_TIMESTAMP_OUTSIDE_OF_RANGE_ERROR, CHECK_VALIDATION_ERROR,
    DELIVER_SUCCESS, LEGACY_ERROR_CODE_TRIGGER,
};
use many_core::error::ManyError;
use many_core::events::EventKind;
use many_core::kvstore::{AclMap, EventFilter, KvStoreMetadata, KvStoreStorage};
use many_core::migration::{InnerMigration, MigrationSet, StepAction};
use many_core::protocol::{RequestMessage, ResponseMessage};
use many_core::storage::verify_proof;
use many_core::types::{Address, SortOrder, Timestamp};

fn identity(seed: u8) -> Address {
    let mut bytes: Vec<u8> = vec![1];
    bytes.extend_from_slice(&[seed; 28]);
    Address::from_bytes(bytes).unwrap()
}

fn envelope(payload: Vec<u8>) -> Vec<u8> {
    let env = coset::CoseSign1Builder::new().payload(payload).build();
    env.to_vec().unwrap()
}

fn put_request(ts: u64) -> RequestMessage {
    RequestMessage {
        version: Some(1),
        from: Some(Address::anonymous()),
        to: Address::anonymous(),
        method: String::from("kvstore.put"),
        data: b"null".to_vec(),
        timestamp: Some(Timestamp::new(ts)),
        id: None,
        nonce: None,
    }
}

fn backend_reply(data: Result<Vec<u8>, ManyError>) -> Vec<u8> {
    let resp = ResponseMessage {
        version: Some(1),
        from: identity(7),
        to: None,
        data,
        timestamp: Some(Timestamp::new(1_700_000_123)),
        id: None,
    };
    envelope(resp.to_bytes())
}

/// Replay rejection: a delivered envelope fails the admission check when it
/// is submitted again.
#[test]
fn replay_rejected_after_deliver() {
    let mut bridge =
        AbciBridge::create(String::from("kvstore"), identity(3), MigrationSet::empty());
    let tx = envelope(put_request(1_700_000_000).to_bytes());

    // The backend executes the put and answers with an empty success.
    let mut store = KvStoreStorage::new(&AclMap::new(), identity(3), true);
    store.set_time(Timestamp::new(1_700_000_000));
    let meta = KvStoreMetadata { owner: Address::anonymous(), disabled: None };
    store.put(&meta, &b"hello".to_vec(), b"world".to_vec()).unwrap();
    assert_eq!(store.get(&b"hello".to_vec()).unwrap(), Some(b"world".to_vec()));

    let outcome = bridge.deliver_tx(&tx, Ok(backend_reply(Ok(vec![]))));
    assert_eq!(outcome.code, DELIVER_SUCCESS);
    assert!(!outcome.fatal);

    // Submitting the same envelope again fails admission.
    let (code, log) = bridge.check_tx(&tx, 1_700_000_000);
    assert_eq!(code, CHECK_VALIDATION_ERROR);
    assert!(log.contains("already in cache"));
}

/// Timestamp skew: a message more than the timeout away from the block time
/// is rejected; one within it is accepted.
#[test]
fn timestamp_skew() {
    let mut bridge =
        AbciBridge::create(String::from("kvstore"), identity(3), MigrationSet::empty());
    bridge.begin_block(Some(1_700_000_000), Some(1));

    let late = envelope(put_request(1_700_000_301).to_bytes());
    let (code, _) = bridge.check_tx(&late, 0);
    assert_eq!(code, CHECK_TIMESTAMP_OUTSIDE_OF_RANGE_ERROR);

    let fine = envelope(put_request(1_700_000_299).to_bytes());
    let (code, _) = bridge.check_tx(&fine, 0);
    assert_eq!(code, CHECK_SUCCESS);
}

/// Determinism: two fresh bridges with different wall clocks produce
/// byte-identical deliver data for the same envelope and backend reply.
#[test]
fn deliver_data_deterministic() {
    let tx = envelope(put_request(1_700_000_000).to_bytes());
    let reply = backend_reply(Ok(b"ok".to_vec()));

    let mut b1 = AbciBridge::create(String::from("kvstore"), identity(3), MigrationSet::empty());
    b1.begin_block(Some(1_700_000_000), Some(5));
    let o1 = bridge_deliver(&mut b1, &tx, reply.clone());

    let mut b2 = AbciBridge::create(String::from("kvstore"), identity(3), MigrationSet::empty());
    b2.begin_block(Some(1_700_000_000), Some(5));
    let o2 = bridge_deliver(&mut b2, &tx, reply);

    assert_eq!(o1.code, DELIVER_SUCCESS);
    assert_eq!(o2.code, DELIVER_SUCCESS);
    assert_eq!(o1.data, o2.data);
    // The normalized response carries the epoch sentinel as its timestamp.
    let norm = ResponseMessage::from_bytes(&o1.data).unwrap();
    assert_eq!(norm.timestamp, Some(Timestamp::new(0)));
    assert!(norm.from.is_anonymous());
    assert_eq!(norm.version, None);
}

fn bridge_deliver(
    bridge: &mut AbciBridge,
    tx: &Vec<u8>,
    reply: Vec<u8>,
) -> many_core::abci::DeliverOutcome {
    bridge.deliver_tx(tx, Ok(reply))
}

/// Migration activation: the legacy error-code rewrite stays off below its
/// activation height and rewrites attribute-specific codes from then on.
#[test]
fn migration_activation() {
    let registry = vec![InnerMigration::new_initialize_update(
        StepAction::Nop,
        StepAction::Nop,
        String::from(LEGACY_ERROR_CODE_TRIGGER),
        String::from("rewrites attribute-specific error codes"),
    )];
    let config = "[{\"type\": \"legacy_error_code\", \"block_height\": 10}]";
    let migrations = many_core::config::load_migrations(&registry, config).unwrap();

    let tx = envelope(put_request(1_700_000_000).to_bytes());
    let attr_err = ManyError::new(-40001, Some(String::from("attribute specific")));

    let mut bridge = AbciBridge::create(String::from("kvstore"), identity(3), migrations);
    bridge.begin_block(Some(1_700_000_000), Some(9));
    let outcome = bridge.deliver_tx(&tx, Ok(backend_reply(Err(attr_err.clone()))));
    assert_eq!(outcome.code, DELIVER_SUCCESS);
    let resp = ResponseMessage::from_bytes(&outcome.data).unwrap();
    assert_eq!(resp.data.unwrap_err().code, -40001);

    bridge.begin_block(Some(1_700_000_010), Some(10));
    let tx2 = envelope(put_request(1_700_000_010).to_bytes());
    let outcome = bridge.deliver_tx(&tx2, Ok(backend_reply(Err(attr_err))));
    assert_eq!(outcome.code, DELIVER_SUCCESS);
    let resp = ResponseMessage::from_bytes(&outcome.data).unwrap();
    assert_eq!(resp.data.unwrap_err().code, many_core::error::CODE_UNKNOWN);
}

/// Event identifier monotonicity across blocks: identifiers carry the block
/// height in their high bits and restart above the previous block's.
#[test]
fn event_ids_across_blocks() {
    let mut store = KvStoreStorage::new(&AclMap::new(), identity(3), true);
    store.set_time(Timestamp::new(1_700_000_000));
    // Reach the block at height 5: after the fourth commit the identifier
    // seed is `5 << 32`.
    for _ in 0..4 {
        store.commit().unwrap();
    }
    assert_eq!(store.get_height(), 4);
    assert_eq!(store.latest_event_id(), (5u64 << 32).to_be_bytes().to_vec());

    let meta = KvStoreMetadata { owner: Address::anonymous(), disabled: None };
    for _ in 0..3 {
        store.put(&meta, &b"k".to_vec(), b"v".to_vec()).unwrap();
    }
    // Three events logged in this block: the last identifier is
    // `5 << 32 | 3`, at the fixed eight-byte width.
    assert_eq!(store.latest_event_id(), ((5u64 << 32) | 3).to_be_bytes().to_vec());

    store.commit().unwrap();
    store.put(&meta, &b"k".to_vec(), b"v".to_vec()).unwrap();
    // The first identifier of the next block is `6 << 32 | 1`, strictly
    // greater than the last of the block before, in the lexicographic order
    // on the encodings as well.
    assert_eq!(store.latest_event_id(), ((6u64 << 32) | 1).to_be_bytes().to_vec());
}

/// Proof round trip: a committed key's inclusion proof refolds to the
/// current root hash and reveals exactly that entry.
#[test]
fn proof_round_trip() {
    let mut store = KvStoreStorage::new(&AclMap::new(), identity(3), true);
    store.set_time(Timestamp::new(1_700_000_000));
    let meta = KvStoreMetadata { owner: Address::anonymous(), disabled: None };
    store.put(&meta, &b"hello".to_vec(), b"world".to_vec()).unwrap();
    store.commit().unwrap();

    let key = {
        let mut k = b"s".to_vec();
        k.extend_from_slice(b"hello");
        k
    };
    let ops = store.prove_state(&vec![key.clone()]).unwrap();
    let (root, pairs) = verify_proof(&ops).unwrap();
    assert_eq!(root, store.hash());
    assert_eq!(pairs.len(), 1);
    assert_eq!(pairs[0].0, key);
    assert_eq!(pairs[0].1, b"world".to_vec());

    // A missing key cannot be proven.
    assert!(store.prove_state(&vec![b"absent".to_vec()]).is_err());
}

/// The replay cache law, on concrete values.
#[test]
fn replay_cache_rejects_recorded_envelope() {
    let mut cache = many_core::validator::ReplayCache::new();
    let env = envelope(put_request(0).to_bytes());
    assert!(cache.check_envelope(&env).is_ok());
    let resp = ResponseMessage {
        version: None,
        from: Address::anonymous(),
        to: None,
        data: Ok(vec![]),
        timestamp: None,
        id: None,
    };
    cache.record_executed(&env, &resp).unwrap();
    let err = cache.check_envelope(&env).unwrap_err();
    assert_eq!(err.message.unwrap(), "Transaction already in cache");
    assert!(many_core::validator::replay_is_rejected(&mut cache, &env, &resp));
}

/// Event listing: the log answers list queries in both orders, truncated to
/// the requested count, narrowed by a kind filter, and the info call counts
/// the events and the distinct kinds among them.
#[test]
fn event_listing_and_info() {
    let mut store = KvStoreStorage::new(&AclMap::new(), identity(3), true);
    store.set_time(Timestamp::new(1_700_000_000));
    let meta = KvStoreMetadata { owner: Address::anonymous(), disabled: None };
    store.put(&meta, &b"a".to_vec(), b"1".to_vec()).unwrap();
    store.put(&meta, &b"b".to_vec(), b"2".to_vec()).unwrap();
    store.disable(&meta, &b"a".to_vec()).unwrap();

    let no_filter = EventFilter {
        account: None,
        kind: None,
        symbol: None,
        id_start: None,
        id_end: None,
        date_start: None,
        date_end: None,
    };
    let all = store.list_events(None, SortOrder::Ascending, &no_filter);
    assert_eq!(all.len(), 3);
    assert_eq!(all[0].kind(), EventKind::KvStorePut);
    assert_eq!(all[1].kind(), EventKind::KvStorePut);
    assert_eq!(all[2].kind(), EventKind::KvStoreDisable);
    assert!(all[0].id.to_vec() < all[1].id.to_vec());
    assert!(all[1].id.to_vec() < all[2].id.to_vec());

    let newest_first = store.list_events(None, SortOrder::Descending, &no_filter);
    assert_eq!(newest_first.len(), 3);
    assert_eq!(newest_first[0].id.to_vec(), all[2].id.to_vec());
    assert_eq!(newest_first[2].id.to_vec(), all[0].id.to_vec());

    let two = store.list_events(Some(2), SortOrder::Ascending, &no_filter);
    assert_eq!(two.len(), 2);
    assert_eq!(two[0].id.to_vec(), all[0].id.to_vec());

    let puts_only = EventFilter { kind: Some(vec![EventKind::KvStorePut]), ..no_filter };
    let puts = store.list_events(None, SortOrder::Ascending, &puts_only);
    assert_eq!(puts.len(), 2);
    assert!(puts.iter().all(|e| e.kind() == EventKind::KvStorePut));

    let (total, kinds) = store.info_events();
    assert_eq!(total, 3);
    assert_eq!(kinds.len(), 2);
    assert!(kinds.contains(&EventKind::KvStorePut));
    assert!(kinds.contains(&EventKind::KvStoreDisable));
}
