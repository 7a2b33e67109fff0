//! The consensus bridge: a deterministic mediator between a consensus
//! engine and the application backend. It owns the transaction admission
//! pipeline (check), the per-transaction determinism normalization and
//! caching (deliver), and passes block boundaries through to the backend
//! and the migration engine.

use crate::error;
use crate::error::ManyError;
use crate::migration::MigrationSet;
use crate::protocol;
use crate::protocol::{RequestMessage, ResponseMessage};
use crate::storage::Storage;
use crate::types::{Address, Timestamp};
use crate::validator::ReplayCache;
use coset::CborSerializable;
use vstd::prelude::*;

verus! {

/// Codes of the bridge layer itself.
pub const ABCI_SUCCESS: u32 = 0;

pub const ABCI_TRANSPORT_ERROR: u32 = 1;

pub const ABCI_FRONTEND_ERROR: u32 = 2;

/// Codes of the admission (check) path.
pub const CHECK_SUCCESS: u32 = 0;

pub const CHECK_COSE_DESERIALIZE_ERROR: u32 = 4;

pub const CHECK_MESSAGE_DESERIALIZE_ERROR: u32 = 5;

pub const CHECK_RWLOCK_POISONED_ERROR: u32 = 6;

pub const CHECK_TIMESTAMP_ERROR: u32 = 7;

pub const CHECK_CANNOT_GET_SYSTEM_TIME_ERROR: u32 = 8;

pub const CHECK_TIMESTAMP_OUTSIDE_OF_RANGE_ERROR: u32 = 9;

pub const CHECK_VALIDATION_ERROR: u32 = 10;

/// Codes of the deliver path.
pub const DELIVER_SUCCESS: u32 = 0;

pub const DELIVER_TRANSPORT_REQUEST_ERROR: u32 = 1;

pub const DELIVER_COSE_DESERIALIZE_ERROR: u32 = 2;

pub const DELIVER_TRANSPORT_RESPONSE_ERROR: u32 = 3;

pub const DELIVER_RWLOCK_POISONED_ERROR: u32 = 11;

/// The envelope-timestamp window, in seconds, around the block time.
pub const MANYABCI_DEFAULT_TIMEOUT: u64 = 300;

/// The name of the migration that rewrites attribute-specific error codes
/// back to the unknown code, compensating for a historical decoding bug.
pub const LEGACY_ERROR_CODE_TRIGGER: &'static str = "legacy_error_code";

/// The payload of a signed envelope, when the bytes are one well-formed
/// envelope carrying one. An envelope without a payload yields the empty
/// payload.
pub uninterp spec fn cose_payload_of(b: Seq<u8>) -> Option<Seq<u8>>;

/// Relies on `coset::CoseSign1::from_slice`: parses a signed envelope from
/// its serialized form; the payload is a function of the input bytes alone.
#[verifier::external_body]
fn parse_envelope_payload(tx: &Vec<u8>) -> (r: Option<Vec<u8>>)
    ensures
        r is Some <==> cose_payload_of(tx@) is Some,
        r matches Some(p) ==> cose_payload_of(tx@) == Some(p@),
{
    match coset::CoseSign1::from_slice(tx.as_slice()) {
        Ok(c) => Some(c.payload.unwrap_or_default()),
        Err(_) => None,
    }
}

/// A shared object under reader-writer discipline, with an explicit
/// poisoned state: a writer that failed mid-update leaves the object
/// unusable, and every later access reports it.
pub struct Lockable<T> {
    pub value: T,
    pub poisoned: bool,
}

impl<T> Lockable<T> {
    /// Whether a failed writer has marked the object unusable.
    pub open spec fn is_poisoned(&self) -> bool {
        self.poisoned
    }

    /// The guarded value.
    pub open spec fn view_value(&self) -> T {
        self.value
    }

    /// A healthy object guarding `value`.
    pub fn new(value: T) -> (r: Lockable<T>)
        ensures
            !r.is_poisoned(),
            r.view_value() == value,
    {
        Lockable { value, poisoned: false }
    }

    /// Shared access; fails on a poisoned object.
    pub fn read(&self) -> (r: Result<&T, ()>)
        ensures
            r matches Ok(v) ==> !self.is_poisoned() && v == &self.view_value(),
            r is Err <==> self.is_poisoned(),
    {
        if self.poisoned {
            Err(())
        } else {
            Ok(&self.value)
        }
    }

    /// Marks the object unusable, as a failed writer would have.
    pub fn poison(&mut self)
        ensures
            final(self).is_poisoned(),
            final(self).view_value() == old(self).view_value(),
    {
        self.poisoned = true;
    }
}

/// What the bridge returns for one delivered transaction.
pub struct DeliverOutcome {
    pub code: u32,
    pub data: Vec<u8>,
    pub log: String,
    /// A true value means the node must abort: proceeding would let this
    /// replica diverge from its peers.
    pub fatal: bool,
}

/// The consensus bridge state.
pub struct AbciBridge {
    pub app_name: String,
    pub server_id: Address,
    /// The replay cache, shared between check and deliver.
    pub cache: Lockable<ReplayCache>,
    /// The migration set, consulted for semantic rewrites.
    pub migrations: Lockable<MigrationSet>,
    /// The bridge's own scratch state the migrations run against.
    pub scratch: Storage,
    /// The block time recorded by the last block begin.
    pub block_time: Lockable<Option<u64>>,
    pub timeout: u64,
}

impl AbciBridge {
    /// A bridge for the given backend identity and migration set.
    pub fn create(app_name: String, server_id: Address, migrations: MigrationSet) -> (r: AbciBridge)
        ensures
            r.app_name == app_name,
            r.server_id == server_id,
            !r.cache.is_poisoned(),
            r.cache.view_value().seen_set() == Set::<Seq<u8>>::empty(),
            !r.migrations.is_poisoned(),
            r.migrations.view_value() == migrations,
            !r.block_time.is_poisoned(),
            r.block_time.view_value() == Option::<u64>::None,
            r.timeout == MANYABCI_DEFAULT_TIMEOUT,
            r.scratch.wf(),
    {
        AbciBridge {
            app_name,
            server_id,
            cache: Lockable::new(ReplayCache::new()),
            migrations: Lockable::new(migrations),
            scratch: Storage::new(),
            block_time: Lockable::new(None),
            timeout: MANYABCI_DEFAULT_TIMEOUT,
        }
    }

    /// The same bridge with another replay cache.
    pub fn with_validator(self, cache: ReplayCache) -> (r: AbciBridge)
        ensures
            r.cache.view_value() == cache,
            !r.cache.is_poisoned(),
            r.app_name == self.app_name,
            r.migrations == self.migrations,
            r.block_time == self.block_time,
            r.timeout == self.timeout,
    {
        AbciBridge {
            app_name: self.app_name,
            server_id: self.server_id,
            cache: Lockable::new(cache),
            migrations: self.migrations,
            scratch: self.scratch,
            block_time: self.block_time,
            timeout: self.timeout,
        }
    }

    /// Admits or rejects a transaction for the mempool. The block time is
    /// the reference clock; when no block has begun, `wall_now` (the local
    /// clock, which only the check path may use) takes its place.
    pub fn check_tx(&self, tx: &Vec<u8>, wall_now: u64) -> (r: (u32, String))
        ensures
            r.0 == CHECK_COSE_DESERIALIZE_ERROR <==> cose_payload_of(tx@) is None,
            r.0 == CHECK_MESSAGE_DESERIALIZE_ERROR ==> cose_payload_of(tx@) is Some,
            r.0 == CHECK_VALIDATION_ERROR ==> !self.cache.is_poisoned()
                && self.cache.view_value().seen_set().contains(tx@) && r.1@
                == "Transaction already in cache"@,
            r.0 == CHECK_TIMESTAMP_OUTSIDE_OF_RANGE_ERROR ==> {
                &&& !self.cache.is_poisoned()
                &&& !self.block_time.is_poisoned()
                &&& !self.cache.view_value().seen_set().contains(tx@)
                &&& cose_payload_of(tx@) is Some
            },
            r.0 == CHECK_RWLOCK_POISONED_ERROR ==> (self.cache.is_poisoned()
                || self.block_time.is_poisoned()),
            r.0 == CHECK_SUCCESS ==> {
                &&& !self.cache.is_poisoned()
                &&& !self.block_time.is_poisoned()
                &&& !self.cache.view_value().seen_set().contains(tx@)
                &&& (exists|m: RequestMessage|
                    {
                        &&& cose_payload_of(tx@) == Some(protocol::spec_enc_request(m))
                        &&& m.timestamp matches Some(t) && protocol::spec_time_in_range(
                            t.secs,
                            (match self.block_time.view_value() {
                                Some(bt) => bt,
                                None => wall_now,
                            }),
                            self.timeout,
                        )
                    })
            },
            forall|m: RequestMessage|
                (protocol::spec_request_wf(m) && cose_payload_of(tx@) == Some(
                    #[trigger] protocol::spec_enc_request(m),
                )) ==> {
                    &&& (self.cache.is_poisoned() ==> r.0 == CHECK_RWLOCK_POISONED_ERROR)
                    &&& ((!self.cache.is_poisoned()
                        && self.cache.view_value().seen_set().contains(tx@)) ==> r.0
                        == CHECK_VALIDATION_ERROR)
                    &&& ((!self.cache.is_poisoned() && !self.cache.view_value().seen_set().contains(
                        tx@,
                    ) && self.block_time.is_poisoned()) ==> r.0 == CHECK_RWLOCK_POISONED_ERROR)
                    &&& ((!self.cache.is_poisoned() && !self.cache.view_value().seen_set().contains(
                        tx@,
                    ) && !self.block_time.is_poisoned() && !(m.timestamp matches Some(t)
                        && protocol::spec_time_in_range(
                        t.secs,
                        (match self.block_time.view_value() {
                            Some(bt) => bt,
                            None => wall_now,
                        }),
                        self.timeout,
                    ))) ==> r.0 == CHECK_TIMESTAMP_OUTSIDE_OF_RANGE_ERROR)
                    &&& ((!self.cache.is_poisoned() && !self.cache.view_value().seen_set().contains(
                        tx@,
                    ) && !self.block_time.is_poisoned() && (m.timestamp matches Some(t)
                        && protocol::spec_time_in_range(
                        t.secs,
                        (match self.block_time.view_value() {
                            Some(bt) => bt,
                            None => wall_now,
                        }),
                        self.timeout,
                    ))) ==> r.0 == CHECK_SUCCESS)
                },
    {
        let payload = match parse_envelope_payload(tx) {
            Some(p) => p,
            None => {
                return (CHECK_COSE_DESERIALIZE_ERROR, String::new());
            },
        };
        let message = match RequestMessage::from_bytes(&payload) {
            Ok(m) => m,
            Err(_) => {
                return (CHECK_MESSAGE_DESERIALIZE_ERROR, String::new());
            },
        };
        let validator = match self.cache.read() {
            Ok(v) => v,
            Err(_) => {
                return (CHECK_RWLOCK_POISONED_ERROR, String::new());
            },
        };
        match validator.check_envelope(tx) {
            Ok(()) => {},
            Err(e) => {
                let log = match e.message {
                    Some(m) => m,
                    None => String::new(),
                };
                assert(log@ == "Transaction already in cache"@);
                return (CHECK_VALIDATION_ERROR, log);
            },
        }
        match validator.check_request(&message) {
            Ok(()) => {},
            Err(_) => {
                return (CHECK_VALIDATION_ERROR, String::new());
            },
        }
        let bt = match self.block_time.read() {
            Ok(v) => v,
            Err(_) => {
                return (CHECK_RWLOCK_POISONED_ERROR, String::new());
            },
        };
        let now = match bt {
            Some(t) => *t,
            None => wall_now,
        };
        match protocol::validate_time(&message, now, self.timeout) {
            Ok(()) => {},
            Err(_) => {
                return (CHECK_TIMESTAMP_OUTSIDE_OF_RANGE_ERROR, String::new());
            },
        }
        (CHECK_SUCCESS, String::new())
    }

    /// Begins a block: runs the migrations at the block's height (a failure
    /// there does not abort the block) and records the block time for the
    /// check path. Returns the extract to forward to the backend.
    pub fn begin_block(&mut self, time: Option<u64>, height: Option<u64>) -> (r:
        crate::abci_types::AbciBlock)
        requires
            old(self).scratch.wf(),
        ensures
            r.time == time,
            final(self).scratch.wf(),
            final(self).block_time.is_poisoned() == old(self).block_time.is_poisoned(),
            final(self).migrations.is_poisoned() == old(self).migrations.is_poisoned(),
            !old(self).block_time.is_poisoned() ==> final(self).block_time.view_value() == time,
            old(self).block_time.is_poisoned() ==> final(self).block_time.view_value() == old(
                self).block_time.view_value(),
            (!old(self).migrations.is_poisoned() && height is Some) ==> final(
                self).migrations.view_value().height == height->Some_0,
            final(self).migrations.view_value().migrations == old(
                self).migrations.view_value().migrations,
            (old(self).migrations.is_poisoned() || height is None) ==> final(
                self).migrations.view_value() == old(self).migrations.view_value(),
            final(self).cache == old(self).cache,
            final(self).timeout == old(self).timeout,
            final(self).app_name == old(self).app_name,
    {
        match height {
            Some(h) => {
                if !self.migrations.poisoned {
                    // A failed migration update cannot abort the block; the
                    // engine reports success in any case.
                    let _ = self.migrations.value.update_at_height(&mut self.scratch, h);
                }
            },
            None => {},
        }
        if !self.block_time.poisoned {
            self.block_time.value = time;
        }
        crate::abci_types::AbciBlock { time }
    }

    /// Delivers a transaction: normalizes the backend's response so every
    /// replica emits identical bytes, applies the legacy error-code rewrite
    /// when that migration is active, and records the envelope in the
    /// replay cache. `backend_reply` carries the backend's response
    /// envelope, or the transport error that kept it from answering.
    pub fn deliver_tx(&mut self, tx: &Vec<u8>, backend_reply: Result<Vec<u8>, String>) -> (r:
        DeliverOutcome)
        ensures
            final(self).block_time == old(self).block_time,
            final(self).migrations == old(self).migrations,
            final(self).timeout == old(self).timeout,
            r.code == DELIVER_COSE_DESERIALIZE_ERROR <==> cose_payload_of(tx@) is None,
            (cose_payload_of(tx@) is Some && backend_reply is Err) ==> r.code
                == DELIVER_TRANSPORT_REQUEST_ERROR,
            r.code == DELIVER_TRANSPORT_REQUEST_ERROR ==> backend_reply is Err,
            r.code == DELIVER_TRANSPORT_RESPONSE_ERROR ==> (backend_reply matches Ok(re)
                && cose_payload_of(re@) is None),
            (cose_payload_of(tx@) is Some && (backend_reply matches Ok(re) && cose_payload_of(re@)
                is Some) && !old(self).cache.is_poisoned()) ==> r.code == DELIVER_SUCCESS,
            (cose_payload_of(tx@) is Some && (backend_reply matches Ok(re) && cose_payload_of(re@)
                is Some) && old(self).cache.is_poisoned()) ==> (r.code
                == DELIVER_RWLOCK_POISONED_ERROR && r.fatal),
            r.fatal <==> r.code == DELIVER_RWLOCK_POISONED_ERROR,
            r.fatal ==> old(self).cache.is_poisoned(),
            r.code != DELIVER_SUCCESS ==> r.data@ == Seq::<u8>::empty(),
            r.code == DELIVER_SUCCESS ==> {
                &&& !old(self).cache.is_poisoned()
                &&& final(self).cache.view_value().seen_set() == old(
                    self).cache.view_value().seen_set().insert(tx@)
                &&& (exists|resp: ResponseMessage|
                    {
                        &&& r.data@ == protocol::spec_enc_response(resp)
                        &&& resp.timestamp == Some(Timestamp { secs: 0 })
                        &&& resp.version is None
                        &&& resp.from@ == crate::types::spec_anonymous()
                        &&& ((!old(self).migrations.is_poisoned()
                            && crate::migration::spec_is_active_at(
                            old(self).migrations.view_value().migrations@,
                            LEGACY_ERROR_CODE_TRIGGER@,
                            old(self).migrations.view_value().height,
                        )) ==> !(resp.data matches Err(e) && error::spec_is_attribute_specific(
                            e.code,
                        )))
                    })
            },
            r.code != DELIVER_SUCCESS ==> final(self).cache == old(self).cache,
            forall|resp0: ResponseMessage|
                (protocol::spec_response_wf(resp0) && cose_payload_of(tx@) is Some && (
                backend_reply matches Ok(re) && cose_payload_of(re@) == Some(
                    #[trigger] protocol::spec_enc_response(resp0),
                )) && !old(self).cache.is_poisoned()) ==> (exists|emitted: ResponseMessage|
                    {
                        &&& r.data@ == protocol::spec_enc_response(emitted)
                        &&& emitted.version is None
                        &&& emitted.from@ == crate::types::spec_anonymous()
                        &&& protocol::spec_opt_addr_view(emitted.to)
                            == protocol::spec_opt_addr_view(resp0.to)
                        &&& emitted.timestamp == Some(Timestamp { secs: 0 })
                        &&& emitted.id == resp0.id
                        &&& (if (!old(self).migrations.is_poisoned()
                            && crate::migration::spec_is_active_at(
                            old(self).migrations.view_value().migrations@,
                            LEGACY_ERROR_CODE_TRIGGER@,
                            old(self).migrations.view_value().height,
                        ) && (resp0.data matches Err(e0)
                            && error::spec_is_attribute_specific(e0.code))) {
                            resp0.data matches Err(e0) && (emitted.data matches Err(e2) && e2.code
                                == error::CODE_UNKNOWN && error::spec_msg_view(e2.message)
                                == error::spec_msg_view(e0.message) && error::spec_args_views(
                                e2.arguments@,
                            ) == error::spec_args_views(e0.arguments@))
                        } else {
                            ((resp0.data matches Ok(b0) && (emitted.data matches Ok(b2) && b2@
                                == b0@)) || (resp0.data matches Err(e0) && (
                            emitted.data matches Err(e2) && e2.code == e0.code
                                && error::spec_msg_view(e2.message) == error::spec_msg_view(
                                e0.message,
                            ) && error::spec_args_views(e2.arguments@) == error::spec_args_views(
                                e0.arguments@,
                            ))))
                        })
                    }),
    {
        if parse_envelope_payload(tx).is_none() {
            return DeliverOutcome {
                code: DELIVER_COSE_DESERIALIZE_ERROR,
                data: Vec::new(),
                log: String::new(),
                fatal: false,
            };
        }
        let reply_envelope = match backend_reply {
            Ok(v) => v,
            Err(log) => {
                return DeliverOutcome {
                    code: DELIVER_TRANSPORT_REQUEST_ERROR,
                    data: Vec::new(),
                    log,
                    fatal: false,
                };
            },
        };
        let reply_payload = match parse_envelope_payload(&reply_envelope) {
            Some(p) => p,
            None => {
                return DeliverOutcome {
                    code: DELIVER_TRANSPORT_RESPONSE_ERROR,
                    data: Vec::new(),
                    log: String::new(),
                    fatal: false,
                };
            },
        };
        let mut response = match ResponseMessage::from_bytes(&reply_payload) {
            Ok(m) => m,
            Err(_) => ResponseMessage {
                version: None,
                from: Address::anonymous(),
                to: None,
                data: Ok(Vec::new()),
                timestamp: None,
                id: None,
            },
        };
        // Consensus signs the result itself, so the sender is dropped; the
        // version is removed; the timestamp might differ between replicas,
        // so it is forced to the epoch sentinel.
        response.from = Address::anonymous();
        response.version = None;
        response.timestamp = Some(Timestamp::epoch());
        // The legacy error-code rewrite, when that migration is active.
        match self.migrations.read() {
            Ok(m) => {
                let trigger = legacy_trigger_name();
                if m.is_active(&trigger) {
                    let is_attr = match &response.data {
                        Err(e) => e.is_attribute_specific(),
                        Ok(_) => false,
                    };
                    if is_attr {
                        let old_err = match response.data {
                            Err(e) => e,
                            Ok(_) => ManyError::unknown(String::new()),
                        };
                        response.data = Err(old_err.with_code(error::CODE_UNKNOWN));
                    }
                }
            },
            Err(_) => {},
        }
        if self.cache.poisoned {
            // The backend has already executed the message; a cache that
            // cannot record it will diverge from the backend on future
            // admission checks. The node must abort.
            return DeliverOutcome {
                code: DELIVER_RWLOCK_POISONED_ERROR,
                data: Vec::new(),
                log: String::new(),
                fatal: true,
            };
        }
        let recorded = self.cache.value.record_executed(tx, &response);
        match recorded {
            Ok(()) => {},
            Err(_) => {
                return DeliverOutcome {
                    code: DELIVER_RWLOCK_POISONED_ERROR,
                    data: Vec::new(),
                    log: String::new(),
                    fatal: true,
                };
            },
        }
        let ghost respg = response;
        let data = response.to_bytes();
        proof {
            assert(respg.from@ == crate::types::spec_anonymous());
        }
        DeliverOutcome { code: DELIVER_SUCCESS, data, log: String::new(), fatal: false }
    }

    /// Ends a block; the bridge forwards the call and adds nothing.
    pub fn end_block(&self)
    {
    }

    /// Turns the backend's commit report into the consensus reply: the new
    /// root hash as the application hash, and the retain height verbatim.
    pub fn commit(&self, info: crate::abci_types::AbciCommitInfo) -> (r: (Vec<u8>, u64))
        ensures
            r.0@ == info.hash@,
            r.1 == info.retain_height,
    {
        (info.hash, info.retain_height)
    }

    /// Turns the backend's information report into the consensus reply:
    /// the last height and application hash verbatim, the bridge's name
    /// wrapped around the backend's, and the application version.
    pub fn info(&self, backend: crate::abci_types::AbciInfo) -> (r: (u64, Vec<u8>, String, u64))
        ensures
            r.0 == backend.height,
            r.1@ == backend.hash@,
            r.2@ == "many-abci-bridge("@ + self.app_name@ + ")"@,
            r.3 == 1,
    {
        let mut data = bridge_name_prefix();
        data.append(self.app_name.as_str());
        data.append(")");
        proof {
            reveal_strlit(")");
        }
        (backend.height, backend.hash, data, 1)
    }

    /// Forwards a read-only query envelope. The bridge validates the
    /// envelope, passes it to the backend verbatim, and returns the
    /// backend's reply bytes untouched; no state moves.
    pub fn query(&self, tx: &Vec<u8>, backend_reply: Result<Vec<u8>, String>) -> (r: (
        u32,
        Vec<u8>,
        String,
    ))
        ensures
            r.0 == ABCI_FRONTEND_ERROR <==> cose_payload_of(tx@) is None,
            (cose_payload_of(tx@) is Some && backend_reply matches Err(_)) ==> r.0
                == ABCI_TRANSPORT_ERROR,
            (cose_payload_of(tx@) is Some && backend_reply is Ok) ==> (r.0 == ABCI_SUCCESS && r.1@
                == backend_reply->Ok_0@),
    {
        if parse_envelope_payload(tx).is_none() {
            return (ABCI_FRONTEND_ERROR, Vec::new(), String::new());
        }
        match backend_reply {
            Ok(v) => (ABCI_SUCCESS, v, String::new()),
            Err(log) => (ABCI_TRANSPORT_ERROR, Vec::new(), log),
        }
    }
}

/// The fixed prefix of the bridge's information string.
fn bridge_name_prefix() -> (r: String)
    ensures
        r@ == "many-abci-bridge("@,
{
    "many-abci-bridge(".to_owned()
}

/// The name of the legacy error-code migration, as a lookup key.
fn legacy_trigger_name() -> (r: String)
    ensures
        r@ == LEGACY_ERROR_CODE_TRIGGER@,
{
    LEGACY_ERROR_CODE_TRIGGER.to_owned()
}

} // verus!
