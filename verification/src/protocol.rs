//! Request and response messages: the signed envelope's payload on the way
//! in, and the consensus-visible reply on the way out, with their canonical
//! codecs and the timestamp admission rule.

use crate::cbor;
use crate::cbor::CborError;
use crate::error;
use crate::error::ManyError;
use crate::types;
use crate::types::{Address, Timestamp};
use vstd::prelude::*;

verus! {

/// The CBOR tag that wraps a request message.
pub const TAG_REQUEST: u64 = 10001;

/// The CBOR tag that wraps a response message.
pub const TAG_RESPONSE: u64 = 10002;

/// A request carried by a signed envelope.
#[derive(Clone, Debug)]
pub struct RequestMessage {
    pub version: Option<u64>,
    pub from: Option<Address>,
    pub to: Address,
    pub method: String,
    pub data: Vec<u8>,
    pub timestamp: Option<Timestamp>,
    pub id: Option<u64>,
    pub nonce: Option<Vec<u8>>,
}

/// A response to a request.
#[derive(Debug)]
pub struct ResponseMessage {
    pub version: Option<u64>,
    pub from: Address,
    pub to: Option<Address>,
    pub data: Result<Vec<u8>, ManyError>,
    pub timestamp: Option<Timestamp>,
    pub id: Option<u64>,
}

impl ResponseMessage {
    /// The error response a server returns when it cannot execute a
    /// request.
    pub fn error(from: Address, id: Option<u64>, err: ManyError) -> (r: ResponseMessage)
        ensures
            r.version is None,
            r.from == from,
            r.to is None,
            r.data == Result::<Vec<u8>, ManyError>::Err(err),
            r.timestamp is None,
            r.id == id,
    {
        ResponseMessage { version: None, from, to: None, data: Err(err), timestamp: None, id }
    }
}

/// The number of entries in the encoded request map.
pub open spec fn spec_request_map_len(m: RequestMessage) -> u64 {
    (3 + (if m.version is Some {
        1int
    } else {
        0
    }) + (if m.from is Some {
        1int
    } else {
        0
    }) + (if m.timestamp is Some {
        1int
    } else {
        0
    }) + (if m.id is Some {
        1int
    } else {
        0
    }) + (if m.nonce is Some {
        1int
    } else {
        0
    })) as u64
}

/// The byte view of an optional byte vector.
pub open spec fn spec_opt_bytes_view(v: Option<Vec<u8>>) -> Option<Seq<u8>> {
    match v {
        Some(x) => Some(x@),
        None => None,
    }
}

/// A request whose encoding round-trips: addresses are well-formed and text
/// and byte lengths stay within the header range.
pub open spec fn spec_request_wf(m: RequestMessage) -> bool {
    &&& (m.from matches Some(a) ==> crate::types::spec_address_wf(a@))
    &&& crate::types::spec_address_wf(m.to@)
    &&& vstd::utf8::encode_utf8(m.method@).len() <= u64::MAX
    &&& m.data@.len() <= u64::MAX
    &&& (m.nonce matches Some(nb) ==> nb@.len() <= u64::MAX)
}

/// Field-view equality of two requests.
pub open spec fn spec_request_fields_eq(m: RequestMessage, m2: RequestMessage) -> bool {
    &&& m.version == m2.version
    &&& spec_opt_addr_view(m.from) == spec_opt_addr_view(m2.from)
    &&& m.to@ == m2.to@
    &&& m.method@ == m2.method@
    &&& m.data@ == m2.data@
    &&& m.timestamp == m2.timestamp
    &&& m.id == m2.id
    &&& spec_opt_bytes_view(m.nonce) == spec_opt_bytes_view(m2.nonce)
}

/// The canonical encoding of a request: the request tag around a map with
/// the version at key 0, the sender at key 1, the destination at key 2, the
/// method at key 3, the payload at key 4, the timestamp at key 5, the
/// request id at key 6 and the nonce at key 7; absent optional fields are
/// omitted.
pub open spec fn spec_enc_request(m: RequestMessage) -> Seq<u8> {
    cbor::spec_enc_tag(TAG_REQUEST) + cbor::spec_hdr(cbor::MAJOR_MAP, spec_request_map_len(m)) + (
    match m.version {
        Some(v) => cbor::spec_enc_uint(0) + cbor::spec_enc_uint(v),
        None => Seq::empty(),
    }) + (match m.from {
        Some(a) => cbor::spec_enc_uint(1) + types::spec_enc_address(a@),
        None => Seq::empty(),
    }) + cbor::spec_enc_uint(2) + types::spec_enc_address(m.to@) + cbor::spec_enc_uint(3)
        + cbor::spec_enc_text(m.method@) + cbor::spec_enc_uint(4) + cbor::spec_enc_bytes(m.data@) + (
    match m.timestamp {
        Some(t) => cbor::spec_enc_uint(5) + types::spec_enc_timestamp(t),
        None => Seq::empty(),
    }) + (match m.id {
        Some(v) => cbor::spec_enc_uint(6) + cbor::spec_enc_uint(v),
        None => Seq::empty(),
    }) + (match m.nonce {
        Some(nb) => cbor::spec_enc_uint(7) + cbor::spec_enc_bytes(nb@),
        None => Seq::empty(),
    })
}

/// The number of entries in the encoded response map.
pub open spec fn spec_response_map_len(m: ResponseMessage) -> u64 {
    (2 + (if m.version is Some {
        1int
    } else {
        0
    }) + (if m.to is Some {
        1int
    } else {
        0
    }) + (if m.timestamp is Some {
        1int
    } else {
        0
    }) + (if m.id is Some {
        1int
    } else {
        0
    })) as u64
}

/// The encoding of a response payload: plain bytes on success, the error
/// map on failure.
pub open spec fn spec_enc_response_data(d: Result<Vec<u8>, ManyError>) -> Seq<u8> {
    match d {
        Ok(bs) => cbor::spec_enc_bytes(bs@),
        Err(e) => error::spec_enc_error(e),
    }
}

/// The canonical encoding of a response: the response tag around a map with
/// the version at key 0, the sender at key 1, the destination at key 2, the
/// payload or error at key 4, the timestamp at key 5 and the request id at
/// key 6; absent optional fields are omitted.
pub open spec fn spec_enc_response(m: ResponseMessage) -> Seq<u8> {
    cbor::spec_enc_tag(TAG_RESPONSE) + cbor::spec_hdr(cbor::MAJOR_MAP, spec_response_map_len(m)) + (
    match m.version {
        Some(v) => cbor::spec_enc_uint(0) + cbor::spec_enc_uint(v),
        None => Seq::empty(),
    }) + cbor::spec_enc_uint(1) + types::spec_enc_address(m.from@) + (match m.to {
        Some(a) => cbor::spec_enc_uint(2) + types::spec_enc_address(a@),
        None => Seq::empty(),
    }) + cbor::spec_enc_uint(4) + spec_enc_response_data(m.data) + (match m.timestamp {
        Some(t) => cbor::spec_enc_uint(5) + types::spec_enc_timestamp(t),
        None => Seq::empty(),
    }) + (match m.id {
        Some(v) => cbor::spec_enc_uint(6) + cbor::spec_enc_uint(v),
        None => Seq::empty(),
    })
}

impl RequestMessage {
    /// Serializes the request to its canonical bytes.
    #[verifier::rlimit(100)]
    #[verifier::spinoff_prover]
    pub fn to_bytes(&self) -> (r: Vec<u8>)
        ensures
            r@ == spec_enc_request(*self),
    {
        let mut out: Vec<u8> = Vec::new();
        cbor::encode_tag(TAG_REQUEST, &mut out);
        let n: u64 = 3 + (if self.version.is_some() {
            1u64
        } else {
            0u64
        }) + (if self.from.is_some() {
            1u64
        } else {
            0u64
        }) + (if self.timestamp.is_some() {
            1u64
        } else {
            0u64
        }) + (if self.id.is_some() {
            1u64
        } else {
            0u64
        }) + (if self.nonce.is_some() {
            1u64
        } else {
            0u64
        });
        cbor::encode_hdr(cbor::MAJOR_MAP, n, &mut out);
        match &self.version {
            Some(v) => {
                cbor::encode_uint(0, &mut out);
                cbor::encode_uint(*v, &mut out);
            },
            None => {},
        }
        match &self.from {
            Some(a) => {
                cbor::encode_uint(1, &mut out);
                types::encode_address(a, &mut out);
            },
            None => {},
        }
        cbor::encode_uint(2, &mut out);
        types::encode_address(&self.to, &mut out);
        cbor::encode_uint(3, &mut out);
        cbor::encode_text(&self.method, &mut out);
        cbor::encode_uint(4, &mut out);
        cbor::encode_bytes(&self.data, &mut out);
        match &self.timestamp {
            Some(t) => {
                cbor::encode_uint(5, &mut out);
                types::encode_timestamp(t, &mut out);
            },
            None => {},
        }
        match &self.id {
            Some(v) => {
                cbor::encode_uint(6, &mut out);
                cbor::encode_uint(*v, &mut out);
            },
            None => {},
        }
        match &self.nonce {
            Some(nb) => {
                cbor::encode_uint(7, &mut out);
                cbor::encode_bytes(nb, &mut out);
            },
            None => {},
        }
        assert(out@ =~= spec_enc_request(*self));
        out
    }

    /// Parses a request from its canonical bytes; the whole input must be
    /// one request.
    pub fn from_bytes(b: &Vec<u8>) -> (r: Result<RequestMessage, ManyError>)
        ensures
            r matches Ok(m) ==> b@ == spec_enc_request(m),
            forall|m2: RequestMessage|
                (spec_request_wf(m2) && b@ == #[trigger] spec_enc_request(m2)) ==> (
                r matches Ok(m) && spec_request_fields_eq(m, m2)),
    {
        proof {
            assert forall|m2: RequestMessage|
                (spec_request_wf(m2) && b@ == #[trigger] spec_enc_request(m2)) implies
                cbor::spec_prefix_at(b@, 0, spec_enc_request(m2)) by {
                assert(b@.subrange(0, b@.len() as int) =~= b@);
            }
        }
        match decode_request(b, 0) {
            Ok((m, end)) => {
                if end == b.len() {
                    assert(b@.subrange(0, b@.len() as int) =~= b@);
                    Ok(m)
                } else {
                    Err(ManyError::deserialization_error(String::new()))
                }
            },
            Err(_) => Err(ManyError::deserialization_error(String::new())),
        }
    }
}

impl ResponseMessage {
    /// Serializes the response to its canonical bytes.
    #[verifier::rlimit(100)]
    #[verifier::spinoff_prover]
    pub fn to_bytes(&self) -> (r: Vec<u8>)
        ensures
            r@ == spec_enc_response(*self),
    {
        let mut out: Vec<u8> = Vec::new();
        cbor::encode_tag(TAG_RESPONSE, &mut out);
        let n: u64 = 2 + (if self.version.is_some() {
            1u64
        } else {
            0u64
        }) + (if self.to.is_some() {
            1u64
        } else {
            0u64
        }) + (if self.timestamp.is_some() {
            1u64
        } else {
            0u64
        }) + (if self.id.is_some() {
            1u64
        } else {
            0u64
        });
        cbor::encode_hdr(cbor::MAJOR_MAP, n, &mut out);
        match &self.version {
            Some(v) => {
                cbor::encode_uint(0, &mut out);
                cbor::encode_uint(*v, &mut out);
            },
            None => {},
        }
        cbor::encode_uint(1, &mut out);
        types::encode_address(&self.from, &mut out);
        match &self.to {
            Some(a) => {
                cbor::encode_uint(2, &mut out);
                types::encode_address(a, &mut out);
            },
            None => {},
        }
        cbor::encode_uint(4, &mut out);
        match &self.data {
            Ok(bs) => {
                cbor::encode_bytes(bs, &mut out);
            },
            Err(e) => {
                error::encode_error(e, &mut out);
            },
        }
        match &self.timestamp {
            Some(t) => {
                cbor::encode_uint(5, &mut out);
                types::encode_timestamp(t, &mut out);
            },
            None => {},
        }
        match &self.id {
            Some(v) => {
                cbor::encode_uint(6, &mut out);
                cbor::encode_uint(*v, &mut out);
            },
            None => {},
        }
        assert(out@ =~= spec_enc_response(*self));
        out
    }

    /// Parses a response from its canonical bytes; the whole input must be
    /// one response.
    pub fn from_bytes(b: &Vec<u8>) -> (r: Result<ResponseMessage, ManyError>)
        ensures
            r matches Ok(m) ==> b@ == spec_enc_response(m),
            forall|m2: ResponseMessage|
                (spec_response_wf(m2) && b@ == #[trigger] spec_enc_response(m2)) ==> (
                r matches Ok(m) && spec_response_fields_eq(m, m2)),
    {
        proof {
            assert forall|m2: ResponseMessage|
                (spec_response_wf(m2) && b@ == #[trigger] spec_enc_response(m2)) implies
                cbor::spec_prefix_at(b@, 0, spec_enc_response(m2)) by {
                assert(b@.subrange(0, b@.len() as int) =~= b@);
            }
        }
        match decode_response(b, 0) {
            Ok((m, end)) => {
                if end == b.len() {
                    assert(b@.subrange(0, b@.len() as int) =~= b@);
                    Ok(m)
                } else {
                    Err(ManyError::deserialization_error(String::new()))
                }
            },
            Err(_) => Err(ManyError::deserialization_error(String::new())),
        }
    }
}


/// Reads an optional map entry `key: uint` at `cur` when entries remain and
/// the next key matches; consumes nothing otherwise.
pub(crate) fn read_opt_u64(b: &Vec<u8>, cur: usize, key: u64, remaining: u64) -> (r: Result<
    Option<(u64, usize)>,
    CborError,
>)
    requires
        cur <= b@.len(),
    ensures
        r matches Ok(Some((v, end))) ==> {
            &&& remaining > 0
            &&& cur < end <= b@.len()
            &&& b@.subrange(cur as int, end as int) == cbor::spec_enc_uint(key)
                + cbor::spec_enc_uint(v)
        },
        remaining == 0 ==> r matches Ok(None),
        forall|k2: u64|
            (remaining > 0 && k2 != key && cbor::spec_prefix_at(
                b@,
                cur as int,
                #[trigger] cbor::spec_enc_uint(k2),
            )) ==> r matches Ok(None),
        forall|v: u64|
            (remaining > 0 && cbor::spec_prefix_at(b@, cur as int, cbor::spec_enc_uint(key))
                && cbor::spec_prefix_at(
                b@,
                cur as int + cbor::spec_enc_uint(key).len(),
                #[trigger] cbor::spec_enc_uint(v),
            )) ==> (r matches Ok(Some(x)) && x.0 == v && x.1 == cur + cbor::spec_enc_uint(
                key,
            ).len() + cbor::spec_enc_uint(v).len()),
{
    if remaining == 0 {
        return Ok(None);
    }
    let (k, k_end) = cbor::decode_uint(b, cur)?;
    if k != key {
        return Ok(None);
    }
    let (v, end) = cbor::decode_uint(b, k_end)?;
    proof {
        cbor::lemma_subrange_concat(b@, cur as int, k_end as int, end as int);
    }
    Ok(Some((v, end)))
}

/// Reads an optional map entry `key: address` in the same manner.
pub(crate) fn read_opt_address(b: &Vec<u8>, cur: usize, key: u64, remaining: u64) -> (r: Result<
    Option<(Address, usize)>,
    CborError,
>)
    requires
        cur <= b@.len(),
    ensures
        r matches Ok(Some((a, end))) ==> {
            &&& remaining > 0
            &&& cur < end <= b@.len()
            &&& b@.subrange(cur as int, end as int) == cbor::spec_enc_uint(key)
                + types::spec_enc_address(a@)
        },
        remaining == 0 ==> r matches Ok(None),
        forall|k2: u64|
            (remaining > 0 && k2 != key && cbor::spec_prefix_at(
                b@,
                cur as int,
                #[trigger] cbor::spec_enc_uint(k2),
            )) ==> r matches Ok(None),
        forall|av: Seq<u8>|
            (remaining > 0 && types::spec_address_wf(av) && cbor::spec_prefix_at(
                b@,
                cur as int,
                cbor::spec_enc_uint(key),
            ) && cbor::spec_prefix_at(
                b@,
                cur as int + cbor::spec_enc_uint(key).len(),
                #[trigger] types::spec_enc_address(av),
            )) ==> (r matches Ok(Some(x)) && x.0@ == av && x.1 == cur + cbor::spec_enc_uint(
                key,
            ).len() + types::spec_enc_address(av).len()),
{
    if remaining == 0 {
        return Ok(None);
    }
    let (k, k_end) = cbor::decode_uint(b, cur)?;
    if k != key {
        return Ok(None);
    }
    let (a, end) = types::decode_address(b, k_end)?;
    proof {
        cbor::lemma_subrange_concat(b@, cur as int, k_end as int, end as int);
    }
    Ok(Some((a, end)))
}

/// Reads an optional map entry `key: timestamp` in the same manner.
pub(crate) fn read_opt_timestamp(b: &Vec<u8>, cur: usize, key: u64, remaining: u64) -> (r: Result<
    Option<(Timestamp, usize)>,
    CborError,
>)
    requires
        cur <= b@.len(),
    ensures
        r matches Ok(Some((t, end))) ==> {
            &&& remaining > 0
            &&& cur < end <= b@.len()
            &&& b@.subrange(cur as int, end as int) == cbor::spec_enc_uint(key)
                + types::spec_enc_timestamp(t)
        },
        remaining == 0 ==> r matches Ok(None),
        forall|k2: u64|
            (remaining > 0 && k2 != key && cbor::spec_prefix_at(
                b@,
                cur as int,
                #[trigger] cbor::spec_enc_uint(k2),
            )) ==> r matches Ok(None),
        forall|t2: Timestamp|
            (remaining > 0 && cbor::spec_prefix_at(b@, cur as int, cbor::spec_enc_uint(key))
                && cbor::spec_prefix_at(
                b@,
                cur as int + cbor::spec_enc_uint(key).len(),
                #[trigger] types::spec_enc_timestamp(t2),
            )) ==> (r matches Ok(Some(x)) && x.0 == t2 && x.1 == cur + cbor::spec_enc_uint(
                key,
            ).len() + types::spec_enc_timestamp(t2).len()),
{
    if remaining == 0 {
        return Ok(None);
    }
    let (k, k_end) = cbor::decode_uint(b, cur)?;
    if k != key {
        return Ok(None);
    }
    let (t, end) = types::decode_timestamp(b, k_end)?;
    proof {
        cbor::lemma_subrange_concat(b@, cur as int, k_end as int, end as int);
    }
    Ok(Some((t, end)))
}

/// Reads an optional map entry `key: bytes` in the same manner.
pub(crate) fn read_opt_bytes(b: &Vec<u8>, cur: usize, key: u64, remaining: u64) -> (r: Result<
    Option<(Vec<u8>, usize)>,
    CborError,
>)
    requires
        cur <= b@.len(),
    ensures
        r matches Ok(Some((v, end))) ==> {
            &&& remaining > 0
            &&& cur < end <= b@.len()
            &&& b@.subrange(cur as int, end as int) == cbor::spec_enc_uint(key)
                + cbor::spec_enc_bytes(v@)
        },
        remaining == 0 ==> r matches Ok(None),
        forall|k2: u64|
            (remaining > 0 && k2 != key && cbor::spec_prefix_at(
                b@,
                cur as int,
                #[trigger] cbor::spec_enc_uint(k2),
            )) ==> r matches Ok(None),
        forall|bv2: Seq<u8>|
            (remaining > 0 && bv2.len() <= u64::MAX && cbor::spec_prefix_at(
                b@,
                cur as int,
                cbor::spec_enc_uint(key),
            ) && cbor::spec_prefix_at(
                b@,
                cur as int + cbor::spec_enc_uint(key).len(),
                #[trigger] cbor::spec_enc_bytes(bv2),
            )) ==> (r matches Ok(Some(x)) && x.0@ == bv2 && x.1 == cur + cbor::spec_enc_uint(
                key,
            ).len() + cbor::spec_enc_bytes(bv2).len()),
{
    if remaining == 0 {
        return Ok(None);
    }
    let (k, k_end) = cbor::decode_uint(b, cur)?;
    if k != key {
        return Ok(None);
    }
    let (v, end) = cbor::decode_bytes(b, k_end)?;
    proof {
        cbor::lemma_subrange_concat(b@, cur as int, k_end as int, end as int);
    }
    Ok(Some((v, end)))
}


/// Reads an optional map entry `key: text` in the same manner.
pub(crate) fn read_opt_text(b: &Vec<u8>, cur: usize, key: u64, remaining: u64) -> (r: Result<
    Option<(String, usize)>,
    CborError,
>)
    requires
        cur <= b@.len(),
    ensures
        r matches Ok(Some((t, end))) ==> {
            &&& remaining > 0
            &&& cur < end <= b@.len()
            &&& b@.subrange(cur as int, end as int) == cbor::spec_enc_uint(key)
                + cbor::spec_enc_text(t@)
        },
{
    if remaining == 0 {
        return Ok(None);
    }
    let (k, k_end) = cbor::decode_uint(b, cur)?;
    if k != key {
        return Ok(None);
    }
    let (t, end) = cbor::decode_text(b, k_end)?;
    proof {
        cbor::lemma_subrange_concat(b@, cur as int, k_end as int, end as int);
    }
    Ok(Some((t, end)))
}

/// Reads an optional map entry `key: bool` in the same manner.
pub(crate) fn read_opt_bool(b: &Vec<u8>, cur: usize, key: u64, remaining: u64) -> (r: Result<
    Option<(bool, usize)>,
    CborError,
>)
    requires
        cur <= b@.len(),
    ensures
        r matches Ok(Some((v, end))) ==> {
            &&& remaining > 0
            &&& cur < end <= b@.len()
            &&& b@.subrange(cur as int, end as int) == cbor::spec_enc_uint(key)
                + cbor::spec_enc_bool(v)
        },
{
    if remaining == 0 {
        return Ok(None);
    }
    let (k, k_end) = cbor::decode_uint(b, cur)?;
    if k != key {
        return Ok(None);
    }
    let (v, end) = cbor::decode_bool(b, k_end)?;
    proof {
        cbor::lemma_subrange_concat(b@, cur as int, k_end as int, end as int);
    }
    Ok(Some((v, end)))
}

/// Reads the required map entry `key: address`; the key must be next.
pub(crate) fn read_req_address(b: &Vec<u8>, cur: usize, key: u64) -> (r: Result<(Address, usize), CborError>)
    requires
        cur <= b@.len(),
    ensures
        r matches Ok((a, end)) ==> {
            &&& cur < end <= b@.len()
            &&& b@.subrange(cur as int, end as int) == cbor::spec_enc_uint(key)
                + types::spec_enc_address(a@)
        },
        forall|av: Seq<u8>|
            (types::spec_address_wf(av) && cbor::spec_prefix_at(
                b@,
                cur as int,
                cbor::spec_enc_uint(key),
            ) && cbor::spec_prefix_at(
                b@,
                cur as int + cbor::spec_enc_uint(key).len(),
                #[trigger] types::spec_enc_address(av),
            )) ==> (r matches Ok(x) && x.0@ == av && x.1 == cur + cbor::spec_enc_uint(key).len()
                + types::spec_enc_address(av).len()),
{
    let (k, k_end) = cbor::decode_uint(b, cur)?;
    if k != key {
        return Err(CborError::Invalid);
    }
    let (a, end) = types::decode_address(b, k_end)?;
    proof {
        cbor::lemma_subrange_concat(b@, cur as int, k_end as int, end as int);
    }
    Ok((a, end))
}

/// Reads the required map entry `key: text`; the key must be next.
pub(crate) fn read_req_text(b: &Vec<u8>, cur: usize, key: u64) -> (r: Result<(String, usize), CborError>)
    requires
        cur <= b@.len(),
    ensures
        r matches Ok((t, end)) ==> {
            &&& cur < end <= b@.len()
            &&& b@.subrange(cur as int, end as int) == cbor::spec_enc_uint(key)
                + cbor::spec_enc_text(t@)
        },
        forall|sv: Seq<char>|
            (vstd::utf8::encode_utf8(sv).len() <= u64::MAX && cbor::spec_prefix_at(
                b@,
                cur as int,
                cbor::spec_enc_uint(key),
            ) && cbor::spec_prefix_at(
                b@,
                cur as int + cbor::spec_enc_uint(key).len(),
                #[trigger] cbor::spec_enc_text(sv),
            )) ==> (r matches Ok(x) && x.0@ == sv && x.1 == cur + cbor::spec_enc_uint(key).len()
                + cbor::spec_enc_text(sv).len()),
{
    let (k, k_end) = cbor::decode_uint(b, cur)?;
    if k != key {
        return Err(CborError::Invalid);
    }
    let (t, end) = cbor::decode_text(b, k_end)?;
    proof {
        cbor::lemma_subrange_concat(b@, cur as int, k_end as int, end as int);
    }
    Ok((t, end))
}

/// Reads the required map entry `key: bytes`; the key must be next.
pub(crate) fn read_req_bytes(b: &Vec<u8>, cur: usize, key: u64) -> (r: Result<(Vec<u8>, usize), CborError>)
    requires
        cur <= b@.len(),
    ensures
        r matches Ok((v, end)) ==> {
            &&& cur < end <= b@.len()
            &&& b@.subrange(cur as int, end as int) == cbor::spec_enc_uint(key)
                + cbor::spec_enc_bytes(v@)
        },
        forall|bv2: Seq<u8>|
            (bv2.len() <= u64::MAX && cbor::spec_prefix_at(
                b@,
                cur as int,
                cbor::spec_enc_uint(key),
            ) && cbor::spec_prefix_at(
                b@,
                cur as int + cbor::spec_enc_uint(key).len(),
                #[trigger] cbor::spec_enc_bytes(bv2),
            )) ==> (r matches Ok(x) && x.0@ == bv2 && x.1 == cur + cbor::spec_enc_uint(key).len()
                + cbor::spec_enc_bytes(bv2).len()),
{
    let (k, k_end) = cbor::decode_uint(b, cur)?;
    if k != key {
        return Err(CborError::Invalid);
    }
    let (v, end) = cbor::decode_bytes(b, k_end)?;
    proof {
        cbor::lemma_subrange_concat(b@, cur as int, k_end as int, end as int);
    }
    Ok((v, end))
}

/// Reads a request message at `pos`. For every well-formed request whose
/// canonical encoding starts there, the read succeeds with that request's
/// fields.
#[verifier::rlimit(100)]
#[verifier::spinoff_prover]
pub fn decode_request(b: &Vec<u8>, pos: usize) -> (r: Result<(RequestMessage, usize), CborError>)
    ensures
        r matches Ok((m, end)) ==> {
            &&& pos < end <= b@.len()
            &&& b@.subrange(pos as int, end as int) == spec_enc_request(m)
        },
        forall|m2: RequestMessage|
            (spec_request_wf(m2) && cbor::spec_prefix_at(
                b@,
                pos as int,
                #[trigger] spec_enc_request(m2),
            )) ==> (r matches Ok(x) && spec_request_fields_eq(x.0, m2) && x.1 == pos
                + spec_enc_request(m2).len()),
{
    let ghost hyp: bool = exists|m2: RequestMessage|
        spec_request_wf(m2) && cbor::spec_prefix_at(
            b@,
            pos as int,
            #[trigger] spec_enc_request(m2),
        );
    let ghost m0: RequestMessage = if hyp {
        choose|m2: RequestMessage|
            spec_request_wf(m2) && cbor::spec_prefix_at(
                b@,
                pos as int,
                #[trigger] spec_enc_request(m2),
            )
    } else {
        vstd::pervasive::arbitrary()
    };
    let ghost tg0 = cbor::spec_enc_tag(TAG_REQUEST);
    let ghost h0 = cbor::spec_hdr(cbor::MAJOR_MAP, spec_request_map_len(m0));
    let ghost vseg0 = (match m0.version {
        Some(v) => cbor::spec_enc_uint(0) + cbor::spec_enc_uint(v),
        None => Seq::<u8>::empty(),
    });
    let ghost fseg0 = (match m0.from {
        Some(a) => cbor::spec_enc_uint(1) + types::spec_enc_address(a@),
        None => Seq::<u8>::empty(),
    });
    let ghost toseg0 = cbor::spec_enc_uint(2) + types::spec_enc_address(m0.to@);
    let ghost mseg0 = cbor::spec_enc_uint(3) + cbor::spec_enc_text(m0.method@);
    let ghost dseg0 = cbor::spec_enc_uint(4) + cbor::spec_enc_bytes(m0.data@);
    let ghost sseg0 = (match m0.timestamp {
        Some(t) => cbor::spec_enc_uint(5) + types::spec_enc_timestamp(t),
        None => Seq::<u8>::empty(),
    });
    let ghost iseg0 = (match m0.id {
        Some(v) => cbor::spec_enc_uint(6) + cbor::spec_enc_uint(v),
        None => Seq::<u8>::empty(),
    });
    let ghost nseg0 = (match m0.nonce {
        Some(nb) => cbor::spec_enc_uint(7) + cbor::spec_enc_bytes(nb@),
        None => Seq::<u8>::empty(),
    });
    let ghost q1 = pos + tg0.len();
    let ghost q2 = q1 + h0.len();
    let ghost q3 = q2 + vseg0.len();
    let ghost q4 = q3 + fseg0.len();
    let ghost q5 = q4 + toseg0.len();
    let ghost q6 = q5 + mseg0.len();
    let ghost q7 = q6 + dseg0.len();
    let ghost q8 = q7 + sseg0.len();
    let ghost q9 = q8 + iseg0.len();
    let ghost q10 = q9 + nseg0.len();
    proof {
        if hyp {
            lemma_request_prefix_decomposition(b@, pos as int, m0);
            assert(3 <= spec_request_map_len(m0) <= 8);
        }
    }
    let (tag, tag_end) = cbor::decode_tag(b, pos)?;
    if tag != TAG_REQUEST {
        return Err(CborError::Invalid);
    }
    let (n, hdr_end) = cbor::decode_map_hdr(b, tag_end)?;
    if n < 3 || n > 8 {
        return Err(CborError::Invalid);
    }
    proof {
        if hyp {
            assert(n == spec_request_map_len(m0) && hdr_end == q2);
        }
    }
    let mut cur = hdr_end;
    let mut remaining = n;

    let mut version: Option<u64> = None;
    match read_opt_u64(b, cur, 0, remaining)? {
        Some((v, end)) => {
            version = Some(v);
            cur = end;
            remaining = remaining - 1;
        },
        None => {},
    }
    let ghost p_version = cur;
    proof {
        if hyp {
            if m0.version is Some {
                assert(version == m0.version && cur == q3);
            } else {
                assert(version is None && cur == q3);
            }
        }
    }

    let mut from: Option<Address> = None;
    match read_opt_address(b, cur, 1, remaining)? {
        Some((a, end)) => {
            from = Some(a);
            cur = end;
            remaining = remaining - 1;
        },
        None => {},
    }
    let ghost p_from = cur;
    proof {
        if hyp {
            if m0.from is Some {
                assert(spec_opt_addr_view(from) == spec_opt_addr_view(m0.from) && cur == q4);
            } else {
                assert(from is None && cur == q4);
            }
        }
    }

    if remaining == 0 {
        return Err(CborError::Invalid);
    }
    let (to, to_end) = read_req_address(b, cur, 2)?;
    cur = to_end;
    remaining = remaining - 1;
    let ghost p_to = cur;
    proof {
        if hyp {
            assert(to@ == m0.to@ && cur == q5);
        }
    }

    if remaining == 0 {
        return Err(CborError::Invalid);
    }
    let (method, m_end) = read_req_text(b, cur, 3)?;
    cur = m_end;
    remaining = remaining - 1;
    let ghost p_method = cur;
    proof {
        if hyp {
            assert(method@ == m0.method@ && cur == q6);
        }
    }

    if remaining == 0 {
        return Err(CborError::Invalid);
    }
    let (data, d_end) = read_req_bytes(b, cur, 4)?;
    cur = d_end;
    remaining = remaining - 1;
    let ghost p_data = cur;
    proof {
        if hyp {
            assert(data@ == m0.data@ && cur == q7);
        }
    }

    let mut timestamp: Option<Timestamp> = None;
    match read_opt_timestamp(b, cur, 5, remaining)? {
        Some((t, end)) => {
            timestamp = Some(t);
            cur = end;
            remaining = remaining - 1;
        },
        None => {},
    }
    let ghost p_ts = cur;
    proof {
        if hyp {
            if m0.timestamp is Some {
                assert(timestamp == m0.timestamp && cur == q8);
            } else {
                assert(timestamp is None && cur == q8);
            }
        }
    }

    let mut id: Option<u64> = None;
    match read_opt_u64(b, cur, 6, remaining)? {
        Some((v, end)) => {
            id = Some(v);
            cur = end;
            remaining = remaining - 1;
        },
        None => {},
    }
    let ghost p_id = cur;
    proof {
        if hyp {
            if m0.id is Some {
                assert(id == m0.id && cur == q9);
            } else {
                assert(id is None && cur == q9);
            }
        }
    }

    let mut nonce: Option<Vec<u8>> = None;
    match read_opt_bytes(b, cur, 7, remaining)? {
        Some((v, end)) => {
            nonce = Some(v);
            cur = end;
            remaining = remaining - 1;
        },
        None => {},
    }
    let ghost p_nonce = cur;
    proof {
        if hyp {
            if m0.nonce is Some {
                assert(spec_opt_bytes_view(nonce) == spec_opt_bytes_view(m0.nonce) && cur == q10);
            } else {
                assert(nonce is None && cur == q10);
            }
            assert(remaining == 0);
        }
    }

    if remaining != 0 {
        return Err(CborError::Invalid);
    }
    let m = RequestMessage { version, from, to, method, data, timestamp, id, nonce };
    assert(n == spec_request_map_len(m));
    proof {
        if m.version is None {
            assert(b@.subrange(hdr_end as int, p_version as int) =~= Seq::<u8>::empty());
        }
        if m.from is None {
            assert(b@.subrange(p_version as int, p_from as int) =~= Seq::<u8>::empty());
        }
        if m.timestamp is None {
            assert(b@.subrange(p_data as int, p_ts as int) =~= Seq::<u8>::empty());
        }
        if m.id is None {
            assert(b@.subrange(p_ts as int, p_id as int) =~= Seq::<u8>::empty());
        }
        if m.nonce is None {
            assert(b@.subrange(p_id as int, p_nonce as int) =~= Seq::<u8>::empty());
        }
        if hyp {
            lemma_request_enc_parts(m0);
            assert(cur == pos + spec_enc_request(m0).len());
            assert(spec_request_fields_eq(m, m0));
        }
        lemma_request_tail_close(
            b@,
            pos as int,
            tag_end as int,
            hdr_end as int,
            p_version as int,
            p_from as int,
            p_to as int,
            p_method as int,
            p_data as int,
            p_ts as int,
            p_id as int,
            p_nonce as int,
            m,
            n,
            hyp,
            m0,
        );
    }
    Ok((m, cur))
}

/// The length of a request encoding is the sum of its field segments.
#[verifier::spinoff_prover]
proof fn lemma_request_enc_parts(m0: RequestMessage)
    ensures
        spec_enc_request(m0).len() == cbor::spec_enc_tag(TAG_REQUEST).len() + cbor::spec_hdr(
            cbor::MAJOR_MAP,
            spec_request_map_len(m0),
        ).len() + (match m0.version {
            Some(v) => cbor::spec_enc_uint(0) + cbor::spec_enc_uint(v),
            None => Seq::<u8>::empty(),
        }).len() + (match m0.from {
            Some(a) => cbor::spec_enc_uint(1) + types::spec_enc_address(a@),
            None => Seq::<u8>::empty(),
        }).len() + cbor::spec_enc_uint(2).len() + types::spec_enc_address(m0.to@).len()
            + cbor::spec_enc_uint(3).len() + cbor::spec_enc_text(m0.method@).len()
            + cbor::spec_enc_uint(4).len() + cbor::spec_enc_bytes(m0.data@).len() + (
        match m0.timestamp {
            Some(t) => cbor::spec_enc_uint(5) + types::spec_enc_timestamp(t),
            None => Seq::<u8>::empty(),
        }).len() + (match m0.id {
            Some(v) => cbor::spec_enc_uint(6) + cbor::spec_enc_uint(v),
            None => Seq::<u8>::empty(),
        }).len() + (match m0.nonce {
            Some(nb) => cbor::spec_enc_uint(7) + cbor::spec_enc_bytes(nb@),
            None => Seq::<u8>::empty(),
        }).len(),
{
}

/// Carries the fields of a decoded request, pinned against one witness
/// encoding, over to every encoding prefixed at the same position.
#[verifier::spinoff_prover]
#[verifier::rlimit(100)]
proof fn lemma_request_complete_end(
    b: Seq<u8>,
    pos: int,
    m: RequestMessage,
    m0: RequestMessage,
    end: int,
)
    requires
        spec_request_wf(m0),
        cbor::spec_prefix_at(b, pos, spec_enc_request(m0)),
        spec_request_fields_eq(m, m0),
        end == pos + spec_enc_request(m0).len(),
    ensures
        forall|m2: RequestMessage|
            (spec_request_wf(m2) && cbor::spec_prefix_at(b, pos, #[trigger] spec_enc_request(
                m2,
            ))) ==> (spec_request_fields_eq(m, m2) && end == pos + spec_enc_request(m2).len()),
{
    assert forall|m2: RequestMessage|
        (spec_request_wf(m2) && cbor::spec_prefix_at(b, pos, #[trigger] spec_enc_request(
            m2,
        ))) implies (spec_request_fields_eq(m, m2) && end == pos + spec_enc_request(
        m2,
    ).len()) by {
        lemma_request_prefix_unique(b, pos, m2, m0);
    }
}

/// Closes a decoded request: composes the canonical bytes and carries the
/// fields over to every encoding prefixed at the start position.
#[verifier::spinoff_prover]
#[verifier::rlimit(100)]
proof fn lemma_request_tail_close(
    bv: Seq<u8>,
    pos: int,
    tag_end: int,
    hdr_end: int,
    p_version: int,
    p_from: int,
    p_to: int,
    p_method: int,
    p_data: int,
    p_ts: int,
    p_id: int,
    p_nonce: int,
    m: RequestMessage,
    n: u64,
    hyp: bool,
    m0: RequestMessage,
)
    requires
        0 <= pos <= tag_end <= hdr_end <= p_version <= p_from <= p_to <= p_method <= p_data <= p_ts
            <= p_id <= p_nonce <= bv.len(),
        pos < tag_end,
        n == spec_request_map_len(m),
        bv.subrange(pos, tag_end) == cbor::spec_enc_tag(TAG_REQUEST),
        bv.subrange(tag_end, hdr_end) == cbor::spec_hdr(cbor::MAJOR_MAP, n),
        bv.subrange(hdr_end, p_version) == (match m.version {
            Some(v) => cbor::spec_enc_uint(0) + cbor::spec_enc_uint(v),
            None => Seq::<u8>::empty(),
        }),
        bv.subrange(p_version, p_from) == (match m.from {
            Some(a) => cbor::spec_enc_uint(1) + types::spec_enc_address(a@),
            None => Seq::<u8>::empty(),
        }),
        bv.subrange(p_from, p_to) == cbor::spec_enc_uint(2) + types::spec_enc_address(m.to@),
        bv.subrange(p_to, p_method) == cbor::spec_enc_uint(3) + cbor::spec_enc_text(m.method@),
        bv.subrange(p_method, p_data) == cbor::spec_enc_uint(4) + cbor::spec_enc_bytes(m.data@),
        bv.subrange(p_data, p_ts) == (match m.timestamp {
            Some(t) => cbor::spec_enc_uint(5) + types::spec_enc_timestamp(t),
            None => Seq::<u8>::empty(),
        }),
        bv.subrange(p_ts, p_id) == (match m.id {
            Some(v) => cbor::spec_enc_uint(6) + cbor::spec_enc_uint(v),
            None => Seq::<u8>::empty(),
        }),
        bv.subrange(p_id, p_nonce) == (match m.nonce {
            Some(nb) => cbor::spec_enc_uint(7) + cbor::spec_enc_bytes(nb@),
            None => Seq::<u8>::empty(),
        }),
        hyp == (exists|m2: RequestMessage|
            spec_request_wf(m2) && cbor::spec_prefix_at(bv, pos, #[trigger] spec_enc_request(
                m2,
            ))),
        hyp ==> (spec_request_wf(m0) && cbor::spec_prefix_at(bv, pos, spec_enc_request(m0))
            && spec_request_fields_eq(m, m0) && p_nonce == pos + spec_enc_request(m0).len()),
    ensures
        bv.subrange(pos, p_nonce) == spec_enc_request(m),
        forall|m2: RequestMessage|
            (spec_request_wf(m2) && cbor::spec_prefix_at(bv, pos, #[trigger] spec_enc_request(
                m2,
            ))) ==> (spec_request_fields_eq(m, m2) && p_nonce == pos + spec_enc_request(m2).len()),
{
    lemma_compose_request(
        bv,
        pos,
        tag_end,
        hdr_end,
        p_version,
        p_from,
        p_to,
        p_method,
        p_data,
        p_ts,
        p_id,
        p_nonce,
        m,
        n,
    );
    if hyp {
        lemma_request_complete_end(bv, pos, m, m0, p_nonce);
    }
}


/// Requests that agree on all field views have the same encoding.
pub proof fn lemma_enc_request_congruence(m1: RequestMessage, m2: RequestMessage)
    requires
        spec_request_fields_eq(m1, m2),
    ensures
        spec_enc_request(m1) == spec_enc_request(m2),
{
    assert(spec_request_map_len(m1) == spec_request_map_len(m2));
}

/// The per-field byte segments a prefixed request encoding pins down.
pub open spec fn spec_request_segments_at(b: Seq<u8>, pos: int, m: RequestMessage) -> bool {
    let tg = cbor::spec_enc_tag(TAG_REQUEST);
    let h = cbor::spec_hdr(cbor::MAJOR_MAP, spec_request_map_len(m));
    let vseg = (match m.version {
        Some(v) => cbor::spec_enc_uint(0) + cbor::spec_enc_uint(v),
        None => Seq::<u8>::empty(),
    });
    let fseg = (match m.from {
        Some(a) => cbor::spec_enc_uint(1) + types::spec_enc_address(a@),
        None => Seq::<u8>::empty(),
    });
    let toseg = cbor::spec_enc_uint(2) + types::spec_enc_address(m.to@);
    let mseg = cbor::spec_enc_uint(3) + cbor::spec_enc_text(m.method@);
    let dseg = cbor::spec_enc_uint(4) + cbor::spec_enc_bytes(m.data@);
    let sseg = (match m.timestamp {
        Some(t) => cbor::spec_enc_uint(5) + types::spec_enc_timestamp(t),
        None => Seq::<u8>::empty(),
    });
    let iseg = (match m.id {
        Some(v) => cbor::spec_enc_uint(6) + cbor::spec_enc_uint(v),
        None => Seq::<u8>::empty(),
    });
    let p1 = pos + tg.len();
    let p2 = p1 + h.len();
    let p3 = p2 + vseg.len();
    let p4 = p3 + fseg.len();
    let p5 = p4 + toseg.len();
    let p6 = p5 + mseg.len();
    let p7 = p6 + dseg.len();
    let p8 = p7 + sseg.len();
    let p9 = p8 + iseg.len();
    &&& cbor::spec_prefix_at(b, pos, tg)
    &&& cbor::spec_prefix_at(b, p1, h)
    &&& (m.version matches Some(v) ==> cbor::spec_prefix_at(b, p2, cbor::spec_enc_uint(0))
        && cbor::spec_prefix_at(b, p2 + cbor::spec_enc_uint(0).len(), cbor::spec_enc_uint(v)))
    &&& (m.from matches Some(a) ==> cbor::spec_prefix_at(b, p3, cbor::spec_enc_uint(1))
        && cbor::spec_prefix_at(b, p3 + cbor::spec_enc_uint(1).len(), types::spec_enc_address(a@)))
    &&& cbor::spec_prefix_at(b, p4, cbor::spec_enc_uint(2))
    &&& cbor::spec_prefix_at(b, p4 + cbor::spec_enc_uint(2).len(), types::spec_enc_address(m.to@))
    &&& cbor::spec_prefix_at(b, p5, cbor::spec_enc_uint(3))
    &&& cbor::spec_prefix_at(b, p5 + cbor::spec_enc_uint(3).len(), cbor::spec_enc_text(m.method@))
    &&& cbor::spec_prefix_at(b, p6, cbor::spec_enc_uint(4))
    &&& cbor::spec_prefix_at(b, p6 + cbor::spec_enc_uint(4).len(), cbor::spec_enc_bytes(m.data@))
    &&& (m.timestamp matches Some(t) ==> cbor::spec_prefix_at(b, p7, cbor::spec_enc_uint(5))
        && cbor::spec_prefix_at(b, p7 + cbor::spec_enc_uint(5).len(), types::spec_enc_timestamp(t)))
    &&& (m.id matches Some(v) ==> cbor::spec_prefix_at(b, p8, cbor::spec_enc_uint(6))
        && cbor::spec_prefix_at(b, p8 + cbor::spec_enc_uint(6).len(), cbor::spec_enc_uint(v)))
    &&& (m.nonce matches Some(nb) ==> cbor::spec_prefix_at(b, p9, cbor::spec_enc_uint(7))
        && cbor::spec_prefix_at(b, p9 + cbor::spec_enc_uint(7).len(), cbor::spec_enc_bytes(nb@)))
}

/// A whole prefixed request encoding splits into its field segments.
#[verifier::spinoff_prover]
#[verifier::rlimit(100)]
pub proof fn lemma_request_prefix_decomposition(b: Seq<u8>, pos: int, m: RequestMessage)
    requires
        cbor::spec_prefix_at(b, pos, spec_enc_request(m)),
    ensures
        spec_request_segments_at(b, pos, m),
{
    let tg = cbor::spec_enc_tag(TAG_REQUEST);
    let h = cbor::spec_hdr(cbor::MAJOR_MAP, spec_request_map_len(m));
    let vseg = (match m.version {
        Some(v) => cbor::spec_enc_uint(0) + cbor::spec_enc_uint(v),
        None => Seq::<u8>::empty(),
    });
    let fseg = (match m.from {
        Some(a) => cbor::spec_enc_uint(1) + types::spec_enc_address(a@),
        None => Seq::<u8>::empty(),
    });
    let toseg = cbor::spec_enc_uint(2) + types::spec_enc_address(m.to@);
    let mseg = cbor::spec_enc_uint(3) + cbor::spec_enc_text(m.method@);
    let dseg = cbor::spec_enc_uint(4) + cbor::spec_enc_bytes(m.data@);
    let sseg = (match m.timestamp {
        Some(t) => cbor::spec_enc_uint(5) + types::spec_enc_timestamp(t),
        None => Seq::<u8>::empty(),
    });
    let iseg = (match m.id {
        Some(v) => cbor::spec_enc_uint(6) + cbor::spec_enc_uint(v),
        None => Seq::<u8>::empty(),
    });
    let nseg = (match m.nonce {
        Some(nb) => cbor::spec_enc_uint(7) + cbor::spec_enc_bytes(nb@),
        None => Seq::<u8>::empty(),
    });
    assert(spec_enc_request(m) =~= (((((((((tg + h) + vseg) + fseg) + toseg) + mseg) + dseg)
        + sseg) + iseg) + nseg));
    cbor::lemma_prefix_split(
        b,
        pos,
        ((((((((tg + h) + vseg) + fseg) + toseg) + mseg) + dseg) + sseg) + iseg),
        nseg,
    );
    cbor::lemma_prefix_split(
        b,
        pos,
        (((((((tg + h) + vseg) + fseg) + toseg) + mseg) + dseg) + sseg),
        iseg,
    );
    cbor::lemma_prefix_split(
        b,
        pos,
        ((((((tg + h) + vseg) + fseg) + toseg) + mseg) + dseg),
        sseg,
    );
    cbor::lemma_prefix_split(b, pos, (((((tg + h) + vseg) + fseg) + toseg) + mseg), dseg);
    cbor::lemma_prefix_split(b, pos, ((((tg + h) + vseg) + fseg) + toseg), mseg);
    cbor::lemma_prefix_split(b, pos, (((tg + h) + vseg) + fseg), toseg);
    cbor::lemma_prefix_split(b, pos, ((tg + h) + vseg), fseg);
    cbor::lemma_prefix_split(b, pos, (tg + h), vseg);
    cbor::lemma_prefix_split(b, pos, tg, h);
    let p2 = pos + tg.len() + h.len();
    match m.version {
        Some(v) => {
            cbor::lemma_prefix_split(b, p2, cbor::spec_enc_uint(0), cbor::spec_enc_uint(v));
        },
        None => {},
    }
    let p3 = p2 + vseg.len();
    match m.from {
        Some(a) => {
            cbor::lemma_prefix_split(b, p3, cbor::spec_enc_uint(1), types::spec_enc_address(a@));
        },
        None => {},
    }
    let p4 = p3 + fseg.len();
    cbor::lemma_prefix_split(b, p4, cbor::spec_enc_uint(2), types::spec_enc_address(m.to@));
    let p5 = p4 + toseg.len();
    cbor::lemma_prefix_split(b, p5, cbor::spec_enc_uint(3), cbor::spec_enc_text(m.method@));
    let p6 = p5 + mseg.len();
    cbor::lemma_prefix_split(b, p6, cbor::spec_enc_uint(4), cbor::spec_enc_bytes(m.data@));
    let p7 = p6 + dseg.len();
    match m.timestamp {
        Some(t) => {
            cbor::lemma_prefix_split(b, p7, cbor::spec_enc_uint(5), types::spec_enc_timestamp(t));
        },
        None => {},
    }
    let p8 = p7 + sseg.len();
    match m.id {
        Some(v) => {
            cbor::lemma_prefix_split(b, p8, cbor::spec_enc_uint(6), cbor::spec_enc_uint(v));
        },
        None => {},
    }
    let p9 = p8 + iseg.len();
    match m.nonce {
        Some(nb) => {
            cbor::lemma_prefix_split(b, p9, cbor::spec_enc_uint(7), cbor::spec_enc_bytes(nb@));
        },
        None => {},
    }
}

/// Two request encodings starting at the same position describe the same
/// request: every field view coincides, so the encodings do.
#[verifier::spinoff_prover]
#[verifier::rlimit(100)]
pub proof fn lemma_request_prefix_unique(
    b: Seq<u8>,
    pos: int,
    m1: RequestMessage,
    m2: RequestMessage,
)
    requires
        spec_request_wf(m1),
        spec_request_wf(m2),
        cbor::spec_prefix_at(b, pos, spec_enc_request(m1)),
        cbor::spec_prefix_at(b, pos, spec_enc_request(m2)),
    ensures
        spec_request_fields_eq(m1, m2),
        spec_enc_request(m1) == spec_enc_request(m2),
{
    lemma_request_prefix_decomposition(b, pos, m1);
    lemma_request_prefix_decomposition(b, pos, m2);
    let tg = cbor::spec_enc_tag(TAG_REQUEST);
    let p1 = pos + tg.len();
    cbor::lemma_hdr_prefix_unique(
        b,
        p1,
        cbor::MAJOR_MAP,
        spec_request_map_len(m1),
        cbor::MAJOR_MAP,
        spec_request_map_len(m2),
    );
    let p2 = p1 + cbor::spec_hdr(cbor::MAJOR_MAP, spec_request_map_len(m1)).len();
    match (m1.version, m2.version) {
        (Some(v1), Some(v2)) => {
            cbor::lemma_uint_prefix_unique(b, p2 + cbor::spec_enc_uint(0).len(), v1, v2);
        },
        (Some(v1), None) => {
            if m2.from is Some {
                cbor::lemma_uint_prefix_unique(b, p2, 0, 1);
            } else {
                cbor::lemma_uint_prefix_unique(b, p2, 0, 2);
            }
            assert(false);
        },
        (None, Some(v2)) => {
            if m1.from is Some {
                cbor::lemma_uint_prefix_unique(b, p2, 1, 0);
            } else {
                cbor::lemma_uint_prefix_unique(b, p2, 2, 0);
            }
            assert(false);
        },
        (None, None) => {},
    }
    let vseg = (match m1.version {
        Some(v) => cbor::spec_enc_uint(0) + cbor::spec_enc_uint(v),
        None => Seq::<u8>::empty(),
    });
    let p3 = p2 + vseg.len();
    match (m1.from, m2.from) {
        (Some(a1), Some(a2)) => {
            types::lemma_address_prefix_unique(b, p3 + cbor::spec_enc_uint(1).len(), a1@, a2@);
        },
        (Some(a1), None) => {
            cbor::lemma_uint_prefix_unique(b, p3, 1, 2);
            assert(false);
        },
        (None, Some(a2)) => {
            cbor::lemma_uint_prefix_unique(b, p3, 2, 1);
            assert(false);
        },
        (None, None) => {},
    }
    let fseg = (match m1.from {
        Some(a) => cbor::spec_enc_uint(1) + types::spec_enc_address(a@),
        None => Seq::<u8>::empty(),
    });
    let p4 = p3 + fseg.len();
    types::lemma_address_prefix_unique(b, p4 + cbor::spec_enc_uint(2).len(), m1.to@, m2.to@);
    let p5 = p4 + cbor::spec_enc_uint(2).len() + types::spec_enc_address(m1.to@).len();
    cbor::lemma_text_prefix_unique(
        b,
        p5 + cbor::spec_enc_uint(3).len(),
        m1.method@,
        m2.method@,
    );
    let p6 = p5 + cbor::spec_enc_uint(3).len() + cbor::spec_enc_text(m1.method@).len();
    cbor::lemma_bytes_prefix_unique(b, p6 + cbor::spec_enc_uint(4).len(), m1.data@, m2.data@);
    let p7 = p6 + cbor::spec_enc_uint(4).len() + cbor::spec_enc_bytes(m1.data@).len();
    match (m1.timestamp, m2.timestamp) {
        (Some(t1), Some(t2)) => {
            types::lemma_timestamp_prefix_unique(b, p7 + cbor::spec_enc_uint(5).len(), t1, t2);
        },
        (Some(t1), None) => {
            if m2.id is Some {
                cbor::lemma_uint_prefix_unique(b, p7, 5, 6);
            } else if m2.nonce is Some {
                cbor::lemma_uint_prefix_unique(b, p7, 5, 7);
            }
            assert(false);
        },
        (None, Some(t2)) => {
            if m1.id is Some {
                cbor::lemma_uint_prefix_unique(b, p7, 6, 5);
            } else if m1.nonce is Some {
                cbor::lemma_uint_prefix_unique(b, p7, 7, 5);
            }
            assert(false);
        },
        (None, None) => {},
    }
    let sseg = (match m1.timestamp {
        Some(t) => cbor::spec_enc_uint(5) + types::spec_enc_timestamp(t),
        None => Seq::<u8>::empty(),
    });
    let p8 = p7 + sseg.len();
    match (m1.id, m2.id) {
        (Some(v1), Some(v2)) => {
            cbor::lemma_uint_prefix_unique(b, p8 + cbor::spec_enc_uint(6).len(), v1, v2);
        },
        (Some(v1), None) => {
            if m2.nonce is Some {
                cbor::lemma_uint_prefix_unique(b, p8, 6, 7);
            }
            assert(false);
        },
        (None, Some(v2)) => {
            if m1.nonce is Some {
                cbor::lemma_uint_prefix_unique(b, p8, 7, 6);
            }
            assert(false);
        },
        (None, None) => {},
    }
    let iseg = (match m1.id {
        Some(v) => cbor::spec_enc_uint(6) + cbor::spec_enc_uint(v),
        None => Seq::<u8>::empty(),
    });
    let p9 = p8 + iseg.len();
    match (m1.nonce, m2.nonce) {
        (Some(n1), Some(n2)) => {
            cbor::lemma_bytes_prefix_unique(b, p9 + cbor::spec_enc_uint(7).len(), n1@, n2@);
        },
        (Some(n1), None) => {
            assert(false);
        },
        (None, Some(n2)) => {
            assert(false);
        },
        (None, None) => {},
    }
    lemma_enc_request_congruence(m1, m2);
}

/// Composes the per-field byte ranges of a decoded request into the whole
/// canonical encoding.
#[verifier::spinoff_prover]
proof fn lemma_compose_request(
    bv: Seq<u8>,
    pos: int,
    tag_end: int,
    hdr_end: int,
    p_version: int,
    p_from: int,
    p_to: int,
    p_method: int,
    p_data: int,
    p_ts: int,
    p_id: int,
    p_nonce: int,
    m: RequestMessage,
    n: u64,
)
    requires
        0 <= pos <= tag_end <= hdr_end <= p_version <= p_from <= p_to <= p_method <= p_data <= p_ts
            <= p_id <= p_nonce <= bv.len(),
        n == spec_request_map_len(m),
        bv.subrange(pos, tag_end) == cbor::spec_enc_tag(TAG_REQUEST),
        bv.subrange(tag_end, hdr_end) == cbor::spec_hdr(cbor::MAJOR_MAP, n),
        bv.subrange(hdr_end, p_version) == (if m.version is Some {
            cbor::spec_enc_uint(0) + cbor::spec_enc_uint(m.version->Some_0)
        } else {
            Seq::<u8>::empty()
        }),
        bv.subrange(p_version, p_from) == (if m.from is Some {
            cbor::spec_enc_uint(1) + types::spec_enc_address(m.from->Some_0@)
        } else {
            Seq::<u8>::empty()
        }),
        bv.subrange(p_from, p_to) == cbor::spec_enc_uint(2) + types::spec_enc_address(m.to@),
        bv.subrange(p_to, p_method) == cbor::spec_enc_uint(3) + cbor::spec_enc_text(m.method@),
        bv.subrange(p_method, p_data) == cbor::spec_enc_uint(4) + cbor::spec_enc_bytes(m.data@),
        bv.subrange(p_data, p_ts) == (if m.timestamp is Some {
            cbor::spec_enc_uint(5) + types::spec_enc_timestamp(m.timestamp->Some_0)
        } else {
            Seq::<u8>::empty()
        }),
        bv.subrange(p_ts, p_id) == (if m.id is Some {
            cbor::spec_enc_uint(6) + cbor::spec_enc_uint(m.id->Some_0)
        } else {
            Seq::<u8>::empty()
        }),
        bv.subrange(p_id, p_nonce) == (if m.nonce is Some {
            cbor::spec_enc_uint(7) + cbor::spec_enc_bytes(m.nonce->Some_0@)
        } else {
            Seq::<u8>::empty()
        }),
    ensures
        bv.subrange(pos, p_nonce) == spec_enc_request(m),
{
    let seg_version = if m.version is Some {
        cbor::spec_enc_uint(0) + cbor::spec_enc_uint(m.version->Some_0)
    } else {
        Seq::<u8>::empty()
    };
    let seg_from = if m.from is Some {
        cbor::spec_enc_uint(1) + types::spec_enc_address(m.from->Some_0@)
    } else {
        Seq::<u8>::empty()
    };
    let seg_ts = if m.timestamp is Some {
        cbor::spec_enc_uint(5) + types::spec_enc_timestamp(m.timestamp->Some_0)
    } else {
        Seq::<u8>::empty()
    };
    let seg_id = if m.id is Some {
        cbor::spec_enc_uint(6) + cbor::spec_enc_uint(m.id->Some_0)
    } else {
        Seq::<u8>::empty()
    };
    let seg_nonce = if m.nonce is Some {
        cbor::spec_enc_uint(7) + cbor::spec_enc_bytes(m.nonce->Some_0@)
    } else {
        Seq::<u8>::empty()
    };
    cbor::lemma_subrange_concat(bv, pos, tag_end, hdr_end);
    assert(bv.subrange(pos, hdr_end) == cbor::spec_enc_tag(TAG_REQUEST) + cbor::spec_hdr(
        cbor::MAJOR_MAP,
        n,
    ));
    cbor::lemma_subrange_concat(bv, pos, hdr_end, p_version);
    assert(bv.subrange(pos, p_version) == cbor::spec_enc_tag(TAG_REQUEST) + cbor::spec_hdr(
        cbor::MAJOR_MAP,
        n,
    ) + seg_version);
    cbor::lemma_subrange_concat(bv, pos, p_version, p_from);
    assert(bv.subrange(pos, p_from) == cbor::spec_enc_tag(TAG_REQUEST) + cbor::spec_hdr(
        cbor::MAJOR_MAP,
        n,
    ) + seg_version + seg_from);
    cbor::lemma_subrange_concat(bv, pos, p_from, p_to);
    assert(bv.subrange(pos, p_to) == cbor::spec_enc_tag(TAG_REQUEST) + cbor::spec_hdr(
        cbor::MAJOR_MAP,
        n,
    ) + seg_version + seg_from + cbor::spec_enc_uint(2) + types::spec_enc_address(m.to@));
    cbor::lemma_subrange_concat(bv, pos, p_to, p_method);
    assert(bv.subrange(pos, p_method) == bv.subrange(pos, p_to) + cbor::spec_enc_uint(3)
        + cbor::spec_enc_text(m.method@));
    cbor::lemma_subrange_concat(bv, pos, p_method, p_data);
    assert(bv.subrange(pos, p_data) == bv.subrange(pos, p_method) + cbor::spec_enc_uint(4)
        + cbor::spec_enc_bytes(m.data@));
    cbor::lemma_subrange_concat(bv, pos, p_data, p_ts);
    assert(bv.subrange(pos, p_ts) == bv.subrange(pos, p_data) + seg_ts);
    cbor::lemma_subrange_concat(bv, pos, p_ts, p_id);
    assert(bv.subrange(pos, p_id) == bv.subrange(pos, p_ts) + seg_id);
    cbor::lemma_subrange_concat(bv, pos, p_id, p_nonce);
    assert(bv.subrange(pos, p_nonce) == bv.subrange(pos, p_id) + seg_nonce);
}


/// The view of an optional address.
pub open spec fn spec_opt_addr_view(a: Option<Address>) -> Option<Seq<u8>> {
    match a {
        Some(x) => Some(x@),
        None => None,
    }
}

/// A response whose encoding round-trips: addresses are well-formed and
/// text lengths stay within the header range.
pub open spec fn spec_response_wf(m: ResponseMessage) -> bool {
    &&& crate::types::spec_address_wf(m.from@)
    &&& (m.to matches Some(a) ==> crate::types::spec_address_wf(a@))
    &&& (m.data matches Ok(bs) ==> bs@.len() <= u64::MAX)
    &&& (m.data matches Err(e) ==> error::spec_error_wf(e))
}

/// Responses that agree on all field views have the same encoding.
pub proof fn lemma_enc_response_congruence(m1: ResponseMessage, m2: ResponseMessage)
    requires
        m1.version == m2.version,
        m1.from@ == m2.from@,
        spec_opt_addr_view(m1.to) == spec_opt_addr_view(m2.to),
        (m1.data matches Ok(b1) && m2.data matches Ok(b2) && b1@ == b2@) || (m1.data matches Err(
            e1,
        ) && m2.data matches Err(e2) && e1.code == e2.code && error::spec_msg_view(e1.message)
            == error::spec_msg_view(e2.message) && error::spec_args_views(e1.arguments@)
            == error::spec_args_views(e2.arguments@)),
        m1.timestamp == m2.timestamp,
        m1.id == m2.id,
    ensures
        spec_enc_response(m1) == spec_enc_response(m2),
{
    match (m1.data, m2.data) {
        (Err(e1), Err(e2)) => {
            error::lemma_enc_error_congruence(e1, e2);
        },
        _ => {},
    }
}

/// The per-field byte segments a prefixed response encoding pins down.
pub open spec fn spec_response_segments_at(b: Seq<u8>, pos: int, m: ResponseMessage) -> bool {
    let tg = cbor::spec_enc_tag(TAG_RESPONSE);
    let h = cbor::spec_hdr(cbor::MAJOR_MAP, spec_response_map_len(m));
    let vseg = (match m.version {
        Some(v) => cbor::spec_enc_uint(0) + cbor::spec_enc_uint(v),
        None => Seq::<u8>::empty(),
    });
    let fseg = cbor::spec_enc_uint(1) + types::spec_enc_address(m.from@);
    let tseg = (match m.to {
        Some(a) => cbor::spec_enc_uint(2) + types::spec_enc_address(a@),
        None => Seq::<u8>::empty(),
    });
    let p1 = pos + tg.len();
    let p2 = p1 + h.len();
    let p3 = p2 + vseg.len();
    let p4 = p3 + fseg.len();
    let p5 = p4 + tseg.len();
    let p6 = p5 + cbor::spec_enc_uint(4).len();
    let p7 = p6 + spec_enc_response_data(m.data).len();
    let p8 = p7 + (match m.timestamp {
        Some(t) => cbor::spec_enc_uint(5) + types::spec_enc_timestamp(t),
        None => Seq::<u8>::empty(),
    }).len();
    &&& cbor::spec_prefix_at(b, pos, tg)
    &&& cbor::spec_prefix_at(b, p1, h)
    &&& (m.version matches Some(v) ==> cbor::spec_prefix_at(b, p2, cbor::spec_enc_uint(0))
        && cbor::spec_prefix_at(b, p2 + cbor::spec_enc_uint(0).len(), cbor::spec_enc_uint(v)))
    &&& cbor::spec_prefix_at(b, p3, cbor::spec_enc_uint(1))
    &&& cbor::spec_prefix_at(b, p3 + cbor::spec_enc_uint(1).len(), types::spec_enc_address(m.from@))
    &&& (m.to matches Some(a) ==> cbor::spec_prefix_at(b, p4, cbor::spec_enc_uint(2))
        && cbor::spec_prefix_at(b, p4 + cbor::spec_enc_uint(2).len(), types::spec_enc_address(a@)))
    &&& cbor::spec_prefix_at(b, p5, cbor::spec_enc_uint(4))
    &&& cbor::spec_prefix_at(b, p6, spec_enc_response_data(m.data))
    &&& (m.timestamp matches Some(t) ==> cbor::spec_prefix_at(b, p7, cbor::spec_enc_uint(5))
        && cbor::spec_prefix_at(b, p7 + cbor::spec_enc_uint(5).len(), types::spec_enc_timestamp(t)))
    &&& (m.id matches Some(v) ==> cbor::spec_prefix_at(b, p8, cbor::spec_enc_uint(6))
        && cbor::spec_prefix_at(b, p8 + cbor::spec_enc_uint(6).len(), cbor::spec_enc_uint(v)))
}

/// A whole prefixed response encoding splits into its field segments.
#[verifier::spinoff_prover]
#[verifier::rlimit(100)]
pub proof fn lemma_response_prefix_decomposition(b: Seq<u8>, pos: int, m: ResponseMessage)
    requires
        cbor::spec_prefix_at(b, pos, spec_enc_response(m)),
    ensures
        spec_response_segments_at(b, pos, m),
{
    let tg = cbor::spec_enc_tag(TAG_RESPONSE);
    let h = cbor::spec_hdr(cbor::MAJOR_MAP, spec_response_map_len(m));
    let vseg = (match m.version {
        Some(v) => cbor::spec_enc_uint(0) + cbor::spec_enc_uint(v),
        None => Seq::<u8>::empty(),
    });
    let fseg = cbor::spec_enc_uint(1) + types::spec_enc_address(m.from@);
    let tseg = (match m.to {
        Some(a) => cbor::spec_enc_uint(2) + types::spec_enc_address(a@),
        None => Seq::<u8>::empty(),
    });
    let dkey = cbor::spec_enc_uint(4);
    let dseg = spec_enc_response_data(m.data);
    let sseg = (match m.timestamp {
        Some(t) => cbor::spec_enc_uint(5) + types::spec_enc_timestamp(t),
        None => Seq::<u8>::empty(),
    });
    let iseg = (match m.id {
        Some(v) => cbor::spec_enc_uint(6) + cbor::spec_enc_uint(v),
        None => Seq::<u8>::empty(),
    });
    assert(spec_enc_response(m) =~= (((((((tg + h) + vseg) + fseg) + tseg) + dkey) + dseg) + sseg)
        + iseg);
    cbor::lemma_prefix_split(b, pos, ((((((tg + h) + vseg) + fseg) + tseg) + dkey) + dseg) + sseg, iseg);
    cbor::lemma_prefix_split(b, pos, (((((tg + h) + vseg) + fseg) + tseg) + dkey) + dseg, sseg);
    cbor::lemma_prefix_split(b, pos, ((((tg + h) + vseg) + fseg) + tseg) + dkey, dseg);
    cbor::lemma_prefix_split(b, pos, (((tg + h) + vseg) + fseg) + tseg, dkey);
    cbor::lemma_prefix_split(b, pos, ((tg + h) + vseg) + fseg, tseg);
    cbor::lemma_prefix_split(b, pos, (tg + h) + vseg, fseg);
    cbor::lemma_prefix_split(b, pos, tg + h, vseg);
    cbor::lemma_prefix_split(b, pos, tg, h);
    let p2 = pos + tg.len() + h.len();
    match m.version {
        Some(v) => {
            cbor::lemma_prefix_split(b, p2, cbor::spec_enc_uint(0), cbor::spec_enc_uint(v));
        },
        None => {},
    }
    let p3 = p2 + vseg.len();
    cbor::lemma_prefix_split(b, p3, cbor::spec_enc_uint(1), types::spec_enc_address(m.from@));
    let p4 = p3 + fseg.len();
    match m.to {
        Some(a) => {
            cbor::lemma_prefix_split(b, p4, cbor::spec_enc_uint(2), types::spec_enc_address(a@));
        },
        None => {},
    }
    let p7 = p4 + tseg.len() + dkey.len() + dseg.len();
    match m.timestamp {
        Some(t) => {
            cbor::lemma_prefix_split(b, p7, cbor::spec_enc_uint(5), types::spec_enc_timestamp(t));
        },
        None => {},
    }
    let p8 = p7 + sseg.len();
    match m.id {
        Some(v) => {
            cbor::lemma_prefix_split(b, p8, cbor::spec_enc_uint(6), cbor::spec_enc_uint(v));
        },
        None => {},
    }
}
/// Reads a response message at `pos`. For every well-formed response whose
/// canonical encoding starts there, the read succeeds with that response's
/// fields.
#[verifier::rlimit(100)]
#[verifier::spinoff_prover]
pub fn decode_response(b: &Vec<u8>, pos: usize) -> (r: Result<(ResponseMessage, usize), CborError>)
    ensures
        r matches Ok((m, end)) ==> {
            &&& pos < end <= b@.len()
            &&& b@.subrange(pos as int, end as int) == spec_enc_response(m)
        },
        forall|m2: ResponseMessage|
            (spec_response_wf(m2) && cbor::spec_prefix_at(
                b@,
                pos as int,
                #[trigger] spec_enc_response(m2),
            )) ==> (r matches Ok(x) && spec_response_fields_eq(x.0, m2) && x.1 == pos
                + spec_enc_response(m2).len()),
{
    let ghost hyp: bool = exists|m2: ResponseMessage|
        spec_response_wf(m2) && cbor::spec_prefix_at(
            b@,
            pos as int,
            #[trigger] spec_enc_response(m2),
        );
    let ghost m0: ResponseMessage = if hyp {
        choose|m2: ResponseMessage|
            spec_response_wf(m2) && cbor::spec_prefix_at(
                b@,
                pos as int,
                #[trigger] spec_enc_response(m2),
            )
    } else {
        vstd::pervasive::arbitrary()
    };
    let ghost tg0 = cbor::spec_enc_tag(TAG_RESPONSE);
    let ghost h0 = cbor::spec_hdr(cbor::MAJOR_MAP, spec_response_map_len(m0));
    let ghost vseg0 = (match m0.version {
        Some(v) => cbor::spec_enc_uint(0) + cbor::spec_enc_uint(v),
        None => Seq::<u8>::empty(),
    });
    let ghost fseg0 = cbor::spec_enc_uint(1) + types::spec_enc_address(m0.from@);
    let ghost tseg0 = (match m0.to {
        Some(a) => cbor::spec_enc_uint(2) + types::spec_enc_address(a@),
        None => Seq::<u8>::empty(),
    });
    let ghost q1 = pos + tg0.len();
    let ghost q2 = q1 + h0.len();
    let ghost q3 = q2 + vseg0.len();
    let ghost q4 = q3 + fseg0.len();
    let ghost q5 = q4 + tseg0.len();
    proof {
        if hyp {
            lemma_response_prefix_decomposition(b@, pos as int, m0);
            assert(2 <= spec_response_map_len(m0) <= 6);
        }
    }
    let (tag, tag_end) = cbor::decode_tag(b, pos)?;
    if tag != TAG_RESPONSE {
        return Err(CborError::Invalid);
    }
    proof {
        if hyp {
            assert(tag_end == q1);
        }
    }
    let (n, hdr_end) = cbor::decode_map_hdr(b, tag_end)?;
    if n < 2 || n > 6 {
        return Err(CborError::Invalid);
    }
    proof {
        if hyp {
            assert(n == spec_response_map_len(m0) && hdr_end == q2);
        }
    }
    let mut cur = hdr_end;
    let mut remaining = n;

    let mut version: Option<u64> = None;
    if remaining > 0 {
        let (k, k_end) = cbor::decode_uint(b, cur)?;
        if k == 0 {
            let (v, v_end) = cbor::decode_uint(b, k_end)?;
            proof {
                cbor::lemma_subrange_concat(b@, cur as int, k_end as int, v_end as int);
            }
            version = Some(v);
            cur = v_end;
            remaining = remaining - 1;
        }
    }
    let ghost p_version = cur;
    proof {
        if hyp {
            if m0.version is Some {
                assert(version == m0.version && cur == q3);
            } else {
                assert(version is None && cur == q3);
            }
        }
    }

    if remaining == 0 {
        return Err(CborError::Invalid);
    }
    let (k1, k1_end) = cbor::decode_uint(b, cur)?;
    if k1 != 1 {
        return Err(CborError::Invalid);
    }
    let (from, f_end) = types::decode_address(b, k1_end)?;
    proof {
        cbor::lemma_subrange_concat(b@, cur as int, k1_end as int, f_end as int);
        if hyp {
            assert(from@ == m0.from@ && f_end == q4);
        }
    }
    cur = f_end;
    remaining = remaining - 1;
    let ghost p_from = cur;

    let mut to: Option<Address> = None;
    if remaining > 0 {
        let (k, k_end) = cbor::decode_uint(b, cur)?;
        if k == 2 {
            let (a, v_end) = types::decode_address(b, k_end)?;
            proof {
                cbor::lemma_subrange_concat(b@, cur as int, k_end as int, v_end as int);
            }
            to = Some(a);
            cur = v_end;
            remaining = remaining - 1;
        }
    }
    proof {
        if hyp {
            if m0.to is Some {
                assert(spec_opt_addr_view(to) == spec_opt_addr_view(m0.to) && cur == q5);
            } else {
                assert(to is None && cur == q5);
            }
        }
        if version is None {
            assert(b@.subrange(hdr_end as int, p_version as int) =~= Seq::<u8>::empty());
        }
        if to is None {
            assert(b@.subrange(p_from as int, cur as int) =~= Seq::<u8>::empty());
        }
    }
    decode_response_tail(
        b,
        cur,
        remaining,
        version,
        from,
        to,
        Ghost(pos as int),
        Ghost(tag_end as int),
        Ghost(hdr_end as int),
        Ghost(p_version as int),
        Ghost(p_from as int),
        Ghost(n),
        Ghost(hyp),
        Ghost(m0),
    )
}

/// Reads one response payload entry value: plain bytes on success, the
/// error map on failure.
#[verifier::rlimit(100)]
#[verifier::spinoff_prover]
fn decode_response_payload(
    b: &Vec<u8>,
    start: usize,
    Ghost(hyp): Ghost<bool>,
    Ghost(m0): Ghost<ResponseMessage>,
) -> (r: Result<(Result<Vec<u8>, ManyError>, usize), CborError>)
    requires
        hyp ==> (spec_response_wf(m0) && cbor::spec_prefix_at(
            b@,
            start as int,
            spec_enc_response_data(m0.data),
        )),
    ensures
        r matches Ok((d, end)) ==> {
            &&& start < end <= b@.len()
            &&& b@.subrange(start as int, end as int) == spec_enc_response_data(d)
        },
        hyp ==> (r matches Ok(x) && x.1 == start + spec_enc_response_data(m0.data).len() && ((
        m0.data matches Ok(b2) && (x.0 matches Ok(b1) && b1@ == b2@)) || (m0.data matches Err(e2)
            && (x.0 matches Err(e1) && e1.code == e2.code && error::spec_msg_view(e1.message)
            == error::spec_msg_view(e2.message) && error::spec_args_views(e1.arguments@)
            == error::spec_args_views(e2.arguments@))))),
{
    proof {
        if hyp {
            match m0.data {
                Ok(bs) => {
                    cbor::lemma_prefix_split(
                        b@,
                        start as int,
                        cbor::spec_hdr(cbor::MAJOR_BYTES, bs@.len() as u64),
                        bs@,
                    );
                    cbor::lemma_hdr_shape(cbor::MAJOR_BYTES, bs@.len() as u64);
                    assert(b@.subrange(
                        start as int,
                        start + cbor::spec_hdr(cbor::MAJOR_BYTES, bs@.len() as u64).len() as int,
                    )[0] == b@[start as int]);
                },
                Err(e) => {
                    error::lemma_error_prefix_decomposition(b@, start as int, e);
                    cbor::lemma_hdr_shape(cbor::MAJOR_MAP, error::spec_error_map_len(e));
                    assert(b@.subrange(
                        start as int,
                        start + cbor::spec_hdr(
                            cbor::MAJOR_MAP,
                            error::spec_error_map_len(e),
                        ).len() as int,
                    )[0] == b@[start as int]);
                },
            }
        }
    }
    if start < b.len() && (b[start] >> 5) == cbor::MAJOR_BYTES {
        let (bs, e) = cbor::decode_bytes(b, start)?;
        Ok((Ok(bs), e))
    } else {
        let (er, e) = error::decode_error(b, start)?;
        Ok((Err(er), e))
    }
}

/// Reads the payload, timestamp and request-id entries that close a
/// response map, and assembles the message read so far.
#[verifier::rlimit(100)]
#[verifier::spinoff_prover]
fn decode_response_tail(
    b: &Vec<u8>,
    start: usize,
    rem: u64,
    version: Option<u64>,
    from: Address,
    to: Option<Address>,
    Ghost(pos): Ghost<int>,
    Ghost(tag_end): Ghost<int>,
    Ghost(hdr_end): Ghost<int>,
    Ghost(p_version): Ghost<int>,
    Ghost(p_from): Ghost<int>,
    Ghost(n): Ghost<u64>,
    Ghost(hyp): Ghost<bool>,
    Ghost(m0): Ghost<ResponseMessage>,
) -> (r: Result<(ResponseMessage, usize), CborError>)
    requires
        0 <= pos < tag_end <= hdr_end <= p_version <= p_from <= start as int <= b@.len(),
        b@.subrange(pos, tag_end) == cbor::spec_enc_tag(TAG_RESPONSE),
        b@.subrange(tag_end, hdr_end) == cbor::spec_hdr(cbor::MAJOR_MAP, n),
        2 <= n <= 6,
        b@.subrange(hdr_end, p_version) == (match version {
            Some(v) => cbor::spec_enc_uint(0) + cbor::spec_enc_uint(v),
            None => Seq::<u8>::empty(),
        }),
        b@.subrange(p_version, p_from) == cbor::spec_enc_uint(1) + types::spec_enc_address(from@),
        types::spec_address_wf(from@),
        to matches Some(a) ==> types::spec_address_wf(a@),
        b@.subrange(p_from, start as int) == (match to {
            Some(a) => cbor::spec_enc_uint(2) + types::spec_enc_address(a@),
            None => Seq::<u8>::empty(),
        }),
        rem == n - (1 + (if version is Some {
            1int
        } else {
            0
        }) + (if to is Some {
            1int
        } else {
            0
        })),
        hyp == (exists|m2: ResponseMessage|
            spec_response_wf(m2) && cbor::spec_prefix_at(b@, pos, #[trigger] spec_enc_response(
                m2,
            ))),
        hyp ==> {
            &&& spec_response_wf(m0)
            &&& cbor::spec_prefix_at(b@, pos, spec_enc_response(m0))
            &&& spec_response_segments_at(b@, pos, m0)
            &&& n == spec_response_map_len(m0)
            &&& version == m0.version
            &&& from@ == m0.from@
            &&& spec_opt_addr_view(to) == spec_opt_addr_view(m0.to)
            &&& start as int == pos + cbor::spec_enc_tag(TAG_RESPONSE).len() + cbor::spec_hdr(
                cbor::MAJOR_MAP,
                spec_response_map_len(m0),
            ).len() + (match m0.version {
                Some(v) => cbor::spec_enc_uint(0) + cbor::spec_enc_uint(v),
                None => Seq::<u8>::empty(),
            }).len() + cbor::spec_enc_uint(1).len() + types::spec_enc_address(m0.from@).len() + (
            match m0.to {
                Some(a) => cbor::spec_enc_uint(2) + types::spec_enc_address(a@),
                None => Seq::<u8>::empty(),
            }).len()
        },
    ensures
        r matches Ok((m, end)) ==> {
            &&& pos < end <= b@.len()
            &&& b@.subrange(pos, end as int) == spec_enc_response(m)
        },
        forall|m2: ResponseMessage|
            (spec_response_wf(m2) && cbor::spec_prefix_at(b@, pos, #[trigger] spec_enc_response(
                m2,
            ))) ==> (r matches Ok(x) && spec_response_fields_eq(x.0, m2) && x.1 == pos
                + spec_enc_response(m2).len()),
{
    let ghost dseg0 = spec_enc_response_data(m0.data);
    let ghost sseg0 = (match m0.timestamp {
        Some(t) => cbor::spec_enc_uint(5) + types::spec_enc_timestamp(t),
        None => Seq::<u8>::empty(),
    });
    let ghost iseg0 = (match m0.id {
        Some(v) => cbor::spec_enc_uint(6) + cbor::spec_enc_uint(v),
        None => Seq::<u8>::empty(),
    });
    let ghost q6 = start + cbor::spec_enc_uint(4).len();
    let ghost q7 = q6 + dseg0.len();
    let ghost q8 = q7 + sseg0.len();
    let ghost q9 = q8 + iseg0.len();
    let mut cur = start;
    let mut remaining = rem;
    if remaining == 0 {
        return Err(CborError::Invalid);
    }
    let (k4, k4_end) = cbor::decode_uint(b, cur)?;
    if k4 != 4 {
        return Err(CborError::Invalid);
    }
    proof {
        if hyp {
            assert(k4_end == q6);
        }
    }
    let (data, d_end) = decode_response_payload(b, k4_end, Ghost(hyp), Ghost(m0))?;
    proof {
        cbor::lemma_subrange_concat(b@, cur as int, k4_end as int, d_end as int);
        if hyp {
            assert(d_end == q7);
        }
    }
    cur = d_end;
    remaining = remaining - 1;
    let ghost p_data = cur;

    let mut timestamp: Option<Timestamp> = None;
    if remaining > 0 {
        let (k, k_end) = cbor::decode_uint(b, cur)?;
        if k == 5 {
            let (t, v_end) = types::decode_timestamp(b, k_end)?;
            proof {
                cbor::lemma_subrange_concat(b@, cur as int, k_end as int, v_end as int);
            }
            timestamp = Some(t);
            cur = v_end;
            remaining = remaining - 1;
        }
    }
    let ghost p_ts = cur;
    proof {
        if hyp {
            if m0.timestamp is Some {
                assert(timestamp == m0.timestamp && cur == q8);
            } else {
                assert(timestamp is None && cur == q8);
            }
        }
    }

    let mut id: Option<u64> = None;
    if remaining > 0 {
        let (k, k_end) = cbor::decode_uint(b, cur)?;
        if k == 6 {
            let (v, v_end) = cbor::decode_uint(b, k_end)?;
            proof {
                cbor::lemma_subrange_concat(b@, cur as int, k_end as int, v_end as int);
            }
            id = Some(v);
            cur = v_end;
            remaining = remaining - 1;
        }
    }
    let ghost p_id = cur;
    proof {
        if hyp {
            if m0.id is Some {
                assert(id == m0.id && cur == q9);
            } else {
                assert(id is None && cur == q9);
            }
            assert(remaining == 0);
        }
    }

    if remaining != 0 {
        return Err(CborError::Invalid);
    }
    let m = ResponseMessage { version, from, to, data, timestamp, id };
    assert(n == spec_response_map_len(m));
    proof {
        if m.version is None {
            assert(b@.subrange(hdr_end, p_version) =~= Seq::<u8>::empty());
        }
        if m.to is None {
            assert(b@.subrange(p_from, start as int) =~= Seq::<u8>::empty());
        }
        if m.timestamp is None {
            assert(b@.subrange(p_data as int, p_ts as int) =~= Seq::<u8>::empty());
        }
        if m.id is None {
            assert(b@.subrange(p_ts as int, p_id as int) =~= Seq::<u8>::empty());
        }
        if hyp {
            lemma_response_enc_parts(m0);
            assert(cur == pos + spec_enc_response(m0).len());
            assert(spec_response_fields_eq(m, m0));
        }
        lemma_response_tail_close(
            b@,
            pos,
            tag_end,
            hdr_end,
            p_version,
            p_from,
            start as int,
            p_data as int,
            p_ts as int,
            p_id as int,
            m,
            n,
            hyp,
            m0,
        );
    }
    Ok((m, cur))
}

/// The length of a response encoding is the sum of its field segments.
#[verifier::spinoff_prover]
proof fn lemma_response_enc_parts(m0: ResponseMessage)
    ensures
        spec_enc_response(m0).len() == cbor::spec_enc_tag(TAG_RESPONSE).len() + cbor::spec_hdr(
            cbor::MAJOR_MAP,
            spec_response_map_len(m0),
        ).len() + (match m0.version {
            Some(v) => cbor::spec_enc_uint(0) + cbor::spec_enc_uint(v),
            None => Seq::<u8>::empty(),
        }).len() + cbor::spec_enc_uint(1).len() + types::spec_enc_address(m0.from@).len() + (
        match m0.to {
            Some(a) => cbor::spec_enc_uint(2) + types::spec_enc_address(a@),
            None => Seq::<u8>::empty(),
        }).len() + cbor::spec_enc_uint(4).len() + spec_enc_response_data(m0.data).len() + (
        match m0.timestamp {
            Some(t) => cbor::spec_enc_uint(5) + types::spec_enc_timestamp(t),
            None => Seq::<u8>::empty(),
        }).len() + (match m0.id {
            Some(v) => cbor::spec_enc_uint(6) + cbor::spec_enc_uint(v),
            None => Seq::<u8>::empty(),
        }).len(),
{
}

/// Closes a decoded response: composes the canonical bytes and carries the
/// fields over to every encoding prefixed at the start position.
#[verifier::spinoff_prover]
#[verifier::rlimit(100)]
proof fn lemma_response_tail_close(
    bv: Seq<u8>,
    pos: int,
    tag_end: int,
    hdr_end: int,
    p_version: int,
    p_from: int,
    p_to: int,
    p_data: int,
    p_ts: int,
    p_id: int,
    m: ResponseMessage,
    n: u64,
    hyp: bool,
    m0: ResponseMessage,
)
    requires
        0 <= pos <= tag_end <= hdr_end <= p_version <= p_from <= p_to <= p_data <= p_ts <= p_id
            <= bv.len(),
        n == spec_response_map_len(m),
        bv.subrange(pos, tag_end) == cbor::spec_enc_tag(TAG_RESPONSE),
        bv.subrange(tag_end, hdr_end) == cbor::spec_hdr(cbor::MAJOR_MAP, n),
        bv.subrange(hdr_end, p_version) == (match m.version {
            Some(v) => cbor::spec_enc_uint(0) + cbor::spec_enc_uint(v),
            None => Seq::<u8>::empty(),
        }),
        bv.subrange(p_version, p_from) == cbor::spec_enc_uint(1) + types::spec_enc_address(m.from@),
        bv.subrange(p_from, p_to) == (if m.to is Some {
            cbor::spec_enc_uint(2) + types::spec_enc_address(m.to->Some_0@)
        } else {
            Seq::<u8>::empty()
        }),
        bv.subrange(p_to, p_data) == cbor::spec_enc_uint(4) + spec_enc_response_data(m.data),
        bv.subrange(p_data, p_ts) == (if m.timestamp is Some {
            cbor::spec_enc_uint(5) + types::spec_enc_timestamp(m.timestamp->Some_0)
        } else {
            Seq::<u8>::empty()
        }),
        bv.subrange(p_ts, p_id) == (if m.id is Some {
            cbor::spec_enc_uint(6) + cbor::spec_enc_uint(m.id->Some_0)
        } else {
            Seq::<u8>::empty()
        }),
        hyp == (exists|m2: ResponseMessage|
            spec_response_wf(m2) && cbor::spec_prefix_at(bv, pos, #[trigger] spec_enc_response(
                m2,
            ))),
        hyp ==> (spec_response_wf(m0) && cbor::spec_prefix_at(bv, pos, spec_enc_response(m0))
            && spec_response_fields_eq(m, m0) && p_id == pos + spec_enc_response(m0).len()),
    ensures
        bv.subrange(pos, p_id) == spec_enc_response(m),
        forall|m2: ResponseMessage|
            (spec_response_wf(m2) && cbor::spec_prefix_at(bv, pos, #[trigger] spec_enc_response(
                m2,
            ))) ==> (spec_response_fields_eq(m, m2) && p_id == pos + spec_enc_response(m2).len()),
{
    lemma_compose_response(
        bv,
        pos,
        tag_end,
        hdr_end,
        p_version,
        p_from,
        p_to,
        p_data,
        p_ts,
        p_id,
        m,
        n,
    );
    if hyp {
        lemma_response_complete_end(bv, pos, m, m0, p_id);
    }
}

/// Carries the fields of a decoded response, pinned against one witness
/// encoding, over to every encoding prefixed at the same position.
#[verifier::spinoff_prover]
#[verifier::rlimit(100)]
proof fn lemma_response_complete_end(
    b: Seq<u8>,
    pos: int,
    m: ResponseMessage,
    m0: ResponseMessage,
    end: int,
)
    requires
        spec_response_wf(m0),
        cbor::spec_prefix_at(b, pos, spec_enc_response(m0)),
        spec_response_fields_eq(m, m0),
        end == pos + spec_enc_response(m0).len(),
    ensures
        forall|m2: ResponseMessage|
            (spec_response_wf(m2) && cbor::spec_prefix_at(b, pos, #[trigger] spec_enc_response(
                m2,
            ))) ==> (spec_response_fields_eq(m, m2) && end == pos + spec_enc_response(m2).len()),
{
    assert forall|m2: ResponseMessage|
        (spec_response_wf(m2) && cbor::spec_prefix_at(b, pos, #[trigger] spec_enc_response(
            m2,
        ))) implies (spec_response_fields_eq(m, m2) && end == pos + spec_enc_response(
        m2,
    ).len()) by {
        lemma_response_prefix_unique(b, pos, m2, m0);
    }
}

/// Two responses agree on all field views.
pub open spec fn spec_response_fields_eq(m: ResponseMessage, m2: ResponseMessage) -> bool {
    &&& m.version == m2.version
    &&& m.from@ == m2.from@
    &&& spec_opt_addr_view(m.to) == spec_opt_addr_view(m2.to)
    &&& ((m.data matches Ok(b1) && m2.data matches Ok(b2) && b1@ == b2@) || (m.data matches Err(e1)
        && m2.data matches Err(e2) && e1.code == e2.code && error::spec_msg_view(e1.message)
        == error::spec_msg_view(e2.message) && error::spec_args_views(e1.arguments@)
        == error::spec_args_views(e2.arguments@)))
    &&& m.timestamp == m2.timestamp
    &&& m.id == m2.id
}

/// Two response encodings starting at the same position describe the same
/// response: every field view coincides, so the encodings do.
#[verifier::spinoff_prover]
#[verifier::rlimit(100)]
pub proof fn lemma_response_prefix_unique(
    b: Seq<u8>,
    pos: int,
    m1: ResponseMessage,
    m2: ResponseMessage,
)
    requires
        spec_response_wf(m1),
        spec_response_wf(m2),
        cbor::spec_prefix_at(b, pos, spec_enc_response(m1)),
        cbor::spec_prefix_at(b, pos, spec_enc_response(m2)),
    ensures
        spec_response_fields_eq(m1, m2),
        spec_enc_response(m1) == spec_enc_response(m2),
{
    lemma_response_prefix_decomposition(b, pos, m1);
    lemma_response_prefix_decomposition(b, pos, m2);
    let tg = cbor::spec_enc_tag(TAG_RESPONSE);
    let p1 = pos + tg.len();
    cbor::lemma_hdr_prefix_unique(
        b,
        p1,
        cbor::MAJOR_MAP,
        spec_response_map_len(m1),
        cbor::MAJOR_MAP,
        spec_response_map_len(m2),
    );
    let p2 = p1 + cbor::spec_hdr(cbor::MAJOR_MAP, spec_response_map_len(m1)).len();
    match (m1.version, m2.version) {
        (Some(v1), Some(v2)) => {
            cbor::lemma_uint_prefix_unique(b, p2 + cbor::spec_enc_uint(0).len(), v1, v2);
        },
        (Some(v1), None) => {
            cbor::lemma_uint_prefix_unique(b, p2, 0, 1);
            assert(false);
        },
        (None, Some(v2)) => {
            cbor::lemma_uint_prefix_unique(b, p2, 1, 0);
            assert(false);
        },
        (None, None) => {},
    }
    let vseg = (match m1.version {
        Some(v) => cbor::spec_enc_uint(0) + cbor::spec_enc_uint(v),
        None => Seq::<u8>::empty(),
    });
    let p3 = p2 + vseg.len();
    types::lemma_address_prefix_unique(
        b,
        p3 + cbor::spec_enc_uint(1).len(),
        m1.from@,
        m2.from@,
    );
    let p4 = p3 + cbor::spec_enc_uint(1).len() + types::spec_enc_address(m1.from@).len();
    match (m1.to, m2.to) {
        (Some(a1), Some(a2)) => {
            types::lemma_address_prefix_unique(b, p4 + cbor::spec_enc_uint(2).len(), a1@, a2@);
        },
        (Some(a1), None) => {
            cbor::lemma_uint_prefix_unique(b, p4, 2, 4);
            assert(false);
        },
        (None, Some(a2)) => {
            cbor::lemma_uint_prefix_unique(b, p4, 4, 2);
            assert(false);
        },
        (None, None) => {},
    }
    let tseg = (match m1.to {
        Some(a) => cbor::spec_enc_uint(2) + types::spec_enc_address(a@),
        None => Seq::<u8>::empty(),
    });
    let p6 = p4 + tseg.len() + cbor::spec_enc_uint(4).len();
    match (m1.data, m2.data) {
        (Ok(b1), Ok(b2)) => {
            cbor::lemma_bytes_prefix_unique(b, p6, b1@, b2@);
        },
        (Err(e1), Err(e2)) => {
            error::lemma_error_prefix_unique(b, p6, e1, e2);
        },
        (Ok(b1), Err(e2)) => {
            cbor::lemma_prefix_split(
                b,
                p6,
                cbor::spec_hdr(cbor::MAJOR_BYTES, b1@.len() as u64),
                b1@,
            );
            error::lemma_error_prefix_decomposition(b, p6, e2);
            cbor::lemma_hdr_prefix_unique(
                b,
                p6,
                cbor::MAJOR_BYTES,
                b1@.len() as u64,
                cbor::MAJOR_MAP,
                error::spec_error_map_len(e2),
            );
            assert(false);
        },
        (Err(e1), Ok(b2)) => {
            cbor::lemma_prefix_split(
                b,
                p6,
                cbor::spec_hdr(cbor::MAJOR_BYTES, b2@.len() as u64),
                b2@,
            );
            error::lemma_error_prefix_decomposition(b, p6, e1);
            cbor::lemma_hdr_prefix_unique(
                b,
                p6,
                cbor::MAJOR_BYTES,
                b2@.len() as u64,
                cbor::MAJOR_MAP,
                error::spec_error_map_len(e1),
            );
            assert(false);
        },
    }
    assert(spec_enc_response_data(m1.data) == spec_enc_response_data(m2.data)) by {
        match (m1.data, m2.data) {
            (Err(e1), Err(e2)) => {
                error::lemma_enc_error_congruence(e1, e2);
            },
            _ => {},
        }
    }
    let p7 = p6 + spec_enc_response_data(m1.data).len();
    match (m1.timestamp, m2.timestamp) {
        (Some(t1), Some(t2)) => {
            types::lemma_timestamp_prefix_unique(b, p7 + cbor::spec_enc_uint(5).len(), t1, t2);
        },
        (Some(t1), None) => {
            if m2.id is Some {
                cbor::lemma_uint_prefix_unique(b, p7, 5, 6);
            }
            assert(false);
        },
        (None, Some(t2)) => {
            if m1.id is Some {
                cbor::lemma_uint_prefix_unique(b, p7, 6, 5);
            }
            assert(false);
        },
        (None, None) => {},
    }
    let sseg = (match m1.timestamp {
        Some(t) => cbor::spec_enc_uint(5) + types::spec_enc_timestamp(t),
        None => Seq::<u8>::empty(),
    });
    let p8 = p7 + sseg.len();
    match (m1.id, m2.id) {
        (Some(v1), Some(v2)) => {
            cbor::lemma_uint_prefix_unique(b, p8 + cbor::spec_enc_uint(6).len(), v1, v2);
        },
        (Some(v1), None) => {
            assert(false);
        },
        (None, Some(v2)) => {
            assert(false);
        },
        (None, None) => {},
    }
    lemma_enc_response_congruence(m1, m2);
}

/// Composes the per-field byte ranges of a decoded response into the whole
/// canonical encoding.
#[verifier::spinoff_prover]
#[verifier::rlimit(100)]
proof fn lemma_compose_response(
    bv: Seq<u8>,
    pos: int,
    tag_end: int,
    hdr_end: int,
    p_version: int,
    p_from: int,
    p_to: int,
    p_data: int,
    p_ts: int,
    p_id: int,
    m: ResponseMessage,
    n: u64,
)
    requires
        0 <= pos <= tag_end <= hdr_end <= p_version <= p_from <= p_to <= p_data <= p_ts <= p_id
            <= bv.len(),
        n == spec_response_map_len(m),
        bv.subrange(pos, tag_end) == cbor::spec_enc_tag(TAG_RESPONSE),
        bv.subrange(tag_end, hdr_end) == cbor::spec_hdr(cbor::MAJOR_MAP, n),
        bv.subrange(hdr_end, p_version) == (match m.version {
            Some(v) => cbor::spec_enc_uint(0) + cbor::spec_enc_uint(v),
            None => Seq::<u8>::empty(),
        }),
        bv.subrange(p_version, p_from) == cbor::spec_enc_uint(1) + types::spec_enc_address(m.from@),
        bv.subrange(p_from, p_to) == (if m.to is Some {
            cbor::spec_enc_uint(2) + types::spec_enc_address(m.to->Some_0@)
        } else {
            Seq::<u8>::empty()
        }),
        bv.subrange(p_to, p_data) == cbor::spec_enc_uint(4) + spec_enc_response_data(m.data),
        bv.subrange(p_data, p_ts) == (if m.timestamp is Some {
            cbor::spec_enc_uint(5) + types::spec_enc_timestamp(m.timestamp->Some_0)
        } else {
            Seq::<u8>::empty()
        }),
        bv.subrange(p_ts, p_id) == (if m.id is Some {
            cbor::spec_enc_uint(6) + cbor::spec_enc_uint(m.id->Some_0)
        } else {
            Seq::<u8>::empty()
        }),
    ensures
        bv.subrange(pos, p_id) == spec_enc_response(m),
{
    broadcast use crate::cbor::lemma_concat_assoc_bytes;

    cbor::lemma_subrange_concat(bv, pos, tag_end, hdr_end);
    cbor::lemma_subrange_concat(bv, pos, hdr_end, p_version);
    cbor::lemma_subrange_concat(bv, pos, p_version, p_from);
    cbor::lemma_subrange_concat(bv, pos, p_from, p_to);
    cbor::lemma_subrange_concat(bv, pos, p_to, p_data);
    cbor::lemma_subrange_concat(bv, pos, p_data, p_ts);
    cbor::lemma_subrange_concat(bv, pos, p_ts, p_id);
    assert(bv.subrange(pos, p_id) =~= spec_enc_response(m));
}


/// The name of the timestamp field, for the missing-field error.
fn alloc_str_timestamp() -> (r: String)
    ensures
        r@ == "timestamp"@,
{
    let s = "timestamp";
    s.to_owned()
}

/// Whether a message timestamp `ts` lies within `timeout_in_secs` of `now`,
/// in either direction. A zero timeout accepts nothing.
pub open spec fn spec_time_in_range(ts: u64, now: u64, timeout_in_secs: u64) -> bool {
    &&& timeout_in_secs > 0
    &&& (if ts < now {
        now - ts
    } else {
        ts - now
    }) < timeout_in_secs
}

/// Validates that the timestamp of a message is within a timeout, either in
/// the future or the past. A message without a timestamp is rejected with
/// the missing-field error; one outside the window with the out-of-range
/// error.
pub fn validate_time(message: &RequestMessage, now: u64, timeout_in_secs: u64) -> (r: Result<
    (),
    ManyError,
>)
    ensures
        r is Ok <==> (message.timestamp matches Some(t) && spec_time_in_range(
            t.secs,
            now,
            timeout_in_secs,
        )),
        r matches Err(e) ==> {
            &&& timeout_in_secs == 0 ==> e.code == error::CODE_TIMESTAMP_OUT_OF_RANGE
            &&& (timeout_in_secs > 0 && message.timestamp is None) ==> (e.code
                == error::CODE_REQUIRED_FIELD_MISSING && (e.message matches Some(m) && m@
                == "timestamp"@))
            &&& (timeout_in_secs > 0 && message.timestamp is Some) ==> e.code
                == error::CODE_TIMESTAMP_OUT_OF_RANGE
        },
{
    if timeout_in_secs == 0 {
        return Err(ManyError::timestamp_out_of_range());
    }
    let ts = match &message.timestamp {
        Some(t) => t.secs,
        None => {
            return Err(ManyError::required_field_missing(alloc_str_timestamp()));
        },
    };
    let diff = if ts < now {
        now - ts
    } else {
        ts - now
    };
    if diff >= timeout_in_secs {
        return Err(ManyError::timestamp_out_of_range());
    }
    Ok(())
}

} // verus!
