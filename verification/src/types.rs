//! Plain protocol types: addresses (opaque identifiers with an optional
//! subresource suffix), timestamps, and the small helper types that ride in
//! requests and filters.

use crate::cbor;
use crate::cbor::CborError;
use crate::error::ManyError;
use vstd::prelude::*;
use vstd::std_specs::cmp::PartialEqSpec;

verus! {

/// The CBOR tag that wraps an address.
pub const TAG_ADDRESS: u64 = 10000;

/// The CBOR tag that wraps an epoch timestamp.
pub const TAG_EPOCH: u64 = 1;

/// Largest subresource identifier: subresource ids are 31-bit values.
pub const MAX_SUBRESOURCE_ID: u32 = 0x7fff_ffff;

/// An opaque identifier. The anonymous identity is the single byte 0; an
/// identity derived from a public key is a tag byte followed by a 28-byte
/// digest; an identity with a subresource carries the subresource id in the
/// high bits of its first byte and in its last three bytes.
#[derive(Debug, Eq)]
pub struct Address {
    bytes: Vec<u8>,
}

/// A symbol names a token; it is an address.
pub type Symbol = Address;

impl View for Address {
    type V = Seq<u8>;

    closed spec fn view(&self) -> Seq<u8> {
        self.bytes@
    }
}

impl Clone for Address {
    fn clone(&self) -> (r: Address)
        ensures
            r@ == self@,
    {
        Address { bytes: self.bytes.clone() }
    }
}

/// The bytes of the anonymous address.
pub open spec fn spec_anonymous() -> Seq<u8> {
    seq![0u8]
}

/// A well-formed address holds between 1 and 32 bytes.
pub open spec fn spec_address_wf(a: Seq<u8>) -> bool {
    1 <= a.len() <= 32
}

/// The address obtained by attaching subresource `id` to `a`: the first
/// byte keeps the high bits of `id` under a set top bit, the 28-byte digest
/// follows, and the low three bytes of `id` close the value.
pub open spec fn spec_with_subresource(a: Seq<u8>, id: u32) -> Seq<u8> {
    seq![(0x80 | ((id >> 24) as u8)) as u8] + a.subrange(1, 29) + seq![
        (id >> 16) as u8,
        (id >> 8) as u8,
        id as u8,
    ]
}

impl Address {
    /// The anonymous address.
    pub fn anonymous() -> (r: Address)
        ensures
            r@ == spec_anonymous(),
            spec_address_wf(r@),
    {
        let mut bytes: Vec<u8> = Vec::new();
        bytes.push(0);
        let r = Address { bytes };
        assert(r@ =~= spec_anonymous());
        r
    }

    /// An address from raw bytes; fails on a length no address can have.
    pub fn from_bytes(bytes: Vec<u8>) -> (r: Result<Address, ManyError>)
        ensures
            r matches Ok(a) ==> a@ == bytes@ && spec_address_wf(a@),
            r is Ok <==> spec_address_wf(bytes@),
    {
        if bytes.len() >= 1 && bytes.len() <= 32 {
            Ok(Address { bytes })
        } else {
            Err(ManyError::deserialization_error(String::new()))
        }
    }

    /// The raw bytes of the address.
    pub fn to_vec(&self) -> (r: Vec<u8>)
        ensures
            r@ == self@,
    {
        self.bytes.clone()
    }

    /// True of the anonymous address alone.
    pub fn is_anonymous(&self) -> (r: bool)
        ensures
            r <==> self@ == spec_anonymous(),
    {
        let r = self.bytes.len() == 1 && self.bytes[0] == 0;
        proof {
            if r {
                assert(self@ =~= spec_anonymous());
            }
        }
        r
    }

    /// The same identity under subresource `id`. Fails on the anonymous
    /// address, on an address too short to carry a digest, and on an id
    /// over [`MAX_SUBRESOURCE_ID`].
    pub fn with_subresource_id(&self, id: u32) -> (r: Result<Address, ManyError>)
        ensures
            r is Ok <==> (self@.len() >= 29 && id <= MAX_SUBRESOURCE_ID),
            r matches Ok(a) ==> a@ == spec_with_subresource(self@, id) && spec_address_wf(a@),
    {
        if self.bytes.len() < 29 || id > MAX_SUBRESOURCE_ID {
            return Err(ManyError::unknown(String::new()));
        }
        let mut bytes: Vec<u8> = Vec::new();
        bytes.push(0x80 | ((id >> 24) as u8));
        let mut i: usize = 1;
        while i < 29
            invariant
                1 <= i <= 29,
            self@.len() >= 29,
                bytes@ == seq![(0x80 | ((id >> 24) as u8)) as u8] + self@.subrange(1, i as int),
            decreases 29 - i,
        {
            bytes.push(self.bytes[i]);
            assert(bytes@ =~= seq![(0x80 | ((id >> 24) as u8)) as u8] + self@.subrange(
                1,
                i as int + 1,
            ));
            i = i + 1;
        }
        bytes.push((id >> 16) as u8);
        bytes.push((id >> 8) as u8);
        bytes.push(id as u8);
        let r = Address { bytes };
        assert(r@ =~= spec_with_subresource(self@, id));
        Ok(r)
    }
}

impl PartialEq for Address {
    fn eq(&self, other: &Address) -> (r: bool) {
        let r = self.bytes == other.bytes;
        proof {
            if self.bytes.eq_spec(&other.bytes) {
                assert(self@ =~= other@);
            }
            if self@ == other@ {
                assert(self.bytes.eq_spec(&other.bytes));
            }
        }
        r
    }
}

impl vstd::std_specs::cmp::PartialEqSpecImpl for Address {
    open spec fn obeys_eq_spec() -> bool {
        true
    }

    open spec fn eq_spec(&self, other: &Address) -> bool {
        self@ == other@
    }
}

/// The canonical encoding of an address: the address tag around its bytes.
pub open spec fn spec_enc_address(a: Seq<u8>) -> Seq<u8> {
    cbor::spec_enc_tag(TAG_ADDRESS) + cbor::spec_enc_bytes(a)
}

/// Appends the canonical encoding of the address `a`.
pub fn encode_address(a: &Address, out: &mut Vec<u8>)
    ensures
        final(out)@ == old(out)@ + spec_enc_address(a@),
{
    cbor::encode_tag(TAG_ADDRESS, out);
    cbor::encode_bytes(&a.bytes, out);
    assert(out@ =~= old(out)@ + spec_enc_address(a@));
}

/// Reads an address at `pos`. Rejects byte strings no address can have.
pub fn decode_address(b: &Vec<u8>, pos: usize) -> (r: Result<(Address, usize), CborError>)
    ensures
        r matches Ok((a, end)) ==> {
            &&& pos < end <= b@.len()
            &&& b@.subrange(pos as int, end as int) == spec_enc_address(a@)
            &&& spec_address_wf(a@)
        },
        forall|av: Seq<u8>|
            (spec_address_wf(av) && cbor::spec_prefix_at(
                b@,
                pos as int,
                #[trigger] spec_enc_address(av),
            )) ==> (r matches Ok(x) && x.0@ == av && x.1 == pos + spec_enc_address(av).len()),
{
    proof {
        assert forall|av: Seq<u8>|
            (spec_address_wf(av) && cbor::spec_prefix_at(
                b@,
                pos as int,
                #[trigger] spec_enc_address(av),
            )) implies cbor::spec_prefix_at(b@, pos as int, cbor::spec_enc_tag(TAG_ADDRESS))
            && cbor::spec_prefix_at(
            b@,
            pos as int + cbor::spec_enc_tag(TAG_ADDRESS).len(),
            cbor::spec_enc_bytes(av),
        ) by {
            cbor::lemma_prefix_split(
                b@,
                pos as int,
                cbor::spec_enc_tag(TAG_ADDRESS),
                cbor::spec_enc_bytes(av),
            );
        }
    }
    let (t, t_end) = cbor::decode_tag(b, pos)?;
    if t != TAG_ADDRESS {
        return Err(CborError::Invalid);
    }
    let (bytes, end) = cbor::decode_bytes(b, t_end)?;
    if bytes.len() < 1 || bytes.len() > 32 {
        return Err(CborError::Invalid);
    }
    proof {
        cbor::lemma_subrange_concat(b@, pos as int, t_end as int, end as int);
    }
    Ok((Address { bytes }, end))
}

/// A point in time, in whole seconds since the epoch.
#[derive(Clone, Copy, Debug, PartialEq, Eq, Structural)]
pub struct Timestamp {
    pub secs: u64,
}

impl Timestamp {
    /// The timestamp `secs` seconds after the epoch.
    pub fn new(secs: u64) -> (r: Timestamp)
        ensures
            r.secs == secs,
    {
        Timestamp { secs }
    }

    /// The epoch itself: the normalization sentinel for response times.
    pub fn epoch() -> (r: Timestamp)
        ensures
            r.secs == 0,
    {
        Timestamp { secs: 0 }
    }

    /// The seconds since the epoch.
    pub fn as_secs(&self) -> (r: u64)
        ensures
            r == self.secs,
    {
        self.secs
    }
}

/// The canonical encoding of a timestamp: the epoch tag around the seconds.
pub open spec fn spec_enc_timestamp(t: Timestamp) -> Seq<u8> {
    cbor::spec_enc_tag(TAG_EPOCH) + cbor::spec_enc_uint(t.secs)
}

/// Appends the canonical encoding of the timestamp `t`.
pub fn encode_timestamp(t: &Timestamp, out: &mut Vec<u8>)
    ensures
        final(out)@ == old(out)@ + spec_enc_timestamp(*t),
{
    cbor::encode_tag(TAG_EPOCH, out);
    cbor::encode_uint(t.secs, out);
    assert(out@ =~= old(out)@ + spec_enc_timestamp(*t));
}

/// Reads a timestamp at `pos`.
pub fn decode_timestamp(b: &Vec<u8>, pos: usize) -> (r: Result<(Timestamp, usize), CborError>)
    ensures
        r matches Ok((t, end)) ==> {
            &&& pos < end <= b@.len()
            &&& b@.subrange(pos as int, end as int) == spec_enc_timestamp(t)
        },
        forall|t2: Timestamp|
            cbor::spec_prefix_at(b@, pos as int, #[trigger] spec_enc_timestamp(t2)) ==> (
            r matches Ok(x) && x.0 == t2 && x.1 == pos + spec_enc_timestamp(t2).len()),
{
    proof {
        assert forall|t2: Timestamp|
            cbor::spec_prefix_at(b@, pos as int, #[trigger] spec_enc_timestamp(t2)) implies
            cbor::spec_prefix_at(b@, pos as int, cbor::spec_enc_tag(TAG_EPOCH))
            && cbor::spec_prefix_at(
            b@,
            pos as int + cbor::spec_enc_tag(TAG_EPOCH).len(),
            cbor::spec_enc_uint(t2.secs),
        ) by {
            cbor::lemma_prefix_split(
                b@,
                pos as int,
                cbor::spec_enc_tag(TAG_EPOCH),
                cbor::spec_enc_uint(t2.secs),
            );
        }
    }
    let (t, t_end) = cbor::decode_tag(b, pos)?;
    if t != TAG_EPOCH {
        return Err(CborError::Invalid);
    }
    let (secs, end) = cbor::decode_uint(b, t_end)?;
    proof {
        cbor::lemma_subrange_concat(b@, pos as int, t_end as int, end as int);
    }
    Ok((Timestamp { secs }, end))
}

/// One of two alternatives; carried by key metadata to mark a key disabled
/// either by a plain flag or with a textual reason.
#[derive(Clone, Debug)]
pub enum Either<L, R> {
    Left(L),
    Right(R),
}

/// The order in which a listing returns its items.
#[derive(Clone, Copy, Debug, PartialEq, Eq, Structural)]
pub enum SortOrder {
    Indeterminate,
    Ascending,
    Descending,
}

/// The wire value of a sort order.
pub open spec fn spec_sort_order_value(o: SortOrder) -> u64 {
    match o {
        SortOrder::Indeterminate => 0,
        SortOrder::Ascending => 1,
        SortOrder::Descending => 2,
    }
}

/// The canonical encoding of a sort order: its wire value.
pub open spec fn spec_enc_sort_order(o: SortOrder) -> Seq<u8> {
    cbor::spec_enc_uint(spec_sort_order_value(o))
}

/// Appends the canonical encoding of the sort order `o`.
pub fn encode_sort_order(o: SortOrder, out: &mut Vec<u8>)
    ensures
        final(out)@ == old(out)@ + spec_enc_sort_order(o),
{
    match o {
        SortOrder::Indeterminate => cbor::encode_uint(0, out),
        SortOrder::Ascending => cbor::encode_uint(1, out),
        SortOrder::Descending => cbor::encode_uint(2, out),
    }
}

/// Reads a sort order at `pos`.
pub fn decode_sort_order(b: &Vec<u8>, pos: usize) -> (r: Result<(SortOrder, usize), CborError>)
    ensures
        r matches Ok((o, end)) ==> {
            &&& pos < end <= b@.len()
            &&& b@.subrange(pos as int, end as int) == spec_enc_sort_order(o)
        },
        forall|o2: SortOrder|
            cbor::spec_prefix_at(b@, pos as int, #[trigger] spec_enc_sort_order(o2)) ==> (
            r matches Ok(x) && x.0 == o2 && x.1 == pos + spec_enc_sort_order(o2).len()),
{
    let (v, end) = cbor::decode_uint(b, pos)?;
    if v == 0 {
        Ok((SortOrder::Indeterminate, end))
    } else if v == 1 {
        Ok((SortOrder::Ascending, end))
    } else if v == 2 {
        Ok((SortOrder::Descending, end))
    } else {
        Err(CborError::Invalid)
    }
}

/// Two addresses canonically encoded at the same position coincide.
pub proof fn lemma_address_prefix_unique(b: Seq<u8>, pos: int, a1: Seq<u8>, a2: Seq<u8>)
    requires
        a1.len() <= u64::MAX,
        a2.len() <= u64::MAX,
        cbor::spec_prefix_at(b, pos, spec_enc_address(a1)),
        cbor::spec_prefix_at(b, pos, spec_enc_address(a2)),
    ensures
        a1 == a2,
{
    let tg = cbor::spec_enc_tag(TAG_ADDRESS);
    cbor::lemma_prefix_split(b, pos, tg, cbor::spec_enc_bytes(a1));
    cbor::lemma_prefix_split(b, pos, tg, cbor::spec_enc_bytes(a2));
    cbor::lemma_bytes_prefix_unique(b, pos + tg.len(), a1, a2);
}

/// Two timestamps canonically encoded at the same position coincide.
pub proof fn lemma_timestamp_prefix_unique(b: Seq<u8>, pos: int, t1: Timestamp, t2: Timestamp)
    requires
        cbor::spec_prefix_at(b, pos, spec_enc_timestamp(t1)),
        cbor::spec_prefix_at(b, pos, spec_enc_timestamp(t2)),
    ensures
        t1 == t2,
{
    let tg = cbor::spec_enc_tag(TAG_EPOCH);
    cbor::lemma_prefix_split(b, pos, tg, cbor::spec_enc_uint(t1.secs));
    cbor::lemma_prefix_split(b, pos, tg, cbor::spec_enc_uint(t2.secs));
    cbor::lemma_uint_prefix_unique(b, pos + tg.len(), t1.secs, t2.secs);
}

} // verus!
