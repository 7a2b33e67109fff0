//! The key-value store backend state: user data and access metadata over
//! the authenticated storage engine, an event logged for every mutation, a
//! monotone block height, and the split (height, counter) event identifier
//! discipline at commit time.

use crate::abci_types::AbciCommitInfo;
use crate::bytestr;
use crate::cbor;
use crate::cbor::CborError;
use crate::error::ManyError;
use crate::eventid::EventId;
use crate::events;
use crate::events::{EventInfo, EventLog};
use crate::storage::{Op, Storage};
use crate::types::{Address, Either, Timestamp};
use vstd::prelude::*;
use vstd::std_specs::cmp::PartialEqSpec;

verus! {

/// The error code of a read against a disabled key.
pub const KEY_DISABLED_INDEX: u32 = 1;

/// A key under the user-data namespace.
#[derive(Debug, Eq)]
pub struct Key {
    pub key: Vec<u8>,
}

impl PartialEq for Key {
    fn eq(&self, other: &Key) -> (r: bool) {
        let r = self.key == other.key;
        proof {
            if self.key.eq_spec(&other.key) {
                assert(self.key@ =~= other.key@);
            }
            if self.key@ == other.key@ {
                assert(self.key.eq_spec(&other.key));
            }
        }
        r
    }
}

impl vstd::std_specs::cmp::PartialEqSpecImpl for Key {
    open spec fn obeys_eq_spec() -> bool {
        true
    }

    open spec fn eq_spec(&self, other: &Key) -> bool {
        self.key@ == other.key@
    }
}

/// The access metadata of a key: its owner, and whether reads are disabled,
/// either by a plain flag or with a textual reason.
#[derive(Debug)]
pub struct KvStoreMetadata {
    pub owner: Address,
    pub disabled: Option<Either<bool, String>>,
}

/// The access-control list a store is created with.
pub type AclMap = Vec<(Key, KvStoreMetadata)>;

/// The encoding of the disabled marker.
pub open spec fn spec_enc_disabled(d: Either<bool, String>) -> Seq<u8> {
    match d {
        Either::Left(b) => cbor::spec_enc_bool(b),
        Either::Right(s) => cbor::spec_enc_text(s@),
    }
}

/// The number of entries in an encoded metadata map.
pub open spec fn spec_kv_metadata_map_len(m: KvStoreMetadata) -> u64 {
    if m.disabled is Some {
        2
    } else {
        1
    }
}

/// The canonical encoding of key metadata: a map with the owner at key 0
/// and the disabled marker, when present, at key 1.
pub open spec fn spec_enc_kv_metadata(m: KvStoreMetadata) -> Seq<u8> {
    cbor::spec_hdr(cbor::MAJOR_MAP, spec_kv_metadata_map_len(m)) + cbor::spec_enc_uint(0)
        + crate::types::spec_enc_address(m.owner@) + (match m.disabled {
        Some(d) => cbor::spec_enc_uint(1) + spec_enc_disabled(d),
        None => Seq::empty(),
    })
}

impl KvStoreMetadata {
    /// A field-for-field copy.
    pub fn clone_meta(&self) -> (r: KvStoreMetadata)
        ensures
            r.owner@ == self.owner@,
            spec_disabled_view(r.disabled) == spec_disabled_view(self.disabled),
    {
        let disabled = match &self.disabled {
            None => None,
            Some(Either::Left(b)) => Some(Either::Left(*b)),
            Some(Either::Right(s)) => Some(Either::Right(s.clone())),
        };
        KvStoreMetadata { owner: self.owner.clone(), disabled }
    }

    /// Serializes the metadata to its canonical bytes.
    pub fn to_bytes(&self) -> (r: Vec<u8>)
        ensures
            r@ == spec_enc_kv_metadata(*self),
    {
        let mut out: Vec<u8> = Vec::new();
        let n: u64 = if self.disabled.is_some() {
            2
        } else {
            1
        };
        cbor::encode_hdr(cbor::MAJOR_MAP, n, &mut out);
        cbor::encode_uint(0, &mut out);
        crate::types::encode_address(&self.owner, &mut out);
        match &self.disabled {
            Some(Either::Left(b)) => {
                cbor::encode_uint(1, &mut out);
                cbor::encode_bool(*b, &mut out);
            },
            Some(Either::Right(s)) => {
                cbor::encode_uint(1, &mut out);
                cbor::encode_text(s, &mut out);
            },
            None => {},
        }
        assert(out@ =~= spec_enc_kv_metadata(*self));
        out
    }

    /// Parses metadata from its canonical bytes.
    #[verifier::rlimit(100)]
    #[verifier::spinoff_prover]
    pub fn from_bytes(b: &Vec<u8>) -> (r: Result<KvStoreMetadata, CborError>)
        ensures
            r matches Ok(m) ==> b@ == spec_enc_kv_metadata(m),
            forall|m2: KvStoreMetadata|
                (spec_meta_wf(m2) && b@ == #[trigger] spec_enc_kv_metadata(m2)) ==> (
                r matches Ok(m) && m.owner@ == m2.owner@ && spec_disabled_view(m.disabled)
                    == spec_disabled_view(m2.disabled)),
    {
        proof {
            assert forall|m2: KvStoreMetadata|
                (spec_meta_wf(m2) && b@ == #[trigger] spec_enc_kv_metadata(m2)) implies {
                let h = cbor::spec_hdr(cbor::MAJOR_MAP, spec_kv_metadata_map_len(m2));
                let k0 = cbor::spec_enc_uint(0);
                let ow = crate::types::spec_enc_address(m2.owner@);
                &&& cbor::spec_prefix_at(b@, 0, h)
                &&& cbor::spec_prefix_at(b@, h.len() as int, k0)
                &&& cbor::spec_prefix_at(b@, h.len() + k0.len() as int, ow)
                &&& (m2.disabled matches Some(d) ==> cbor::spec_prefix_at(
                    b@,
                    h.len() + k0.len() + ow.len() as int,
                    cbor::spec_enc_uint(1) + spec_enc_disabled(d),
                ) && cbor::spec_prefix_at(
                    b@,
                    h.len() + k0.len() + ow.len() as int,
                    cbor::spec_enc_uint(1),
                ) && cbor::spec_prefix_at(
                    b@,
                    h.len() + k0.len() + ow.len() + cbor::spec_enc_uint(1).len() as int,
                    spec_enc_disabled(d),
                ))
            } by {
                let h = cbor::spec_hdr(cbor::MAJOR_MAP, spec_kv_metadata_map_len(m2));
                let k0 = cbor::spec_enc_uint(0);
                let ow = crate::types::spec_enc_address(m2.owner@);
                let tail = match m2.disabled {
                    Some(d) => cbor::spec_enc_uint(1) + spec_enc_disabled(d),
                    None => Seq::<u8>::empty(),
                };
                assert(spec_enc_kv_metadata(m2) =~= (h + k0 + ow) + tail);
                assert(cbor::spec_prefix_at(b@, 0, (h + k0 + ow) + tail)) by {
                    assert(b@.subrange(0, ((h + k0 + ow) + tail).len() as int) =~= b@);
                }
                cbor::lemma_prefix_split(b@, 0, h + k0 + ow, tail);
                assert((h + k0 + ow) =~= (h + k0) + ow);
                cbor::lemma_prefix_split(b@, 0, h + k0, ow);
                cbor::lemma_prefix_split(b@, 0, h, k0);
                match m2.disabled {
                    Some(d) => {
                        cbor::lemma_prefix_split(
                            b@,
                            (h + k0 + ow).len() as int,
                            cbor::spec_enc_uint(1),
                            spec_enc_disabled(d),
                        );
                    },
                    None => {},
                }
            }
        }
        let (n, hdr_end) = cbor::decode_map_hdr(b, 0)?;
        if n < 1 || n > 2 {
            return Err(CborError::Invalid);
        }
        let (k0, k0_end) = cbor::decode_uint(b, hdr_end)?;
        if k0 != 0 {
            return Err(CborError::Invalid);
        }
        let (owner, o_end) = crate::types::decode_address(b, k0_end)?;
        let mut disabled: Option<Either<bool, String>> = None;
        let mut cur = o_end;
        if n == 2 {
            proof {
                assert forall|m2: KvStoreMetadata|
                    (spec_meta_wf(m2) && b@ == #[trigger] spec_enc_kv_metadata(m2)) implies (
                m2.disabled is Some && cbor::spec_prefix_at(
                    b@,
                    cur as int,
                    cbor::spec_enc_uint(1),
                )) by {
                    let h = cbor::spec_hdr(cbor::MAJOR_MAP, spec_kv_metadata_map_len(m2));
                    let k0 = cbor::spec_enc_uint(0);
                    let ow = crate::types::spec_enc_address(m2.owner@);
                    assert(cbor::spec_prefix_at(b@, 0, h));
                    assert(n == spec_kv_metadata_map_len(m2) && hdr_end == h.len());
                    assert(m2.disabled is Some);
                    assert(cbor::spec_prefix_at(b@, h.len() as int, k0));
                    assert(k0_end == h.len() + k0.len());
                    assert(cbor::spec_prefix_at(b@, k0_end as int, ow));
                    assert(o_end == h.len() + k0.len() + ow.len());
                    assert(cbor::spec_prefix_at(b@, o_end as int, cbor::spec_enc_uint(1)));
                }
            }
            let (k1, k1_end) = cbor::decode_uint(b, cur)?;
            if k1 != 1 {
                return Err(CborError::Invalid);
            }
            proof {
                assert forall|sv: Seq<char>|
                    cbor::spec_prefix_at(
                        b@,
                        k1_end as int,
                        #[trigger] cbor::spec_enc_text(sv),
                    ) implies (b@[k1_end as int] != cbor::BYTE_TRUE && b@[k1_end as int]
                    != cbor::BYTE_FALSE) by {
                    cbor::lemma_hdr_shape(
                        cbor::MAJOR_TEXT,
                        vstd::utf8::encode_utf8(sv).len() as u64,
                    );
                    assert(b@.subrange(
                        k1_end as int,
                        k1_end + cbor::spec_enc_text(sv).len() as int,
                    )[0] == b@[k1_end as int]);
                    assert(b@[k1_end as int] >> 5 == cbor::MAJOR_TEXT);
                    assert(!(cbor::BYTE_TRUE >> 5 == 3) && !(cbor::BYTE_FALSE >> 5 == 3))
                        by (bit_vector);
                }
            }
            if k1_end < b.len() && (b[k1_end] == cbor::BYTE_TRUE || b[k1_end] == cbor::BYTE_FALSE) {
                let (x, x_end) = cbor::decode_bool(b, k1_end)?;
                disabled = Some(Either::Left(x));
                cur = x_end;
            } else {
                let (s, s_end) = cbor::decode_text(b, k1_end)?;
                disabled = Some(Either::Right(s));
                cur = s_end;
            }
            proof {
                cbor::lemma_subrange_concat(b@, o_end as int, k1_end as int, cur as int);
            }
        }
        if cur != b.len() {
            return Err(CborError::Invalid);
        }
        let m = KvStoreMetadata { owner, disabled };
        proof {
            cbor::lemma_subrange_concat(b@, 0, hdr_end as int, k0_end as int);
            cbor::lemma_subrange_concat(b@, 0, k0_end as int, o_end as int);
            cbor::lemma_subrange_concat(b@, 0, o_end as int, cur as int);
            assert(b@.subrange(0, b@.len() as int) =~= b@);
            assert(b@ == spec_enc_kv_metadata(m));
            assert forall|m2: KvStoreMetadata|
                (spec_meta_wf(m2) && b@ == #[trigger] spec_enc_kv_metadata(m2)) implies (m.owner@
                == m2.owner@ && spec_disabled_view(m.disabled) == spec_disabled_view(
                m2.disabled,
            )) by {
                let h = cbor::spec_hdr(cbor::MAJOR_MAP, spec_kv_metadata_map_len(m2));
                let k0 = cbor::spec_enc_uint(0);
                let ow = crate::types::spec_enc_address(m2.owner@);
                match m2.disabled {
                    Some(d) => {
                        match d {
                            Either::Left(x2) => {
                                assert(spec_enc_disabled(d) == cbor::spec_enc_bool(x2));
                            },
                            Either::Right(s2) => {
                                assert(spec_enc_disabled(d) == cbor::spec_enc_text(s2@));
                            },
                        }
                    },
                    None => {},
                }
            }
        }
        Ok(m)
    }
}

/// Metadata whose encoding round-trips: the owner is a well-formed address
/// and a textual reason is not astronomically long.
pub open spec fn spec_meta_wf(m: KvStoreMetadata) -> bool {
    &&& crate::types::spec_address_wf(m.owner@)
    &&& (m.disabled matches Some(Either::Right(s)) ==> vstd::utf8::encode_utf8(s@).len()
        <= u64::MAX)
}

/// A disabled marker that blocks reads: a bare `true` or any textual
/// reason.
pub open spec fn spec_meta_blocked(m: KvStoreMetadata) -> bool {
    match m.disabled {
        None => false,
        Some(Either::Left(x)) => x,
        Some(Either::Right(_)) => true,
    }
}

/// The view of a disabled marker.
pub open spec fn spec_disabled_view(d: Option<Either<bool, String>>) -> Option<Result<
    bool,
    Seq<char>,
>> {
    match d {
        None => None,
        Some(Either::Left(b)) => Some(Ok(b)),
        Some(Either::Right(s)) => Some(Err(s@)),
    }
}

/// The user-data key of `k`.
pub open spec fn spec_data_key(k: Seq<u8>) -> Seq<u8> {
    seq![115u8] + k
}

/// The access-metadata key of `k`.
pub open spec fn spec_acl_key(k: Seq<u8>) -> Seq<u8> {
    seq![97u8] + k
}

/// The reserved key the block height lives under.
pub open spec fn spec_height_key() -> Seq<u8> {
    seq![47u8, 104u8, 101u8, 105u8, 103u8, 104u8, 116u8]
}

/// The reserved key the latest event identifier lives under.
pub open spec fn spec_latest_event_key() -> Seq<u8> {
    seq![
        47u8,
        108u8,
        97u8,
        116u8,
        101u8,
        115u8,
        116u8,
        95u8,
        101u8,
        118u8,
        101u8,
        110u8,
        116u8,
        95u8,
        105u8,
        100u8,
    ]
}

/// The reserved key the server identity lives under.
pub open spec fn spec_identity_key() -> Seq<u8> {
    seq![
        47u8,
        99u8,
        111u8,
        110u8,
        102u8,
        105u8,
        103u8,
        47u8,
        105u8,
        100u8,
        101u8,
        110u8,
        116u8,
        105u8,
        116u8,
        121u8,
    ]
}

/// The reserved key the next subresource id lives under.
pub open spec fn spec_subresource_key() -> Seq<u8> {
    seq![
        47u8,
        99u8,
        111u8,
        110u8,
        102u8,
        105u8,
        103u8,
        47u8,
        115u8,
        117u8,
        98u8,
        114u8,
        101u8,
        115u8,
        111u8,
        117u8,
        114u8,
        99u8,
        101u8,
        95u8,
        105u8,
        100u8,
    ]
}

/// The key a logged event lives under: the event namespace plus the
/// identifier bytes.
pub open spec fn spec_event_key(id: Seq<u8>) -> Seq<u8> {
    seq![47u8, 101u8, 118u8, 101u8, 110u8, 116u8, 115u8, 47u8] + id
}

/// Builds the user-data key of `k`.
pub fn data_key(k: &Vec<u8>) -> (r: Vec<u8>)
    ensures
        r@ == spec_data_key(k@),
{
    let mut r: Vec<u8> = Vec::new();
    r.push(115);
    r.extend_from_slice(k.as_slice());
    assert(r@ =~= spec_data_key(k@));
    r
}

/// Builds the access-metadata key of `k`.
pub fn acl_key(k: &Vec<u8>) -> (r: Vec<u8>)
    ensures
        r@ == spec_acl_key(k@),
{
    let mut r: Vec<u8> = Vec::new();
    r.push(97);
    r.extend_from_slice(k.as_slice());
    assert(r@ =~= spec_acl_key(k@));
    r
}

/// Builds the height key.
pub fn height_key() -> (r: Vec<u8>)
    ensures
        r@ == spec_height_key(),
{
    let mut r: Vec<u8> = Vec::new();
    r.push(47);
    r.push(104);
    r.push(101);
    r.push(105);
    r.push(103);
    r.push(104);
    r.push(116);
    assert(r@ =~= spec_height_key());
    r
}

/// Builds the latest-event-identifier key.
pub fn latest_event_key() -> (r: Vec<u8>)
    ensures
        r@ == spec_latest_event_key(),
{
    let mut r: Vec<u8> = Vec::new();
    r.push(47);
    r.push(108);
    r.push(97);
    r.push(116);
    r.push(101);
    r.push(115);
    r.push(116);
    r.push(95);
    r.push(101);
    r.push(118);
    r.push(101);
    r.push(110);
    r.push(116);
    r.push(95);
    r.push(105);
    r.push(100);
    assert(r@ =~= spec_latest_event_key());
    r
}

/// Builds the identity key.
pub fn identity_key() -> (r: Vec<u8>)
    ensures
        r@ == spec_identity_key(),
{
    let mut r: Vec<u8> = Vec::new();
    r.push(47);
    r.push(99);
    r.push(111);
    r.push(110);
    r.push(102);
    r.push(105);
    r.push(103);
    r.push(47);
    r.push(105);
    r.push(100);
    r.push(101);
    r.push(110);
    r.push(116);
    r.push(105);
    r.push(116);
    r.push(121);
    assert(r@ =~= spec_identity_key());
    r
}

/// Builds the next-subresource key.
pub fn subresource_key() -> (r: Vec<u8>)
    ensures
        r@ == spec_subresource_key(),
{
    let mut r: Vec<u8> = Vec::new();
    r.push(47);
    r.push(99);
    r.push(111);
    r.push(110);
    r.push(102);
    r.push(105);
    r.push(103);
    r.push(47);
    r.push(115);
    r.push(117);
    r.push(98);
    r.push(114);
    r.push(101);
    r.push(115);
    r.push(111);
    r.push(117);
    r.push(114);
    r.push(99);
    r.push(101);
    r.push(95);
    r.push(105);
    r.push(100);
    assert(r@ =~= spec_subresource_key());
    r
}

/// Builds the key of the event with identifier `id`.
pub fn event_key(id: &Vec<u8>) -> (r: Vec<u8>)
    ensures
        r@ == spec_event_key(id@),
{
    let mut r: Vec<u8> = Vec::new();
    r.push(47);
    r.push(101);
    r.push(118);
    r.push(101);
    r.push(110);
    r.push(116);
    r.push(115);
    r.push(47);
    r.extend_from_slice(id.as_slice());
    assert(r@ =~= spec_event_key(id@));
    r
}

/// The height a staged state holds: the value under the height key when it
/// is eight bytes, zero otherwise.
pub open spec fn spec_height_of(m: Map<Seq<u8>, Seq<u8>>) -> u64 {
    if m.contains_key(spec_height_key()) && m[spec_height_key()].len() == 8 {
        crate::storage::spec_u64_from_be(m[spec_height_key()])
    } else {
        0
    }
}

/// The key-value store backend state.
pub struct KvStoreStorage {
    persistent_store: Storage,
    /// In block mode mutations only stage; a commit call materializes them.
    /// Otherwise every mutation is materialized as it comes.
    blockchain: bool,
    latest_event_id: EventId,
    current_time: Option<Timestamp>,
    current_hash: Option<Vec<u8>>,
    next_subresource: u32,
    root_identity: Address,
}

impl KvStoreStorage {
    /// The underlying engine state is sorted with distinct keys.
    pub closed spec fn wf(&self) -> bool {
        self.persistent_store.wf()
    }

    /// The staged state.
    pub closed spec fn working_view(&self) -> Map<Seq<u8>, Seq<u8>> {
        self.persistent_store.working_view()
    }

    /// The committed state.
    pub closed spec fn committed_view(&self) -> Map<Seq<u8>, Seq<u8>> {
        self.persistent_store.committed_view()
    }

    /// The committed entries the root hash folds over.
    pub closed spec fn committed_entries(&self) -> Seq<(Seq<u8>, Seq<u8>)> {
        self.persistent_store.committed_entries()
    }

    /// The identifier of the last logged event.
    pub closed spec fn latest_event(&self) -> Seq<u8> {
        self.latest_event_id@
    }

    /// The block time, when one is set.
    pub closed spec fn time(&self) -> Option<Timestamp> {
        self.current_time
    }

    /// Whether mutations stage until an explicit commit.
    pub closed spec fn is_blockchain(&self) -> bool {
        self.blockchain
    }

    /// The server's own identity.
    pub closed spec fn identity(&self) -> Seq<u8> {
        self.root_identity@
    }

    /// A fresh store over an empty engine: stages the server identity, the
    /// access list and the zero event identifier, and commits them.
    pub fn new(acl: &AclMap, identity: Address, blockchain: bool) -> (r: KvStoreStorage)
        ensures
            r.wf(),
            r.is_blockchain() == blockchain,
            r.latest_event() == seq![0u8],
            r.time() is None,
            r.identity() == identity@,
            r.committed_view() == r.working_view(),
            r.working_view().contains_key(spec_identity_key()),
            r.working_view()[spec_identity_key()] == identity@,
            r.working_view().contains_key(spec_latest_event_key()),
            r.working_view()[spec_latest_event_key()] == crate::eventid::spec_enc_event_id(
                seq![0u8],
            ),
            r.subresource() == 0,
            r.cached_hash() is None,
            forall|j: int|
                0 <= j < acl@.len() ==> r.working_view().contains_key(
                    spec_acl_key((#[trigger] acl@[j]).0.key@),
                ),
            forall|j: int|
                (0 <= j < acl@.len() && (forall|t: int|
                    j < t < acl@.len() ==> (#[trigger] acl@[t]).0.key@ != acl@[j].0.key@))
                    ==> r.working_view()[spec_acl_key((#[trigger] acl@[j]).0.key@)]
                    == spec_enc_kv_metadata(acl@[j].1),
    {
        let mut store = Storage::new();
        let mut batch: Vec<(Vec<u8>, Op)> = Vec::new();
        let an = acl.len();
        let mut i: usize = 0;
        while i < an
            invariant
                i <= an,
                an == acl@.len(),
                batch@.len() == i,
                forall|j: int|
                    0 <= j < i ==> crate::storage::batch_view(batch@)[j] == (
                    spec_acl_key((#[trigger] acl@[j]).0.key@),
                    Some(spec_enc_kv_metadata(acl@[j].1)),
                ),
            decreases an - i,
        {
            batch.push((acl_key(&acl[i].0.key), Op::Put(acl[i].1.to_bytes())));
            i = i + 1;
        }
        let ghost acl_part = batch@;
        batch.push((identity_key(), Op::Put(identity.to_vec())));
        let ghost with_identity = batch@;
        let mut latest_bytes: Vec<u8> = Vec::new();
        latest_bytes.push(0);
        let latest_event_id = EventId::from_bytes(latest_bytes);
        assert(latest_event_id@ =~= seq![0u8]);
        let mut enc_latest: Vec<u8> = Vec::new();
        crate::eventid::encode_event_id(&latest_event_id, &mut enc_latest);
        batch.push((latest_event_key(), Op::Put(enc_latest)));
        store.apply(&batch);
        proof {
            let m0 = Map::<Seq<u8>, Seq<u8>>::empty();
            let bv = crate::storage::batch_view(batch@);
            assert(bv.drop_last() =~= crate::storage::batch_view(with_identity));
            assert(bv.last() == (spec_latest_event_key(), Some(enc_latest@)));
            assert(crate::storage::batch_view(with_identity).last() == (
                spec_identity_key(),
                Some(identity@),
            ));
            assert(spec_identity_key() != spec_latest_event_key()) by {
                assert(spec_identity_key()[1] == 99);
                assert(spec_latest_event_key()[1] == 108);
            }
            assert(store.working_view() == crate::storage::apply_one(
                crate::storage::spec_apply(m0, bv.drop_last()),
                bv.last(),
            ));
            assert(crate::storage::spec_apply(m0, bv.drop_last())
                == crate::storage::spec_apply(
                m0,
                crate::storage::batch_view(with_identity).drop_last(),
            ).insert(spec_identity_key(), identity@));
            assert(store.working_view()[spec_latest_event_key()] == enc_latest@);
            assert(store.working_view()[spec_identity_key()] == identity@);
            let an_ = acl@.len() as int;
            assert(bv.len() == an_ + 2);
            assert forall|j: int| 0 <= j < an_ implies bv[j] == (
                spec_acl_key((#[trigger] acl@[j]).0.key@),
                Some(spec_enc_kv_metadata(acl@[j].1)),
            ) by {
                assert(batch@[j] == acl_part[j]);
                assert(crate::storage::batch_view(acl_part)[j] == (
                    spec_acl_key(acl@[j].0.key@),
                    Some(spec_enc_kv_metadata(acl@[j].1)),
                ));
            }
            assert forall|t: int| 0 <= t < bv.len() implies (#[trigger] bv[t]).1 is Some by {
                if t < an_ {
                    assert(bv[t] == (
                        spec_acl_key((#[trigger] acl@[t]).0.key@),
                        Some(spec_enc_kv_metadata(acl@[t].1)),
                    ));
                } else if t == an_ {
                    assert(bv.drop_last()[t] == bv[t]);
                    assert(bv[t] == crate::storage::batch_view(with_identity)[t]);
                    assert(crate::storage::batch_view(with_identity)[t]
                        == crate::storage::batch_view(with_identity).last());
                } else if t == an_ + 1 {
                    assert(bv[t] == bv.last());
                }
            }
            assert forall|j: int| 0 <= j < an_ implies store.working_view().contains_key(
                spec_acl_key((#[trigger] acl@[j]).0.key@),
            ) by {
                crate::storage::lemma_apply_put_contains(m0, bv, j);
            }
            assert forall|j: int|
                (0 <= j < an_ && (forall|t: int|
                    j < t < an_ ==> (#[trigger] acl@[t]).0.key@ != acl@[j].0.key@))
                implies store.working_view()[spec_acl_key((#[trigger] acl@[j]).0.key@)]
                == spec_enc_kv_metadata(acl@[j].1) by {
                assert forall|t: int| j < t < bv.len() implies (#[trigger] bv[t]).0 != bv[j].0 by {
                    if t < an_ {
                        let kt = acl@[t].0.key@;
                        let kj = acl@[j].0.key@;
                        assert(spec_acl_key(kt).subrange(1, spec_acl_key(kt).len() as int) =~= kt);
                        assert(spec_acl_key(kj).subrange(1, spec_acl_key(kj).len() as int) =~= kj);
                        assert(kt != kj);
                        if spec_acl_key(kt) == spec_acl_key(kj) {
                            assert(kt == kj);
                        }
                    } else {
                        assert(bv[t].0[0] == 47u8);
                        assert(bv[j].0[0] == 97u8);
                    }
                }
                crate::storage::lemma_apply_last_put(m0, bv, j, spec_enc_kv_metadata(acl@[j].1));
            }
        }
        let _root = store.commit();
        KvStoreStorage {
            persistent_store: store,
            blockchain,
            latest_event_id,
            current_time: None,
            current_hash: None,
            next_subresource: 0,
            root_identity: identity,
        }
    }

    /// Rebuilds a store around an existing engine state: the identity, the
    /// next subresource id and the latest event identifier are read back
    /// from their reserved keys.
    pub fn load(store: Storage, blockchain: bool) -> (r: Result<KvStoreStorage, String>)
        requires
            store.wf(),
        ensures
            r is Ok <==> {
                &&& store.working_view().contains_key(spec_identity_key())
                &&& crate::types::spec_address_wf(store.working_view()[spec_identity_key()])
                &&& store.working_view().contains_key(spec_latest_event_key())
                &&& (exists|iv: Seq<u8>|
                    iv.len() <= u64::MAX && store.working_view()[spec_latest_event_key()]
                        == #[trigger] crate::eventid::spec_enc_event_id(iv))
                &&& (store.working_view().contains_key(spec_subresource_key())
                    ==> store.working_view()[spec_subresource_key()].len() == 4)
            },
            r matches Ok(s) ==> {
                &&& s.wf()
                &&& s.is_blockchain() == blockchain
                &&& s.time() is None
                &&& s.working_view() == store.working_view()
                &&& s.committed_entries() == store.committed_entries()
                &&& s.identity() == store.working_view()[spec_identity_key()]
                &&& store.working_view()[spec_latest_event_key()]
                    == crate::eventid::spec_enc_event_id(s.latest_event())
            },
    {
        let next_subresource: u32 = match store.get(&subresource_key()) {
            Some(v) => {
                if v.len() != 4 {
                    return Err(String::new());
                }
                ((v[0] as u32) << 24) | ((v[1] as u32) << 16) | ((v[2] as u32) << 8) | (v[3] as u32)
            },
            None => 0,
        };
        let root_identity = match store.get(&identity_key()) {
            Some(v) => match Address::from_bytes(v) {
                Ok(a) => a,
                Err(_) => {
                    return Err(String::new());
                },
            },
            None => {
                return Err(String::new());
            },
        };
        let latest_event_id = match store.get(&latest_event_key()) {
            Some(v) => {
                proof {
                    assert forall|iv: Seq<u8>|
                        (iv.len() <= u64::MAX && v@
                            == #[trigger] crate::eventid::spec_enc_event_id(iv)) implies
                        cbor::spec_prefix_at(v@, 0, crate::eventid::spec_enc_event_id(iv)) by {
                        assert(v@.subrange(
                            0,
                            crate::eventid::spec_enc_event_id(iv).len() as int,
                        ) =~= v@);
                    }
                }
                match crate::eventid::decode_event_id(&v, 0) {
                    Ok((id, end)) => {
                        if end != v.len() {
                            return Err(String::new());
                        }
                        assert(v@.subrange(0, v@.len() as int) =~= v@);
                        id
                    },
                    Err(_) => {
                        return Err(String::new());
                    },
                }
            },
            None => {
                return Err(String::new());
            },
        };
        Ok(
            KvStoreStorage {
                persistent_store: store,
                blockchain,
                latest_event_id,
                current_time: None,
                current_hash: None,
                next_subresource,
                root_identity,
            },
        )
    }

    /// Fixes the block time mutations are stamped with.
    pub fn set_time(&mut self, time: Timestamp)
        ensures
            final(self).time() == Some(time),
            final(self).wf() == old(self).wf(),
            final(self).working_view() == old(self).working_view(),
            final(self).committed_entries() == old(self).committed_entries(),
            final(self).latest_event() == old(self).latest_event(),
            final(self).is_blockchain() == old(self).is_blockchain(),
    {
        self.current_time = Some(time);
    }

    /// The block time. The store must have been given one.
    pub fn now(&self) -> (r: Timestamp)
        requires
            self.time() is Some,
        ensures
            Some(r) == self.time(),
    {
        match &self.current_time {
            Some(t) => *t,
            None => Timestamp::epoch(),
        }
    }

    /// The next fresh subresource of the server identity: stages the
    /// incremented counter and returns the derived address and the written
    /// key. Fails when the identity cannot carry subresources or the
    /// counter is exhausted.
    pub fn new_subresource_id(&mut self) -> (r: Result<(Address, Vec<u8>), ManyError>)
        requires
            old(self).wf(),
        ensures
            final(self).wf(),
            r matches Ok((a, k)) ==> {
                &&& a@ == crate::types::spec_with_subresource(old(self).identity(), old(self).subresource())
                &&& k@ == spec_subresource_key()
                &&& final(self).subresource() == old(self).subresource() + 1
                &&& final(self).working_view() == old(self).working_view().insert(
                    spec_subresource_key(),
                    crate::eventid::spec_u32_be((old(self).subresource() + 1) as u32),
                )
            },
            r is Ok <==> (old(self).identity().len() >= 29 && old(self).subresource()
                < crate::types::MAX_SUBRESOURCE_ID),
            final(self).committed_entries() == old(self).committed_entries(),
            final(self).latest_event() == old(self).latest_event(),
    {
        if self.next_subresource >= crate::types::MAX_SUBRESOURCE_ID {
            return Err(ManyError::unknown(String::new()));
        }
        let current_id = self.next_subresource;
        let address = match self.root_identity.with_subresource_id(current_id) {
            Ok(a) => a,
            Err(e) => {
                return Err(e);
            },
        };
        self.next_subresource = self.next_subresource + 1;
        let key = subresource_key();
        let mut val: Vec<u8> = Vec::new();
        val.push((self.next_subresource >> 24) as u8);
        val.push((self.next_subresource >> 16) as u8);
        val.push((self.next_subresource >> 8) as u8);
        val.push(self.next_subresource as u8);
        let mut batch: Vec<(Vec<u8>, Op)> = Vec::new();
        batch.push((key, Op::Put(val)));
        let ghost b0 = batch@;
        let ghost m0 = self.persistent_store.working_view();
        self.persistent_store.apply(&batch);
        proof {
            assert(crate::storage::batch_view(b0).drop_last() =~= Seq::<
                (Seq<u8>, Option<Seq<u8>>),
            >::empty());
            assert(crate::storage::spec_apply(m0, crate::storage::batch_view(b0).drop_last())
                == m0);
            assert(crate::storage::batch_view(b0).last() == (
                spec_subresource_key(),
                Some(crate::eventid::spec_u32_be(self.next_subresource)),
            ));
        }
        Ok((address, subresource_key()))
    }

    /// The next subresource counter.
    pub closed spec fn subresource(&self) -> u32 {
        self.next_subresource
    }

    /// The current block height: the staged counter under the height key.
    pub fn get_height(&self) -> (r: u64)
        requires
            self.wf(),
        ensures
            r == spec_height_of(self.working_view()),
    {
        match self.persistent_store.get(&height_key()) {
            Some(v) => {
                if v.len() == 8 {
                    ((v[0] as u64) << 56) | ((v[1] as u64) << 48) | ((v[2] as u64) << 40) | ((
                    v[3] as u64) << 32) | ((v[4] as u64) << 24) | ((v[5] as u64) << 16) | ((
                    v[6] as u64) << 8) | (v[7] as u64)
                } else {
                    0
                }
            },
            None => 0,
        }
    }

    /// Stages the height counter advanced by one and returns the height it
    /// had. Fails when the counter is exhausted.
    pub fn inc_height(&mut self) -> (r: Result<u64, ManyError>)
        requires
            old(self).wf(),
        ensures
            final(self).wf(),
            r matches Ok(h) ==> {
                &&& h == spec_height_of(old(self).working_view())
                &&& final(self).working_view() == old(self).working_view().insert(
                    spec_height_key(),
                    crate::eventid::spec_u64_be((h + 1) as u64),
                )
            },
            r is Ok <==> spec_height_of(old(self).working_view()) < u64::MAX,
            final(self).committed_entries() == old(self).committed_entries(),
            final(self).latest_event() == old(self).latest_event(),
            final(self).time() == old(self).time(),
            final(self).is_blockchain() == old(self).is_blockchain(),
    {
        let current_height = self.get_height();
        if current_height == u64::MAX {
            return Err(ManyError::unknown(String::new()));
        }
        let next = EventId::from_u64(current_height + 1);
        let mut batch: Vec<(Vec<u8>, Op)> = Vec::new();
        batch.push((height_key(), Op::Put(next.to_vec())));
        let ghost b0 = batch@;
        let ghost m0 = self.persistent_store.working_view();
        self.persistent_store.apply(&batch);
        proof {
            assert(crate::storage::batch_view(b0).drop_last() =~= Seq::<
                (Seq<u8>, Option<Seq<u8>>),
            >::empty());
            assert(crate::storage::spec_apply(m0, crate::storage::batch_view(b0).drop_last())
                == m0);
            assert(crate::storage::batch_view(b0).last() == (
                spec_height_key(),
                Some(crate::eventid::spec_u64_be((current_height + 1) as u64)),
            ));
        }
        Ok(current_height)
    }
}

} // verus!

verus! {

impl KvStoreStorage {
    /// Assigns the next event identifier, stamps the event with the block
    /// time and stages it under the event namespace. Fails only when the
    /// identifier has outgrown its bound.
    pub fn log_event(&mut self, content: EventInfo) -> (r: Result<(), ManyError>)
        requires
            old(self).wf(),
            old(self).time() is Some,
        ensures
            final(self).wf(),
            final(self).time() == old(self).time(),
            final(self).is_blockchain() == old(self).is_blockchain(),
            final(self).committed_entries() == old(self).committed_entries(),
            r is Ok <==> (old(self).latest_event().len() <= 8 && bytestr::be_value(
                old(self).latest_event(),
            ) < u64::MAX),
            r is Ok ==> {
                &&& final(self).latest_event() == crate::eventid::spec_u64_be(
                    (bytestr::be_value(old(self).latest_event()) + 1) as u64,
                )
                &&& final(self).latest_event().len() == 8
                &&& bytestr::be_value(final(self).latest_event()) == bytestr::be_value(
                    old(self).latest_event(),
                ) + 1
                &&& final(self).working_view() == old(self).working_view().insert(
                    spec_event_key(final(self).latest_event()),
                    events::spec_enc_event_log_parts(
                        final(self).latest_event(),
                        old(self).time()->Some_0,
                        content,
                    ),
                )
            },
            r is Err ==> final(self).working_view() == old(self).working_view()
                && final(self).latest_event() == old(self).latest_event(),
    {
        if self.latest_event_id.len() > 8 {
            return Err(ManyError::unknown(String::new()));
        }
        // Identifiers are assigned at the fixed eight-byte width, so the
        // lexicographic order on their encodings matches the numeric order.
        let latest_bytes = self.latest_event_id.to_vec();
        let cur = bytestr::be_value_u64(&latest_bytes);
        if cur == u64::MAX {
            return Err(ManyError::unknown(String::new()));
        }
        let new_id = EventId::from_u64(cur + 1);
        let time = self.now();
        let idb = new_id.to_vec();
        let ev = EventLog { id: new_id, time, content };
        let bytes = ev.to_bytes();
        let ghost evg = ev;
        let mut batch: Vec<(Vec<u8>, Op)> = Vec::new();
        batch.push((event_key(&idb), Op::Put(bytes)));
        let ghost b0 = batch@;
        let ghost m0 = self.persistent_store.working_view();
        self.persistent_store.apply(&batch);
        proof {
            assert(crate::storage::batch_view(b0).drop_last() =~= Seq::<
                (Seq<u8>, Option<Seq<u8>>),
            >::empty());
            assert(crate::storage::spec_apply(m0, crate::storage::batch_view(b0).drop_last())
                == m0);
            assert(crate::storage::batch_view(b0).last() == (
                spec_event_key(evg.id@),
                Some(events::spec_enc_event_log(evg)),
            ));
        }
        self.latest_event_id = ev.id;
        Ok(())
    }

    /// Writes a value under a key together with its access metadata, and
    /// logs the write. In immediate mode the change is committed at once.
    pub fn put(&mut self, meta: &KvStoreMetadata, key: &Vec<u8>, value: Vec<u8>) -> (r: Result<
        (),
        ManyError,
    >)
        requires
            old(self).wf(),
            old(self).time() is Some,
        ensures
            final(self).wf(),
            r is Ok <==> (old(self).latest_event().len() <= 8 && bytestr::be_value(
                old(self).latest_event(),
            ) < u64::MAX),
            r is Ok ==> {
                &&& bytestr::be_value(final(self).latest_event()) == bytestr::be_value(
                    old(self).latest_event(),
                ) + 1
                &&& final(self).latest_event() == crate::eventid::spec_u64_be(
                    (bytestr::be_value(old(self).latest_event()) + 1) as u64,
                )
                &&& (exists|ev: EventInfo|
                    {
                        &&& #[trigger] events::spec_enc_event_info(ev)
                            == events::spec_enc_event_info(ev)
                        &&& ev matches EventInfo::KvStorePut { key: k2, value: v2, owner: o2 }
                            && k2@ == key@ && v2@ == value@ && o2@ == meta.owner@
                        &&& final(self).working_view() == old(self).working_view().insert(
                            spec_acl_key(key@),
                            spec_enc_kv_metadata(*meta),
                        ).insert(spec_data_key(key@), value@).insert(
                            spec_event_key(final(self).latest_event()),
                            events::spec_enc_event_log_parts(
                                final(self).latest_event(),
                                old(self).time()->Some_0,
                                ev,
                            ),
                        )
                    })
                &&& (!old(self).is_blockchain() ==> final(self).committed_view() == final(
                    self).working_view())
            },
            old(self).is_blockchain() ==> final(self).committed_entries() == old(
                self,
            ).committed_entries(),
    {
        let mut batch: Vec<(Vec<u8>, Op)> = Vec::new();
        batch.push((acl_key(key), Op::Put(meta.to_bytes())));
        batch.push((data_key(key), Op::Put(value.clone())));
        let ghost b0 = batch@;
        let ghost m0 = self.persistent_store.working_view();
        self.persistent_store.apply(&batch);
        proof {
            let bv = crate::storage::batch_view(b0);
            assert(bv.drop_last().drop_last() =~= Seq::<(Seq<u8>, Option<Seq<u8>>)>::empty());
            assert(crate::storage::spec_apply(m0, bv.drop_last().drop_last()) == m0);
            assert(bv.drop_last().last() == (spec_acl_key(key@), Some(spec_enc_kv_metadata(*meta))));
            assert(bv.last() == (spec_data_key(key@), Some(value@)));
            assert(crate::storage::spec_apply(m0, bv.drop_last()) == m0.insert(
                spec_acl_key(key@),
                spec_enc_kv_metadata(*meta),
            ));
            assert(crate::storage::spec_apply(m0, bv) == m0.insert(
                spec_acl_key(key@),
                spec_enc_kv_metadata(*meta),
            ).insert(spec_data_key(key@), value@));
        }
        let content = EventInfo::KvStorePut { key: key.clone(), value, owner: meta.owner.clone() };
        let ghost content_g = content;
        let r = self.log_event(content);
        match r {
            Ok(()) => {},
            Err(e) => {
                return Err(e);
            },
        }
        proof {
            assert(events::spec_enc_event_info(content_g) == events::spec_enc_event_info(
                content_g,
            ));
        }
        if !self.blockchain {
            let h = self.persistent_store.commit();
            self.current_hash = Some(h);
        }
        Ok(())
    }

    /// Reads a value: an error when the key's access metadata marks it
    /// disabled or cannot be read back, the stored value otherwise.
    pub fn get(&self, key: &Vec<u8>) -> (r: Result<Option<Vec<u8>>, ManyError>)
        requires
            self.wf(),
        ensures
            r matches Ok(v) ==> {
                &&& (v matches Some(val) ==> self.working_view().contains_key(spec_data_key(key@))
                    && self.working_view()[spec_data_key(key@)] == val@)
                &&& (v is None ==> !self.working_view().contains_key(spec_data_key(key@)))
            },
            r is Err ==> self.working_view().contains_key(spec_acl_key(key@)),
            !self.working_view().contains_key(spec_acl_key(key@)) ==> r is Ok,
            (self.working_view().contains_key(spec_acl_key(key@)) && (exists|m2: KvStoreMetadata|
                spec_meta_wf(m2) && !spec_meta_blocked(m2) && self.working_view()[spec_acl_key(
                    key@,
                )] == #[trigger] spec_enc_kv_metadata(m2))) ==> r is Ok,
            (self.working_view().contains_key(spec_acl_key(key@)) && (exists|m2: KvStoreMetadata|
                spec_meta_wf(m2) && spec_meta_blocked(m2) && self.working_view()[spec_acl_key(
                    key@,
                )] == #[trigger] spec_enc_kv_metadata(m2))) ==> (r matches Err(e) && e.code
                == crate::error::ATTRIBUTE_CODE_BASE * 7 - KEY_DISABLED_INDEX),
    {
        match self.persistent_store.get(&acl_key(key)) {
            Some(cbor_bytes) => {
                let meta = match KvStoreMetadata::from_bytes(&cbor_bytes) {
                    Ok(m) => m,
                    Err(_) => {
                        return Err(ManyError::deserialization_error(String::new()));
                    },
                };
                let blocked = match &meta.disabled {
                    None => false,
                    Some(Either::Left(b)) => *b,
                    Some(Either::Right(_)) => true,
                };
                if blocked {
                    return Err(
                        ManyError::new(
                            ManyError::attribute_specific_code(7, KEY_DISABLED_INDEX),
                            None,
                        ),
                    );
                }
            },
            None => {},
        }
        Ok(self.persistent_store.get(&data_key(key)))
    }

    /// Reads a key's access metadata bytes.
    pub fn get_metadata(&self, key: &Vec<u8>) -> (r: Option<Vec<u8>>)
        requires
            self.wf(),
        ensures
            r matches Some(v) ==> self.working_view().contains_key(spec_acl_key(key@))
                && self.working_view()[spec_acl_key(key@)] == v@,
            r is None ==> !self.working_view().contains_key(spec_acl_key(key@)),
    {
        self.persistent_store.get(&acl_key(key))
    }

    /// Overwrites a key's access metadata (disabling it when the metadata
    /// says so) and logs the change. In immediate mode the change is
    /// committed at once.
    pub fn disable(&mut self, meta: &KvStoreMetadata, key: &Vec<u8>) -> (r: Result<(), ManyError>)
        requires
            old(self).wf(),
            old(self).time() is Some,
        ensures
            final(self).wf(),
            r is Ok <==> (old(self).latest_event().len() <= 8 && bytestr::be_value(
                old(self).latest_event(),
            ) < u64::MAX),
            r is Ok ==> final(self).latest_event() == crate::eventid::spec_u64_be(
                (bytestr::be_value(old(self).latest_event()) + 1) as u64,
            ) && (exists|ev: EventInfo|
                {
                    &&& #[trigger] events::spec_enc_event_info(ev) == events::spec_enc_event_info(
                        ev,
                    )
                    &&& ev matches EventInfo::KvStoreDisable { key: k2, reason: _ } && k2@ == key@
                    &&& final(self).working_view() == old(self).working_view().insert(
                        spec_acl_key(key@),
                        spec_enc_kv_metadata(*meta),
                    ).insert(
                        spec_event_key(final(self).latest_event()),
                        events::spec_enc_event_log_parts(
                            final(self).latest_event(),
                            old(self).time()->Some_0,
                            ev,
                        ),
                    )
                }),
            old(self).is_blockchain() ==> final(self).committed_entries() == old(
                self,
            ).committed_entries(),
    {
        let mut batch: Vec<(Vec<u8>, Op)> = Vec::new();
        batch.push((acl_key(key), Op::Put(meta.to_bytes())));
        let ghost b0 = batch@;
        let ghost m0 = self.persistent_store.working_view();
        self.persistent_store.apply(&batch);
        proof {
            let bv = crate::storage::batch_view(b0);
            assert(bv.drop_last() =~= Seq::<(Seq<u8>, Option<Seq<u8>>)>::empty());
            assert(crate::storage::spec_apply(m0, bv.drop_last()) == m0);
            assert(bv.last() == (spec_acl_key(key@), Some(spec_enc_kv_metadata(*meta))));
        }
        let reason: Option<String> = match &meta.disabled {
            Some(Either::Right(s)) => Some(s.clone()),
            _ => None,
        };
        let content = EventInfo::KvStoreDisable { key: key.clone(), reason };
        let ghost content_g = content;
        let r = self.log_event(content);
        match r {
            Ok(()) => {},
            Err(e) => {
                return Err(e);
            },
        }
        proof {
            assert(events::spec_enc_event_info(content_g) == events::spec_enc_event_info(
                content_g,
            ));
        }
        if !self.blockchain {
            let h = self.persistent_store.commit();
            self.current_hash = Some(h);
        }
        Ok(())
    }

    /// Hands a key to a new owner and logs the transfer. In immediate mode
    /// the change is committed at once.
    pub fn transfer(&mut self, key: &Vec<u8>, previous_owner: Address, meta: KvStoreMetadata) -> (r:
        Result<(), ManyError>)
        requires
            old(self).wf(),
            old(self).time() is Some,
        ensures
            final(self).wf(),
            r is Ok <==> (old(self).latest_event().len() <= 8 && bytestr::be_value(
                old(self).latest_event(),
            ) < u64::MAX),
            r is Ok ==> final(self).latest_event() == crate::eventid::spec_u64_be(
                (bytestr::be_value(old(self).latest_event()) + 1) as u64,
            ) && (exists|ev: EventInfo|
                {
                    &&& #[trigger] events::spec_enc_event_info(ev) == events::spec_enc_event_info(
                        ev,
                    )
                    &&& ev matches EventInfo::KvStoreTransfer { key: k2, owner: o2, new_owner: n2 }
                        && k2@ == key@ && o2@ == previous_owner@ && n2@ == meta.owner@
                    &&& final(self).working_view() == old(self).working_view().insert(
                        spec_acl_key(key@),
                        spec_enc_kv_metadata(meta),
                    ).insert(
                        spec_event_key(final(self).latest_event()),
                        events::spec_enc_event_log_parts(
                            final(self).latest_event(),
                            old(self).time()->Some_0,
                            ev,
                        ),
                    )
                }),
            old(self).is_blockchain() ==> final(self).committed_entries() == old(
                self,
            ).committed_entries(),
    {
        let new_owner = meta.owner.clone();
        let mut batch: Vec<(Vec<u8>, Op)> = Vec::new();
        batch.push((acl_key(key), Op::Put(meta.to_bytes())));
        let ghost b0 = batch@;
        let ghost m0 = self.persistent_store.working_view();
        self.persistent_store.apply(&batch);
        proof {
            let bv = crate::storage::batch_view(b0);
            assert(bv.drop_last() =~= Seq::<(Seq<u8>, Option<Seq<u8>>)>::empty());
            assert(crate::storage::spec_apply(m0, bv.drop_last()) == m0);
            assert(bv.last() == (spec_acl_key(key@), Some(spec_enc_kv_metadata(meta))));
        }
        let content = EventInfo::KvStoreTransfer {
            key: key.clone(),
            owner: previous_owner,
            new_owner,
        };
        let ghost content_g = content;
        let r = self.log_event(content);
        match r {
            Ok(()) => {},
            Err(e) => {
                return Err(e);
            },
        }
        proof {
            assert(events::spec_enc_event_info(content_g) == events::spec_enc_event_info(
                content_g,
            ));
        }
        if !self.blockchain {
            let h = self.persistent_store.commit();
            self.current_hash = Some(h);
        }
        Ok(())
    }

    /// Commits a block: advances the height, records the latest event
    /// identifier, materializes the staged state, caches the new root hash
    /// and reseeds the event identifier for the next block from the shifted
    /// height. Fails when a counter is exhausted.
    pub fn commit(&mut self) -> (r: Result<AbciCommitInfo, ManyError>)
        requires
            old(self).wf(),
        ensures
            final(self).wf(),
            r matches Ok(info) ==> {
                &&& info.retain_height == 0
                &&& info.hash@ == crate::storage::spec_root_hash(final(self).committed_entries())
                &&& final(self).committed_view() == final(self).working_view()
                &&& spec_height_of(final(self).working_view()) == spec_height_of(
                    old(self).working_view(),
                ) + 1
                &&& bytestr::be_value(final(self).latest_event()) == (spec_height_of(
                    old(self).working_view(),
                ) + 2) as nat * 0x1_0000_0000
                &&& final(self).latest_event().len() == 8
                &&& final(self).cached_hash() == Some(info.hash@)
            },
            r is Ok <==> spec_height_of(old(self).working_view()) + 2 < 0x1_0000_0000,
    {
        let height = self.get_height();
        if height >= 0xffff_fffe {
            return Err(ManyError::unknown(String::new()));
        }
        let r = self.inc_height();
        let height = match r {
            Ok(h) => h,
            Err(e) => {
                return Err(e);
            },
        };
        let mut enc_latest: Vec<u8> = Vec::new();
        crate::eventid::encode_event_id(&self.latest_event_id, &mut enc_latest);
        let mut batch: Vec<(Vec<u8>, Op)> = Vec::new();
        batch.push((latest_event_key(), Op::Put(enc_latest)));
        let ghost b0 = batch@;
        let ghost m0 = self.persistent_store.working_view();
        self.persistent_store.apply(&batch);
        proof {
            let bv = crate::storage::batch_view(b0);
            assert(bv.drop_last() =~= Seq::<(Seq<u8>, Option<Seq<u8>>)>::empty());
            assert(crate::storage::spec_apply(m0, bv.drop_last()) == m0);
        }
        let hash = self.persistent_store.commit();
        self.current_hash = Some(hash.clone());
        // The next block's identifiers restart above this block's: the new
        // height plus one, shifted by `HEIGHT_EVENTID_SHIFT` bits.
        assert((height + 2) * 0x1_0000_0000 < 0x1_0000_0000_0000_0000) by (nonlinear_arith)
            requires
                height + 2 < 0x1_0000_0000,
        ;
        let reseed: u64 = (height + 2) * 0x1_0000_0000;
        self.latest_event_id = EventId::from_u64(reseed);
        proof {
            assert(spec_height_key().len() == 7 && spec_latest_event_key().len() == 16);
            assert(spec_height_key() != spec_latest_event_key());
            crate::storage::lemma_u64_be_round_trip((height + 1) as u64);
        }
        Ok(AbciCommitInfo { retain_height: 0, hash })
    }

    /// The root hash the store last committed to, or the engine's current
    /// one before any commit of this session.
    pub fn hash(&self) -> (r: Vec<u8>)
        ensures
            (match self.cached_hash() {
                Some(h) => r@ == h,
                None => r@ == crate::storage::spec_root_hash(self.committed_entries()),
            }),
    {
        match &self.current_hash {
            Some(h) => h.clone(),
            None => self.persistent_store.root_hash(),
        }
    }

    /// The bytes of the identifier of the last logged event.
    pub fn latest_event_id(&self) -> (r: Vec<u8>)
        ensures
            r@ == self.latest_event(),
    {
        self.latest_event_id.to_vec()
    }

    /// The hash cached by the last commit.
    pub closed spec fn cached_hash(&self) -> Option<Seq<u8>> {
        match self.current_hash {
            Some(h) => Some(h@),
            None => None,
        }
    }

    /// Builds an inclusion proof for the given keys against the committed
    /// state.
    pub fn prove_state(&self, keys: &Vec<Vec<u8>>) -> (r: Result<
        Vec<crate::storage::ProofOperation>,
        ManyError,
    >)
        requires
            self.wf(),
        ensures
            r is Ok <==> (forall|i: int|
                0 <= i < keys@.len() ==> self.committed_view().contains_key(
                    (#[trigger] keys@[i])@,
                )),
            r matches Ok(ops) ==> crate::storage::spec_run(
                ops@,
                crate::storage::ProofState { stack: Seq::empty(), pairs: Seq::empty() },
            ) == Some(
                crate::storage::ProofState {
                    stack: seq![crate::storage::spec_fold_hash(self.committed_entries())],
                    pairs: crate::storage::spec_selected(
                        self.committed_entries(),
                        crate::storage::keys_set(keys@),
                    ),
                },
            ),
    {
        self.persistent_store.prove(keys)
    }
}

} // verus!

verus! {

/// Law: event identifiers never collide across a block boundary. Every
/// identifier logged during a block at height `h` is the reseeded base
/// `(h + 1) * 2^HEIGHT_EVENTID_SHIFT` plus its in-block counter, so the
/// first identifier of the next block exceeds the last identifier of the
/// block before it.
pub proof fn lemma_event_id_block_boundary(h: u64, last_counter: u64, first_counter: u64)
    requires
        h < 0xffff_fffe,
        1 <= last_counter < 0x1_0000_0000,
        1 <= first_counter,
    ensures
        (h + 1) * 0x1_0000_0000 + last_counter < (h + 2) * 0x1_0000_0000 + first_counter,
{
    assert((h + 1) * 0x1_0000_0000 + 0x1_0000_0000 == (h + 2) * 0x1_0000_0000) by (nonlinear_arith);
}

} // verus!

verus! {

/// What a listing keeps: an event passes when it touches one of the given
/// accounts, is of one of the given kinds, pertains to one of the given
/// symbols, and falls inside the inclusive identifier and date bounds;
/// an absent criterion keeps everything.
pub struct EventFilter {
    pub account: Option<Vec<Address>>,
    pub kind: Option<Vec<events::EventKind>>,
    pub symbol: Option<Vec<Address>>,
    pub id_start: Option<Vec<u8>>,
    pub id_end: Option<Vec<u8>>,
    pub date_start: Option<u64>,
    pub date_end: Option<u64>,
}

/// Whether a logged event passes a filter.
pub open spec fn spec_event_passes(f: EventFilter, ev: events::EventLog) -> bool {
    &&& (f.account matches Some(accts) ==> exists|i: int|
        0 <= i < accts@.len() && events::spec_event_addresses(ev.content).contains(
            (#[trigger] accts@[i])@,
        ))
    &&& (f.kind matches Some(kinds) ==> kinds@.contains(events::spec_event_kind(ev.content)))
    &&& (f.symbol matches Some(syms) ==> exists|i: int|
        0 <= i < syms@.len() && events::spec_event_symbol(ev.content) == Some(
            (#[trigger] syms@[i])@,
        ))
    &&& (f.id_start matches Some(lo) ==> !bytestr::spec_lex_lt(ev.id@, lo@))
    &&& (f.id_end matches Some(hi) ==> !bytestr::spec_lex_lt(hi@, ev.id@))
    &&& (f.date_start matches Some(lo) ==> ev.time.secs >= lo)
    &&& (f.date_end matches Some(hi) ==> ev.time.secs <= hi)
}

/// Decides whether a logged event passes a filter.
fn event_passes(ev: &events::EventLog, f: &EventFilter) -> (r: bool)
    ensures
        r == spec_event_passes(*f, *ev),
{
    match &f.account {
        Some(accts) => {
            let n = accts.len();
            let mut i: usize = 0;
            let mut hit = false;
            while i < n
                invariant
                    i <= n,
                    n == accts@.len(),
                    hit ==> (exists|t: int|
                        0 <= t < accts@.len() && events::spec_event_addresses(
                            ev.content,
                        ).contains((#[trigger] accts@[t])@)),
                    !hit ==> (forall|t: int|
                        0 <= t < i ==> !events::spec_event_addresses(ev.content).contains(
                            (#[trigger] accts@[t])@,
                        )),
                decreases n - i,
            {
                if ev.is_about(&accts[i]) {
                    hit = true;
                }
                i = i + 1;
            }
            if !hit {
                return false;
            }
        },
        None => {},
    }
    match &f.kind {
        Some(kinds) => {
            let k = ev.kind();
            let n = kinds.len();
            let mut i: usize = 0;
            let mut hit = false;
            while i < n
                invariant
                    i <= n,
                    n == kinds@.len(),
                    k == events::spec_event_kind(ev.content),
                    hit ==> kinds@.contains(events::spec_event_kind(ev.content)),
                    !hit ==> (forall|t: int|
                        0 <= t < i ==> (#[trigger] kinds@[t]) != events::spec_event_kind(
                            ev.content,
                        )),
                decreases n - i,
            {
                if kinds[i] == k {
                    assert(kinds@[i as int] == events::spec_event_kind(ev.content));
                    assert(kinds@.contains(events::spec_event_kind(ev.content)));
                    hit = true;
                }
                i = i + 1;
            }
            if !hit {
                return false;
            }
        },
        None => {},
    }
    match &f.symbol {
        Some(syms) => {
            let sym = ev.symbol();
            match sym {
                Some(sy) => {
                    let n = syms.len();
                    let mut i: usize = 0;
                    let mut hit = false;
                    while i < n
                        invariant
                            i <= n,
                            n == syms@.len(),
                            events::spec_event_symbol(ev.content) == Some(sy@),
                            hit ==> (exists|t: int|
                                0 <= t < syms@.len() && events::spec_event_symbol(ev.content)
                                    == Some((#[trigger] syms@[t])@)),
                            !hit ==> (forall|t: int|
                                0 <= t < i ==> (#[trigger] syms@[t])@ != sy@),
                        decreases n - i,
                    {
                        if &syms[i] == sy {
                            assert(syms@[i as int]@ == sy@);
                            hit = true;
                        } else {
                            assert(syms@[i as int]@ != sy@);
                        }
                        i = i + 1;
                    }
                    if !hit {
                        return false;
                    }
                },
                None => {
                    return false;
                },
            }
        },
        None => {},
    }
    let idb = ev.id.to_vec();
    match &f.id_start {
        Some(lo) => {
            if bytestr::lex_lt(&idb, lo) {
                return false;
            }
        },
        None => {},
    }
    match &f.id_end {
        Some(hi) => {
            if bytestr::lex_lt(hi, &idb) {
                return false;
            }
        },
        None => {},
    }
    match &f.date_start {
        Some(lo) => {
            if ev.time.as_secs() < *lo {
                return false;
            }
        },
        None => {},
    }
    match &f.date_end {
        Some(hi) => {
            if ev.time.as_secs() > *hi {
                return false;
            }
        },
        None => {},
    }
    true
}

/// Every event in the sequence passes the filter and is one whole stored
/// log entry of the given state.
pub open spec fn spec_events_listed(
    f: EventFilter,
    wv: Map<Seq<u8>, Seq<u8>>,
    s: Seq<events::EventLog>,
) -> bool {
    forall|t: int|
        0 <= t < s.len() ==> (spec_event_passes(f, #[trigger] s[t]) && (exists|k: Seq<u8>|
            wv.contains_key(k) && wv[k] == events::spec_enc_event_log(s[t])))
}

impl KvStoreStorage {
    /// Lists the logged events that pass the filter, in identifier order
    /// (the storage order of the event namespace), newest first when asked
    /// for the descending order, truncated to `count` when one is given.
    /// Every returned event is one whole stored log entry.
    pub fn list_events(&self, count: Option<u64>, order: crate::types::SortOrder, filter: &EventFilter)
        -> (r: Vec<events::EventLog>)
        requires
            self.wf(),
        ensures
            spec_events_listed(*filter, self.working_view(), r@),
            count matches Some(c) ==> r@.len() <= c,
    {
        let entries = self.persistent_store.working_entries();
        let ghost wv = self.working_view();
        let mut out: Vec<events::EventLog> = Vec::new();
        let n = entries.len();
        let mut i: usize = 0;
        while i < n
            invariant
                i <= n,
                n == entries@.len(),
                crate::storage::entries_view(entries@) == self.working_entry_views_pub(),
                crate::storage::kv_sorted(crate::storage::entries_view(entries@)),
                crate::storage::kv_view(crate::storage::entries_view(entries@)) == wv,
                wv == self.working_view(),
                spec_events_listed(*filter, wv, out@),
            decreases n - i,
        {
            let key = &entries[i].0;
            if key.len() >= 8 {
                let mut is_event = true;
                let prefix = event_key(&Vec::new());
                let mut p: usize = 0;
                while p < 8
                    invariant
                        p <= 8,
                        prefix@.len() == 8,
                        key@.len() >= 8,
                        is_event ==> (forall|q: int| 0 <= q < p ==> key@[q] == prefix@[q]),
                    decreases 8 - p,
                {
                    if key[p] != prefix[p] {
                        is_event = false;
                    }
                    p = p + 1;
                }
                if is_event {
                    match events::EventLog::from_bytes(&entries[i].1) {
                        Ok(ev) => {
                            if event_passes(&ev, filter) {
                                proof {
                                    crate::storage::lemma_kv_view_value(
                                        crate::storage::entries_view(entries@),
                                        i as int,
                                    );
                                    assert(crate::storage::entries_view(entries@)[i as int].0
                                        == entries@[i as int].0@);
                                    assert(wv.contains_key(entries@[i as int].0@));
                                    assert(wv[entries@[i as int].0@] == entries@[i as int].1@);
                                    assert(wv[entries@[i as int].0@]
                                        == events::spec_enc_event_log(ev));
                                }
                                out.push(ev);
                            }
                        },
                        Err(_) => {},
                    }
                }
            }
            i = i + 1;
        }
        match order {
            crate::types::SortOrder::Descending => {
                let mut rev: Vec<events::EventLog> = Vec::new();
                loop
                    invariant
                        spec_events_listed(*filter, wv, out@),
                        spec_events_listed(*filter, wv, rev@),
                        wv == self.working_view(),
                    decreases out@.len(),
                {
                    match out.pop() {
                        Some(ev) => {
                            rev.push(ev);
                        },
                        None => {
                            break ;
                        },
                    }
                }
                out = rev;
            },
            _ => {},
        }
        proof {
            assert(spec_events_listed(*filter, wv, out@));
        }
        match count {
            Some(c) => {
                if (out.len() as u64) > c {
                    let ghost pre = out@;
                    proof {
                        assert(spec_events_listed(*filter, wv, pre));
                    }
                    out.truncate(c as usize);
                    proof {
                        assert forall|t: int| 0 <= t < out@.len() implies (spec_event_passes(
                            *filter,
                            #[trigger] out@[t],
                        ) && (exists|k: Seq<u8>|
                            wv.contains_key(k) && wv[k] == events::spec_enc_event_log(
                                out@[t],
                            ))) by {
                            assert(out@[t] == pre[t]);
                        }
                    }
                }
            },
            None => {},
        }
        proof {
            assert(wv == self.working_view());
            assert(spec_events_listed(*filter, wv, out@));
            assert(spec_events_listed(*filter, self.working_view(), out@));
        }
        out
    }

    /// The staged entries, as the engine keeps them.
    pub closed spec fn working_entry_views_pub(&self) -> Seq<(Seq<u8>, Seq<u8>)> {
        self.persistent_store.working_entry_views()
    }

    /// The total number of events the filterless listing returns, and the
    /// distinct kinds among them.
    pub fn info_events(&self) -> (r: (u64, Vec<events::EventKind>))
        requires
            self.wf(),
        ensures
            forall|i: int, j: int| 0 <= i < j < r.1@.len() ==> r.1@[i] != r.1@[j],
    {
        let filter = EventFilter {
            account: None,
            kind: None,
            symbol: None,
            id_start: None,
            id_end: None,
            date_start: None,
            date_end: None,
        };
        let all = self.list_events(None, crate::types::SortOrder::Ascending, &filter);
        let mut kinds: Vec<events::EventKind> = Vec::new();
        let n = all.len();
        let mut i: usize = 0;
        while i < n
            invariant
                i <= n,
                n == all@.len(),
                forall|x: int, y: int| 0 <= x < y < kinds@.len() ==> kinds@[x] != kinds@[y],
            decreases n - i,
        {
            let k = all[i].kind();
            let kn = kinds.len();
            let mut j: usize = 0;
            let mut seen = false;
            while j < kn
                invariant
                    j <= kn,
                    kn == kinds@.len(),
                    forall|x: int, y: int| 0 <= x < y < kinds@.len() ==> kinds@[x] != kinds@[y],
                    !seen ==> (forall|t: int| 0 <= t < j ==> kinds@[t] != k),
                decreases kn - j,
            {
                if kinds[j] == k {
                    seen = true;
                }
                j = j + 1;
            }
            if !seen {
                kinds.push(k);
            }
            i = i + 1;
        }
        ((all.len() as u64), kinds)
    }
}

/// Law: the root hash a store commits to depends on the committed key-value
/// map alone. Two well-formed stores whose committed maps agree report the
/// same hash, byte for byte.
pub proof fn lemma_store_hash_deterministic(s1: &KvStoreStorage, s2: &KvStoreStorage)
    requires
        s1.wf(),
        s2.wf(),
        s1.committed_view() == s2.committed_view(),
    ensures
        s1.committed_entries() == s2.committed_entries(),
        crate::storage::spec_root_hash(s1.committed_entries()) == crate::storage::spec_root_hash(
            s2.committed_entries(),
        ),
{
    crate::storage::lemma_root_hash_deterministic(s1.persistent_store, s2.persistent_store);
}

} // verus!
