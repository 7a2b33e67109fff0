//! The event model: the closed, versioned event kind hierarchy, the tagged
//! event payload union with its nested multisig transactions, the event log
//! entry, and their canonical codecs.

use crate::cbor;
use crate::cbor::CborError;
use crate::eventid;
use crate::eventid::EventId;
use crate::protocol;
use crate::protocol::ResponseMessage;
use crate::types;
use crate::types::{Address, Symbol, Timestamp};
use vstd::prelude::*;

verus! {

/// The closed set of event kinds. Each kind names a position in the
/// attribute hierarchy: a module attribute id followed by nested indices.
#[derive(Clone, Copy, Debug, PartialEq, Eq, Structural)]
pub enum EventKind {
    Send,
    AccountDisable,
    AccountMultisigSubmit,
    AccountMultisigApprove,
    AccountMultisigRevoke,
    AccountMultisigExecute,
    AccountMultisigWithdraw,
    AccountMultisigSetDefaults,
    AccountMultisigExpired,
    KvStorePut,
    KvStoreDisable,
    KvStoreTransfer,
    TokenMint,
    TokenBurn,
}

/// The attribute id and nested indices of a kind: the ledger module owns
/// attribute 6, the key-value store module attribute 7, the account module
/// attribute 9 (with the multisig feature under index 1), and the token
/// extension attribute 12.
pub open spec fn spec_kind_index(k: EventKind) -> (u64, Seq<u64>) {
    match k {
        EventKind::Send => (6, seq![0u64]),
        EventKind::AccountDisable => (9, seq![4u64]),
        EventKind::AccountMultisigSubmit => (9, seq![1u64, 0u64]),
        EventKind::AccountMultisigApprove => (9, seq![1u64, 1u64]),
        EventKind::AccountMultisigRevoke => (9, seq![1u64, 2u64]),
        EventKind::AccountMultisigExecute => (9, seq![1u64, 3u64]),
        EventKind::AccountMultisigWithdraw => (9, seq![1u64, 4u64]),
        EventKind::AccountMultisigSetDefaults => (9, seq![1u64, 5u64]),
        EventKind::AccountMultisigExpired => (9, seq![1u64, 6u64]),
        EventKind::KvStorePut => (7, seq![0u64]),
        EventKind::KvStoreDisable => (7, seq![1u64]),
        EventKind::KvStoreTransfer => (7, seq![2u64]),
        EventKind::TokenMint => (12, seq![0u64]),
        EventKind::TokenBurn => (12, seq![1u64]),
    }
}

/// The encoding of a sequence of sub-indices, one unsigned integer each.
pub open spec fn spec_enc_subs(s: Seq<u64>) -> Seq<u8>
    decreases s.len(),
{
    if s.len() == 0 {
        Seq::empty()
    } else {
        cbor::spec_enc_uint(s[0]) + spec_enc_subs(s.drop_first())
    }
}

/// The canonical encoding of a kind: a two-element array holding the
/// attribute id and the array of nested indices.
pub open spec fn spec_enc_kind(k: EventKind) -> Seq<u8> {
    let (attr, subs) = spec_kind_index(k);
    cbor::spec_hdr(cbor::MAJOR_ARRAY, 2) + cbor::spec_enc_uint(attr) + cbor::spec_hdr(
        cbor::MAJOR_ARRAY,
        subs.len() as u64,
    ) + spec_enc_subs(subs)
}

/// Appends the canonical encoding of a kind with one nested index.
fn encode_kind_1(attr: u64, s0: u64, out: &mut Vec<u8>)
    ensures
        final(out)@ == old(out)@ + (cbor::spec_hdr(cbor::MAJOR_ARRAY, 2) + cbor::spec_enc_uint(attr)
            + cbor::spec_hdr(cbor::MAJOR_ARRAY, 1) + spec_enc_subs(seq![s0])),
{
    cbor::encode_hdr(cbor::MAJOR_ARRAY, 2, out);
    cbor::encode_uint(attr, out);
    cbor::encode_hdr(cbor::MAJOR_ARRAY, 1, out);
    cbor::encode_uint(s0, out);
    proof {
        reveal_with_fuel(spec_enc_subs, 3);
        assert(seq![s0].drop_first() =~= Seq::<u64>::empty());
        assert(spec_enc_subs(seq![s0]) =~= cbor::spec_enc_uint(s0));
        assert(out@ =~= old(out)@ + (cbor::spec_hdr(cbor::MAJOR_ARRAY, 2) + cbor::spec_enc_uint(
            attr,
        ) + cbor::spec_hdr(cbor::MAJOR_ARRAY, 1) + spec_enc_subs(seq![s0])));
    }
}

/// Appends the canonical encoding of a kind with two nested indices.
fn encode_kind_2(attr: u64, s0: u64, s1: u64, out: &mut Vec<u8>)
    ensures
        final(out)@ == old(out)@ + (cbor::spec_hdr(cbor::MAJOR_ARRAY, 2) + cbor::spec_enc_uint(attr)
            + cbor::spec_hdr(cbor::MAJOR_ARRAY, 2) + spec_enc_subs(seq![s0, s1])),
{
    cbor::encode_hdr(cbor::MAJOR_ARRAY, 2, out);
    cbor::encode_uint(attr, out);
    cbor::encode_hdr(cbor::MAJOR_ARRAY, 2, out);
    cbor::encode_uint(s0, out);
    cbor::encode_uint(s1, out);
    proof {
        reveal_with_fuel(spec_enc_subs, 4);
        assert(seq![s0, s1].drop_first() =~= seq![s1]);
        assert(seq![s1].drop_first() =~= Seq::<u64>::empty());
        assert(spec_enc_subs(seq![s0, s1]) =~= cbor::spec_enc_uint(s0) + cbor::spec_enc_uint(s1));
        assert(out@ =~= old(out)@ + (cbor::spec_hdr(cbor::MAJOR_ARRAY, 2) + cbor::spec_enc_uint(
            attr,
        ) + cbor::spec_hdr(cbor::MAJOR_ARRAY, 2) + spec_enc_subs(seq![s0, s1])));
    }
}

/// Appends the canonical encoding of the kind `k`.
pub fn encode_kind(k: EventKind, out: &mut Vec<u8>)
    ensures
        final(out)@ == old(out)@ + spec_enc_kind(k),
{
    match k {
        EventKind::Send => encode_kind_1(6, 0, out),
        EventKind::AccountDisable => encode_kind_1(9, 4, out),
        EventKind::AccountMultisigSubmit => encode_kind_2(9, 1, 0, out),
        EventKind::AccountMultisigApprove => encode_kind_2(9, 1, 1, out),
        EventKind::AccountMultisigRevoke => encode_kind_2(9, 1, 2, out),
        EventKind::AccountMultisigExecute => encode_kind_2(9, 1, 3, out),
        EventKind::AccountMultisigWithdraw => encode_kind_2(9, 1, 4, out),
        EventKind::AccountMultisigSetDefaults => encode_kind_2(9, 1, 5, out),
        EventKind::AccountMultisigExpired => encode_kind_2(9, 1, 6, out),
        EventKind::KvStorePut => encode_kind_1(7, 0, out),
        EventKind::KvStoreDisable => encode_kind_1(7, 1, out),
        EventKind::KvStoreTransfer => encode_kind_1(7, 2, out),
        EventKind::TokenMint => encode_kind_1(12, 0, out),
        EventKind::TokenBurn => encode_kind_1(12, 1, out),
    }
}

/// Reads a kind at `pos`. An index outside the closed set is an error.
pub fn decode_kind(b: &Vec<u8>, pos: usize) -> (r: Result<(EventKind, usize), CborError>)
    ensures
        r matches Ok((k, end)) ==> {
            &&& pos < end <= b@.len()
            &&& b@.subrange(pos as int, end as int) == spec_enc_kind(k)
        },
{
    let (n, a_end) = cbor::decode_array_hdr(b, pos)?;
    if n != 2 {
        return Err(CborError::Invalid);
    }
    let (attr, attr_end) = cbor::decode_uint(b, a_end)?;
    let (sn, s_end) = cbor::decode_array_hdr(b, attr_end)?;
    if sn == 1 {
        let (s0, e0) = cbor::decode_uint(b, s_end)?;
        let k = if attr == 6 && s0 == 0 {
            EventKind::Send
        } else if attr == 9 && s0 == 4 {
            EventKind::AccountDisable
        } else if attr == 7 && s0 == 0 {
            EventKind::KvStorePut
        } else if attr == 7 && s0 == 1 {
            EventKind::KvStoreDisable
        } else if attr == 7 && s0 == 2 {
            EventKind::KvStoreTransfer
        } else if attr == 12 && s0 == 0 {
            EventKind::TokenMint
        } else if attr == 12 && s0 == 1 {
            EventKind::TokenBurn
        } else {
            return Err(CborError::Invalid);
        };
        proof {
            reveal_with_fuel(spec_enc_subs, 3);
            assert(seq![s0].drop_first() =~= Seq::<u64>::empty());
            assert(spec_enc_subs(seq![s0]) =~= cbor::spec_enc_uint(s0));
            cbor::lemma_subrange_concat(b@, pos as int, a_end as int, attr_end as int);
            cbor::lemma_subrange_concat(b@, pos as int, attr_end as int, s_end as int);
            cbor::lemma_subrange_concat(b@, pos as int, s_end as int, e0 as int);
            assert(b@.subrange(pos as int, e0 as int) == spec_enc_kind(k));
        }
        Ok((k, e0))
    } else if sn == 2 {
        let (s0, e0) = cbor::decode_uint(b, s_end)?;
        let (s1, e1) = cbor::decode_uint(b, e0)?;
        if attr != 9 || s0 != 1 || s1 > 6 {
            return Err(CborError::Invalid);
        }
        let k = if s1 == 0 {
            EventKind::AccountMultisigSubmit
        } else if s1 == 1 {
            EventKind::AccountMultisigApprove
        } else if s1 == 2 {
            EventKind::AccountMultisigRevoke
        } else if s1 == 3 {
            EventKind::AccountMultisigExecute
        } else if s1 == 4 {
            EventKind::AccountMultisigWithdraw
        } else if s1 == 5 {
            EventKind::AccountMultisigSetDefaults
        } else {
            EventKind::AccountMultisigExpired
        };
        proof {
            reveal_with_fuel(spec_enc_subs, 4);
            assert(seq![s0, s1].drop_first() =~= seq![s1]);
            assert(seq![s1].drop_first() =~= Seq::<u64>::empty());
            assert(spec_enc_subs(seq![s0, s1]) =~= cbor::spec_enc_uint(s0) + cbor::spec_enc_uint(
                s1,
            ));
            cbor::lemma_subrange_concat(b@, pos as int, a_end as int, attr_end as int);
            cbor::lemma_subrange_concat(b@, pos as int, attr_end as int, s_end as int);
            cbor::lemma_subrange_concat(b@, pos as int, s_end as int, e0 as int);
            cbor::lemma_subrange_concat(b@, pos as int, e0 as int, e1 as int);
            assert(b@.subrange(pos as int, e1 as int) == spec_enc_kind(k));
        }
        Ok((k, e1))
    } else {
        Err(CborError::Invalid)
    }
}

/// The encoding of an optional address: `null` when absent.
pub open spec fn spec_enc_opt_address(o: Option<Address>) -> Seq<u8> {
    match o {
        Some(a) => types::spec_enc_address(a@),
        None => seq![cbor::BYTE_NULL],
    }
}

/// Appends an optional address.
pub fn encode_opt_address(o: &Option<Address>, out: &mut Vec<u8>)
    ensures
        final(out)@ == old(out)@ + spec_enc_opt_address(*o),
{
    match o {
        Some(a) => types::encode_address(a, out),
        None => cbor::encode_null(out),
    }
}

/// Reads an optional address.
pub fn decode_opt_address(b: &Vec<u8>, pos: usize) -> (r: Result<
    (Option<Address>, usize),
    CborError,
>)
    ensures
        r matches Ok((o, end)) ==> {
            &&& pos < end <= b@.len()
            &&& b@.subrange(pos as int, end as int) == spec_enc_opt_address(o)
        },
{
    let blen = b.len();
    if cbor::peek_null(b, pos) {
        assert(pos < blen);
        assert(b@.subrange(pos as int, pos as int + 1) =~= seq![cbor::BYTE_NULL]);
        return Ok((None, pos + 1));
    }
    let (a, end) = types::decode_address(b, pos)?;
    Ok((Some(a), end))
}

/// The encoding of an optional text string: `null` when absent.
pub open spec fn spec_enc_opt_text(o: Option<String>) -> Seq<u8> {
    match o {
        Some(s) => cbor::spec_enc_text(s@),
        None => seq![cbor::BYTE_NULL],
    }
}

/// Appends an optional text string.
pub fn encode_opt_text(o: &Option<String>, out: &mut Vec<u8>)
    ensures
        final(out)@ == old(out)@ + spec_enc_opt_text(*o),
{
    match o {
        Some(s) => cbor::encode_text(s, out),
        None => cbor::encode_null(out),
    }
}

/// Reads an optional text string.
pub fn decode_opt_text(b: &Vec<u8>, pos: usize) -> (r: Result<(Option<String>, usize), CborError>)
    ensures
        r matches Ok((o, end)) ==> {
            &&& pos < end <= b@.len()
            &&& b@.subrange(pos as int, end as int) == spec_enc_opt_text(o)
        },
{
    let blen = b.len();
    if cbor::peek_null(b, pos) {
        assert(pos < blen);
        assert(b@.subrange(pos as int, pos as int + 1) =~= seq![cbor::BYTE_NULL]);
        return Ok((None, pos + 1));
    }
    let (s, end) = cbor::decode_text(b, pos)?;
    Ok((Some(s), end))
}

/// The encoding of an optional byte string: `null` when absent.
pub open spec fn spec_enc_opt_bytes(o: Option<Vec<u8>>) -> Seq<u8> {
    match o {
        Some(v) => cbor::spec_enc_bytes(v@),
        None => seq![cbor::BYTE_NULL],
    }
}

/// Appends an optional byte string.
pub fn encode_opt_bytes(o: &Option<Vec<u8>>, out: &mut Vec<u8>)
    ensures
        final(out)@ == old(out)@ + spec_enc_opt_bytes(*o),
{
    match o {
        Some(v) => cbor::encode_bytes(v, out),
        None => cbor::encode_null(out),
    }
}

/// Reads an optional byte string.
pub fn decode_opt_bytes(b: &Vec<u8>, pos: usize) -> (r: Result<(Option<Vec<u8>>, usize), CborError>)
    ensures
        r matches Ok((o, end)) ==> {
            &&& pos < end <= b@.len()
            &&& b@.subrange(pos as int, end as int) == spec_enc_opt_bytes(o)
        },
{
    let blen = b.len();
    if cbor::peek_null(b, pos) {
        assert(pos < blen);
        assert(b@.subrange(pos as int, pos as int + 1) =~= seq![cbor::BYTE_NULL]);
        return Ok((None, pos + 1));
    }
    let (v, end) = cbor::decode_bytes(b, pos)?;
    Ok((Some(v), end))
}

/// The encoding of an optional unsigned integer: `null` when absent.
pub open spec fn spec_enc_opt_u64(o: Option<u64>) -> Seq<u8> {
    match o {
        Some(v) => cbor::spec_enc_uint(v),
        None => seq![cbor::BYTE_NULL],
    }
}

/// Appends an optional unsigned integer.
pub fn encode_opt_u64(o: &Option<u64>, out: &mut Vec<u8>)
    ensures
        final(out)@ == old(out)@ + spec_enc_opt_u64(*o),
{
    match o {
        Some(v) => cbor::encode_uint(*v, out),
        None => cbor::encode_null(out),
    }
}

/// Reads an optional unsigned integer.
pub fn decode_opt_u64(b: &Vec<u8>, pos: usize) -> (r: Result<(Option<u64>, usize), CborError>)
    ensures
        r matches Ok((o, end)) ==> {
            &&& pos < end <= b@.len()
            &&& b@.subrange(pos as int, end as int) == spec_enc_opt_u64(o)
        },
{
    let blen = b.len();
    if cbor::peek_null(b, pos) {
        assert(pos < blen);
        assert(b@.subrange(pos as int, pos as int + 1) =~= seq![cbor::BYTE_NULL]);
        return Ok((None, pos + 1));
    }
    let (v, end) = cbor::decode_uint(b, pos)?;
    Ok((Some(v), end))
}

/// The encoding of an optional boolean: `null` when absent.
pub open spec fn spec_enc_opt_bool(o: Option<bool>) -> Seq<u8> {
    match o {
        Some(v) => cbor::spec_enc_bool(v),
        None => seq![cbor::BYTE_NULL],
    }
}

/// Appends an optional boolean.
pub fn encode_opt_bool(o: &Option<bool>, out: &mut Vec<u8>)
    ensures
        final(out)@ == old(out)@ + spec_enc_opt_bool(*o),
{
    match o {
        Some(v) => cbor::encode_bool(*v, out),
        None => cbor::encode_null(out),
    }
}

/// Reads an optional boolean.
pub fn decode_opt_bool(b: &Vec<u8>, pos: usize) -> (r: Result<(Option<bool>, usize), CborError>)
    ensures
        r matches Ok((o, end)) ==> {
            &&& pos < end <= b@.len()
            &&& b@.subrange(pos as int, end as int) == spec_enc_opt_bool(o)
        },
{
    let blen = b.len();
    if cbor::peek_null(b, pos) {
        assert(pos < blen);
        assert(b@.subrange(pos as int, pos as int + 1) =~= seq![cbor::BYTE_NULL]);
        return Ok((None, pos + 1));
    }
    let (v, end) = cbor::decode_bool(b, pos)?;
    Ok((Some(v), end))
}

/// One entry of a token distribution: an address and an amount.
pub type DistEntry = (Address, u64);

/// The concatenated encodings of distribution entries, in wire order.
pub open spec fn spec_enc_dist_entries(s: Seq<DistEntry>) -> Seq<u8>
    decreases s.len(),
{
    if s.len() == 0 {
        Seq::empty()
    } else {
        types::spec_enc_address(s[0].0@) + cbor::spec_enc_uint(s[0].1) + spec_enc_dist_entries(
            s.drop_first(),
        )
    }
}

/// The encoding of a token distribution: a map from address to amount.
pub open spec fn spec_enc_dist(s: Seq<DistEntry>) -> Seq<u8> {
    cbor::spec_hdr(cbor::MAJOR_MAP, s.len() as u64) + spec_enc_dist_entries(s)
}

/// Appending an entry extends the entries' encoding by that entry's.
pub proof fn lemma_enc_dist_push(s: Seq<DistEntry>, e: DistEntry)
    ensures
        spec_enc_dist_entries(s.push(e)) == spec_enc_dist_entries(s) + (types::spec_enc_address(
            e.0@,
        ) + cbor::spec_enc_uint(e.1)),
    decreases s.len(),
{
    let s2 = s.push(e);
    if s.len() == 0 {
        assert(s2[0] == e);
        assert(s2.drop_first() =~= Seq::<DistEntry>::empty());
        assert(spec_enc_dist_entries(s2.drop_first()) =~= Seq::<u8>::empty());
        assert(spec_enc_dist_entries(s2) =~= spec_enc_dist_entries(s) + (types::spec_enc_address(
            e.0@,
        ) + cbor::spec_enc_uint(e.1)));
    } else {
        assert(s2.drop_first() =~= s.drop_first().push(e));
        lemma_enc_dist_push(s.drop_first(), e);
        assert(s2[0] == s[0]);
        assert(spec_enc_dist_entries(s2) =~= spec_enc_dist_entries(s) + (types::spec_enc_address(
            e.0@,
        ) + cbor::spec_enc_uint(e.1)));
    }
}

/// Appends the encoding of a token distribution.
#[verifier::loop_isolation(false)]
pub fn encode_dist(s: &Vec<DistEntry>, out: &mut Vec<u8>)
    ensures
        final(out)@ == old(out)@ + spec_enc_dist(s@),
{
    cbor::encode_hdr(cbor::MAJOR_MAP, s.len() as u64, out);
    let ghost base = out@;
    let n = s.len();
    let mut i: usize = 0;
    while i < n
        invariant
            i <= n,
            out@ == base + spec_enc_dist_entries(s@.take(i as int)),
        decreases n - i,
    {
        proof {
            assert(s@.take(i as int + 1) =~= s@.take(i as int).push(s@[i as int]));
            lemma_enc_dist_push(s@.take(i as int), s@[i as int]);
        }
        types::encode_address(&s[i].0, out);
        cbor::encode_uint(s[i].1, out);
        i = i + 1;
    }
    assert(s@.take(n as int) =~= s@);
    assert(out@ =~= old(out)@ + spec_enc_dist(s@));
}

/// Reads a token distribution.
#[verifier::loop_isolation(false)]
pub fn decode_dist(b: &Vec<u8>, pos: usize) -> (r: Result<(Vec<DistEntry>, usize), CborError>)
    ensures
        r matches Ok((s, end)) ==> {
            &&& pos < end <= b@.len()
            &&& b@.subrange(pos as int, end as int) == spec_enc_dist(s@)
        },
{
    let (n, hdr_end) = cbor::decode_map_hdr(b, pos)?;
    let mut entries: Vec<DistEntry> = Vec::new();
    let mut cur = hdr_end;
    let mut j: u64 = 0;
    while j < n
        invariant
            j <= n,
            j == entries@.len(),
            hdr_end <= cur <= b@.len(),
            b@.subrange(hdr_end as int, cur as int) == spec_enc_dist_entries(entries@),
        decreases n - j,
    {
        let ghost before = entries@;
        let (a, a_end) = types::decode_address(b, cur)?;
        let (v, v_end) = cbor::decode_uint(b, a_end)?;
        proof {
            lemma_enc_dist_push(before, (a, v));
            cbor::lemma_subrange_concat(b@, cur as int, a_end as int, v_end as int);
            cbor::lemma_subrange_concat(b@, hdr_end as int, cur as int, v_end as int);
        }
        entries.push((a, v));
        cur = v_end;
        j = j + 1;
    }
    proof {
        cbor::lemma_subrange_concat(b@, pos as int, hdr_end as int, cur as int);
    }
    assert(b@.subrange(pos as int, cur as int) == spec_enc_dist(entries@));
    Ok((entries, cur))
}

} // verus!

verus! {

broadcast use crate::cbor::lemma_concat_assoc_bytes;

/// How deeply nested multisig transactions may be.
pub const MAX_TX_DEPTH: u32 = 8;

/// The arguments of a ledger send transaction.
#[derive(Clone, Debug)]
pub struct SendArgs {
    pub from: Option<Address>,
    pub to: Address,
    pub amount: u64,
    pub symbol: Symbol,
}

/// The arguments of a multisig transaction submission. The submitted
/// transaction may itself be a submission, so the type is recursive.
pub struct SubmitTransactionArgs {
    pub account: Address,
    pub memo: Option<String>,
    pub transaction: Box<AccountMultisigTransaction>,
    pub threshold: Option<u64>,
    pub timeout_in_secs: Option<u64>,
    pub execute_automatically: Option<bool>,
    pub data: Option<Vec<u8>>,
}

/// The arguments of a multisig defaults change.
#[derive(Clone, Debug)]
pub struct SetDefaultsArgs {
    pub account: Address,
    pub threshold: Option<u64>,
    pub timeout_in_secs: Option<u64>,
    pub execute_automatically: Option<bool>,
}

/// The transactions that are legal as a multisig payload.
pub enum AccountMultisigTransaction {
    Send(SendArgs),
    AccountMultisigSubmit(SubmitTransactionArgs),
    AccountMultisigSetDefaults(SetDefaultsArgs),
}

/// The kind a multisig transaction is tagged with.
pub open spec fn spec_tx_kind(t: AccountMultisigTransaction) -> EventKind {
    match t {
        AccountMultisigTransaction::Send(_) => EventKind::Send,
        AccountMultisigTransaction::AccountMultisigSubmit(_) => EventKind::AccountMultisigSubmit,
        AccountMultisigTransaction::AccountMultisigSetDefaults(_) => EventKind::AccountMultisigSetDefaults,
    }
}

/// The number of entries in an encoded send-arguments map.
pub open spec fn spec_send_args_map_len(a: SendArgs) -> u64 {
    (3 + (if a.from is Some {
        1int
    } else {
        0
    })) as u64
}

/// The canonical encoding of send arguments: a map with the sender at key
/// 0 (omitted when absent), the recipient at key 1, the amount at key 2 and
/// the symbol at key 3.
pub open spec fn spec_enc_send_args(a: SendArgs) -> Seq<u8> {
    cbor::spec_hdr(cbor::MAJOR_MAP, spec_send_args_map_len(a)) + (if a.from is Some {
        cbor::spec_enc_uint(0) + types::spec_enc_address(a.from->Some_0@)
    } else {
        Seq::<u8>::empty()
    }) + cbor::spec_enc_uint(1) + types::spec_enc_address(a.to@) + cbor::spec_enc_uint(2)
        + cbor::spec_enc_uint(a.amount) + cbor::spec_enc_uint(3) + types::spec_enc_address(
        a.symbol@,
    )
}

/// The number of entries in an encoded submission-arguments map.
pub open spec fn spec_submit_args_map_len(a: SubmitTransactionArgs) -> u64 {
    (2 + (if a.memo is Some {
        1int
    } else {
        0
    }) + (if a.threshold is Some {
        1int
    } else {
        0
    }) + (if a.timeout_in_secs is Some {
        1int
    } else {
        0
    }) + (if a.execute_automatically is Some {
        1int
    } else {
        0
    }) + (if a.data is Some {
        1int
    } else {
        0
    })) as u64
}

/// The canonical encoding of submission arguments: a map with the account
/// at key 0, the memo at key 1, the submitted transaction at key 2, the
/// threshold at key 3, the timeout at key 4, the automatic-execution flag
/// at key 5 and opaque data at key 6; absent optional fields are omitted.
pub open spec fn spec_enc_submit_args(a: SubmitTransactionArgs) -> Seq<u8>
    decreases a,
{
    cbor::spec_hdr(cbor::MAJOR_MAP, spec_submit_args_map_len(a)) + cbor::spec_enc_uint(0)
        + types::spec_enc_address(a.account@) + (if a.memo is Some {
        cbor::spec_enc_uint(1) + cbor::spec_enc_text(a.memo->Some_0@)
    } else {
        Seq::<u8>::empty()
    }) + cbor::spec_enc_uint(2) + spec_enc_tx(*a.transaction) + (if a.threshold is Some {
        cbor::spec_enc_uint(3) + cbor::spec_enc_uint(a.threshold->Some_0)
    } else {
        Seq::<u8>::empty()
    }) + (if a.timeout_in_secs is Some {
        cbor::spec_enc_uint(4) + cbor::spec_enc_uint(a.timeout_in_secs->Some_0)
    } else {
        Seq::<u8>::empty()
    }) + (if a.execute_automatically is Some {
        cbor::spec_enc_uint(5) + cbor::spec_enc_bool(a.execute_automatically->Some_0)
    } else {
        Seq::<u8>::empty()
    }) + (if a.data is Some {
        cbor::spec_enc_uint(6) + cbor::spec_enc_bytes(a.data->Some_0@)
    } else {
        Seq::<u8>::empty()
    })
}

/// The number of entries in an encoded defaults-arguments map.
pub open spec fn spec_setdefaults_args_map_len(a: SetDefaultsArgs) -> u64 {
    (1 + (if a.threshold is Some {
        1int
    } else {
        0
    }) + (if a.timeout_in_secs is Some {
        1int
    } else {
        0
    }) + (if a.execute_automatically is Some {
        1int
    } else {
        0
    })) as u64
}

/// The canonical encoding of defaults arguments: a map with the account at
/// key 0, the threshold at key 1, the timeout at key 2 and the
/// automatic-execution flag at key 3; absent optional fields are omitted.
pub open spec fn spec_enc_setdefaults_args(a: SetDefaultsArgs) -> Seq<u8> {
    cbor::spec_hdr(cbor::MAJOR_MAP, spec_setdefaults_args_map_len(a)) + cbor::spec_enc_uint(0)
        + types::spec_enc_address(a.account@) + (if a.threshold is Some {
        cbor::spec_enc_uint(1) + cbor::spec_enc_uint(a.threshold->Some_0)
    } else {
        Seq::<u8>::empty()
    }) + (if a.timeout_in_secs is Some {
        cbor::spec_enc_uint(2) + cbor::spec_enc_uint(a.timeout_in_secs->Some_0)
    } else {
        Seq::<u8>::empty()
    }) + (if a.execute_automatically is Some {
        cbor::spec_enc_uint(3) + cbor::spec_enc_bool(a.execute_automatically->Some_0)
    } else {
        Seq::<u8>::empty()
    })
}

/// The canonical encoding of a multisig transaction: a two-entry map with
/// its kind at key 0 and its arguments at key 1.
pub open spec fn spec_enc_tx(t: AccountMultisigTransaction) -> Seq<u8>
    decreases t,
{
    cbor::spec_hdr(cbor::MAJOR_MAP, 2) + cbor::spec_enc_uint(0) + spec_enc_kind(spec_tx_kind(t))
        + cbor::spec_enc_uint(1) + (match t {
        AccountMultisigTransaction::Send(a) => spec_enc_send_args(a),
        AccountMultisigTransaction::AccountMultisigSubmit(a) => spec_enc_submit_args(a),
        AccountMultisigTransaction::AccountMultisigSetDefaults(a) => spec_enc_setdefaults_args(a),
    })
}

/// Appends the canonical encoding of send arguments.
#[verifier::rlimit(100)]
#[verifier::spinoff_prover]
pub fn encode_send_args(a: &SendArgs, out: &mut Vec<u8>)
    ensures
        final(out)@ == old(out)@ + spec_enc_send_args(*a),
{
    let n: u64 = 3 + (if a.from.is_some() {
        1u64
    } else {
        0u64
    });
    cbor::encode_hdr(cbor::MAJOR_MAP, n, out);
    match &a.from {
        Some(f) => {
            cbor::encode_uint(0, out);
            types::encode_address(f, out);
        },
        None => {},
    }
    cbor::encode_uint(1, out);
    types::encode_address(&a.to, out);
    cbor::encode_uint(2, out);
    cbor::encode_uint(a.amount, out);
    cbor::encode_uint(3, out);
    types::encode_address(&a.symbol, out);
    assert(out@ =~= old(out)@ + spec_enc_send_args(*a));
}

/// Appends the canonical encoding of defaults arguments.
#[verifier::rlimit(100)]
#[verifier::spinoff_prover]
pub fn encode_setdefaults_args(a: &SetDefaultsArgs, out: &mut Vec<u8>)
    ensures
        final(out)@ == old(out)@ + spec_enc_setdefaults_args(*a),
{
    let n: u64 = 1 + (if a.threshold.is_some() {
        1u64
    } else {
        0u64
    }) + (if a.timeout_in_secs.is_some() {
        1u64
    } else {
        0u64
    }) + (if a.execute_automatically.is_some() {
        1u64
    } else {
        0u64
    });
    cbor::encode_hdr(cbor::MAJOR_MAP, n, out);
    cbor::encode_uint(0, out);
    types::encode_address(&a.account, out);
    match &a.threshold {
        Some(v) => {
            cbor::encode_uint(1, out);
            cbor::encode_uint(*v, out);
        },
        None => {},
    }
    match &a.timeout_in_secs {
        Some(v) => {
            cbor::encode_uint(2, out);
            cbor::encode_uint(*v, out);
        },
        None => {},
    }
    match &a.execute_automatically {
        Some(v) => {
            cbor::encode_uint(3, out);
            cbor::encode_bool(*v, out);
        },
        None => {},
    }
    assert(out@ =~= old(out)@ + spec_enc_setdefaults_args(*a));
}

/// Appends the canonical encoding of submission arguments.
#[verifier::rlimit(100)]
#[verifier::spinoff_prover]
pub fn encode_submit_args(a: &SubmitTransactionArgs, out: &mut Vec<u8>)
    ensures
        final(out)@ == old(out)@ + spec_enc_submit_args(*a),
    decreases *a,
{
    let n: u64 = 2 + (if a.memo.is_some() {
        1u64
    } else {
        0u64
    }) + (if a.threshold.is_some() {
        1u64
    } else {
        0u64
    }) + (if a.timeout_in_secs.is_some() {
        1u64
    } else {
        0u64
    }) + (if a.execute_automatically.is_some() {
        1u64
    } else {
        0u64
    }) + (if a.data.is_some() {
        1u64
    } else {
        0u64
    });
    cbor::encode_hdr(cbor::MAJOR_MAP, n, out);
    cbor::encode_uint(0, out);
    types::encode_address(&a.account, out);
    match &a.memo {
        Some(m) => {
            cbor::encode_uint(1, out);
            cbor::encode_text(m, out);
        },
        None => {},
    }
    cbor::encode_uint(2, out);
    encode_tx(&a.transaction, out);
    match &a.threshold {
        Some(v) => {
            cbor::encode_uint(3, out);
            cbor::encode_uint(*v, out);
        },
        None => {},
    }
    match &a.timeout_in_secs {
        Some(v) => {
            cbor::encode_uint(4, out);
            cbor::encode_uint(*v, out);
        },
        None => {},
    }
    match &a.execute_automatically {
        Some(v) => {
            cbor::encode_uint(5, out);
            cbor::encode_bool(*v, out);
        },
        None => {},
    }
    match &a.data {
        Some(v) => {
            cbor::encode_uint(6, out);
            cbor::encode_bytes(v, out);
        },
        None => {},
    }
    assert(out@ =~= old(out)@ + spec_enc_submit_args(*a));
}

/// Appends the canonical encoding of a multisig transaction.
#[verifier::rlimit(100)]
#[verifier::spinoff_prover]
pub fn encode_tx(t: &AccountMultisigTransaction, out: &mut Vec<u8>)
    ensures
        final(out)@ == old(out)@ + spec_enc_tx(*t),
    decreases *t,
{
    cbor::encode_hdr(cbor::MAJOR_MAP, 2, out);
    cbor::encode_uint(0, out);
    match t {
        AccountMultisigTransaction::Send(a) => {
            encode_kind(EventKind::Send, out);
            cbor::encode_uint(1, out);
            encode_send_args(a, out);
        },
        AccountMultisigTransaction::AccountMultisigSubmit(a) => {
            encode_kind(EventKind::AccountMultisigSubmit, out);
            cbor::encode_uint(1, out);
            proof {
                assert(*t == AccountMultisigTransaction::AccountMultisigSubmit(*a));
                assert(decreases_to!(AccountMultisigTransaction::AccountMultisigSubmit(*a) => *a));
            }
            encode_submit_args(a, out);
        },
        AccountMultisigTransaction::AccountMultisigSetDefaults(a) => {
            encode_kind(EventKind::AccountMultisigSetDefaults, out);
            cbor::encode_uint(1, out);
            encode_setdefaults_args(a, out);
        },
    }
    assert(out@ =~= old(out)@ + spec_enc_tx(*t));
}

/// Reads send arguments at `pos`.
#[verifier::rlimit(100)]
#[verifier::spinoff_prover]
pub fn decode_send_args(b: &Vec<u8>, pos: usize) -> (r: Result<(SendArgs, usize), CborError>)
    ensures
        r matches Ok((a, end)) ==> {
            &&& pos < end <= b@.len()
            &&& b@.subrange(pos as int, end as int) == spec_enc_send_args(a)
        },
{
    let (n, hdr_end) = cbor::decode_map_hdr(b, pos)?;
    if n < 3 || n > 4 {
        return Err(CborError::Invalid);
    }
    let mut cur = hdr_end;
    let mut remaining = n;
    let mut from: Option<Address> = None;
    match protocol::read_opt_address(b, cur, 0, remaining)? {
        Some((a, end)) => {
            from = Some(a);
            cur = end;
            remaining = remaining - 1;
        },
        None => {},
    }
    let ghost p_from = cur;
    if remaining == 0 {
        return Err(CborError::Invalid);
    }
    let (to, to_end) = protocol::read_req_address(b, cur, 1)?;
    cur = to_end;
    remaining = remaining - 1;
    let ghost p_to = cur;
    if remaining == 0 {
        return Err(CborError::Invalid);
    }
    let (k2, k2_end) = cbor::decode_uint(b, cur)?;
    if k2 != 2 {
        return Err(CborError::Invalid);
    }
    let (amount, am_end) = cbor::decode_uint(b, k2_end)?;
    proof {
        cbor::lemma_subrange_concat(b@, cur as int, k2_end as int, am_end as int);
    }
    cur = am_end;
    remaining = remaining - 1;
    let ghost p_amount = cur;
    if remaining == 0 {
        return Err(CborError::Invalid);
    }
    let (symbol, sy_end) = protocol::read_req_address(b, cur, 3)?;
    cur = sy_end;
    remaining = remaining - 1;
    if remaining != 0 {
        return Err(CborError::Invalid);
    }
    let a = SendArgs { from, to, amount, symbol };
    assert(n == spec_send_args_map_len(a));
    proof {
        if a.from is None {
            assert(b@.subrange(hdr_end as int, p_from as int) =~= Seq::<u8>::empty());
        }
        cbor::lemma_subrange_concat(b@, pos as int, hdr_end as int, p_from as int);
        cbor::lemma_subrange_concat(b@, pos as int, p_from as int, p_to as int);
        cbor::lemma_subrange_concat(b@, pos as int, p_to as int, p_amount as int);
        cbor::lemma_subrange_concat(b@, pos as int, p_amount as int, cur as int);
        assert(b@.subrange(pos as int, cur as int) == spec_enc_send_args(a));
    }
    Ok((a, cur))
}

/// Reads defaults arguments at `pos`.
#[verifier::rlimit(100)]
#[verifier::spinoff_prover]
pub fn decode_setdefaults_args(b: &Vec<u8>, pos: usize) -> (r: Result<
    (SetDefaultsArgs, usize),
    CborError,
>)
    ensures
        r matches Ok((a, end)) ==> {
            &&& pos < end <= b@.len()
            &&& b@.subrange(pos as int, end as int) == spec_enc_setdefaults_args(a)
        },
{
    let (n, hdr_end) = cbor::decode_map_hdr(b, pos)?;
    if n < 1 || n > 4 {
        return Err(CborError::Invalid);
    }
    let mut cur = hdr_end;
    let mut remaining = n;
    if remaining == 0 {
        return Err(CborError::Invalid);
    }
    let (account, ac_end) = protocol::read_req_address(b, cur, 0)?;
    cur = ac_end;
    remaining = remaining - 1;
    let ghost p_account = cur;
    let mut threshold: Option<u64> = None;
    match protocol::read_opt_u64(b, cur, 1, remaining)? {
        Some((v, end)) => {
            threshold = Some(v);
            cur = end;
            remaining = remaining - 1;
        },
        None => {},
    }
    let ghost p_threshold = cur;
    let mut timeout_in_secs: Option<u64> = None;
    match protocol::read_opt_u64(b, cur, 2, remaining)? {
        Some((v, end)) => {
            timeout_in_secs = Some(v);
            cur = end;
            remaining = remaining - 1;
        },
        None => {},
    }
    let ghost p_timeout = cur;
    let mut execute_automatically: Option<bool> = None;
    match protocol::read_opt_bool(b, cur, 3, remaining)? {
        Some((v, end)) => {
            execute_automatically = Some(v);
            cur = end;
            remaining = remaining - 1;
        },
        None => {},
    }
    if remaining != 0 {
        return Err(CborError::Invalid);
    }
    let a = SetDefaultsArgs { account, threshold, timeout_in_secs, execute_automatically };
    assert(n == spec_setdefaults_args_map_len(a));
    proof {
        if a.threshold is None {
            assert(b@.subrange(p_account as int, p_threshold as int) =~= Seq::<u8>::empty());
        }
        if a.timeout_in_secs is None {
            assert(b@.subrange(p_threshold as int, p_timeout as int) =~= Seq::<u8>::empty());
        }
        if a.execute_automatically is None {
            assert(b@.subrange(p_timeout as int, cur as int) =~= Seq::<u8>::empty());
        }
        cbor::lemma_subrange_concat(b@, pos as int, hdr_end as int, p_account as int);
        cbor::lemma_subrange_concat(b@, pos as int, p_account as int, p_threshold as int);
        cbor::lemma_subrange_concat(b@, pos as int, p_threshold as int, p_timeout as int);
        cbor::lemma_subrange_concat(b@, pos as int, p_timeout as int, cur as int);
        assert(b@.subrange(pos as int, cur as int) == spec_enc_setdefaults_args(a));
    }
    Ok((a, cur))
}

/// Reads submission arguments at `pos`, descending at most `depth` levels
/// of nested transactions.
#[verifier::rlimit(100)]
#[verifier::spinoff_prover]
pub fn decode_submit_args(b: &Vec<u8>, pos: usize, depth: u32) -> (r: Result<
    (SubmitTransactionArgs, usize),
    CborError,
>)
    ensures
        r matches Ok((a, end)) ==> {
            &&& pos < end <= b@.len()
            &&& b@.subrange(pos as int, end as int) == spec_enc_submit_args(a)
        },
    decreases depth,
{
    if depth == 0 {
        return Err(CborError::Invalid);
    }
    let (n, hdr_end) = cbor::decode_map_hdr(b, pos)?;
    if n < 2 || n > 7 {
        return Err(CborError::Invalid);
    }
    let mut cur = hdr_end;
    let mut remaining = n;
    let (account, ac_end) = protocol::read_req_address(b, cur, 0)?;
    cur = ac_end;
    remaining = remaining - 1;
    let ghost p_account = cur;
    let mut memo: Option<String> = None;
    match protocol::read_opt_text(b, cur, 1, remaining)? {
        Some((v, end)) => {
            memo = Some(v);
            cur = end;
            remaining = remaining - 1;
        },
        None => {},
    }
    let ghost p_memo = cur;
    if remaining == 0 {
        return Err(CborError::Invalid);
    }
    let (k2, k2_end) = cbor::decode_uint(b, cur)?;
    if k2 != 2 {
        return Err(CborError::Invalid);
    }
    let (tx, tx_end) = decode_tx(b, k2_end, depth - 1)?;
    proof {
        cbor::lemma_subrange_concat(b@, cur as int, k2_end as int, tx_end as int);
    }
    cur = tx_end;
    remaining = remaining - 1;
    let ghost p_tx = cur;
    let mut threshold: Option<u64> = None;
    match protocol::read_opt_u64(b, cur, 3, remaining)? {
        Some((v, end)) => {
            threshold = Some(v);
            cur = end;
            remaining = remaining - 1;
        },
        None => {},
    }
    let ghost p_threshold = cur;
    let mut timeout_in_secs: Option<u64> = None;
    match protocol::read_opt_u64(b, cur, 4, remaining)? {
        Some((v, end)) => {
            timeout_in_secs = Some(v);
            cur = end;
            remaining = remaining - 1;
        },
        None => {},
    }
    let ghost p_timeout = cur;
    let mut execute_automatically: Option<bool> = None;
    match protocol::read_opt_bool(b, cur, 5, remaining)? {
        Some((v, end)) => {
            execute_automatically = Some(v);
            cur = end;
            remaining = remaining - 1;
        },
        None => {},
    }
    let ghost p_auto = cur;
    let mut data: Option<Vec<u8>> = None;
    match protocol::read_opt_bytes(b, cur, 6, remaining)? {
        Some((v, end)) => {
            data = Some(v);
            cur = end;
            remaining = remaining - 1;
        },
        None => {},
    }
    if remaining != 0 {
        return Err(CborError::Invalid);
    }
    let a = SubmitTransactionArgs {
        account,
        memo,
        transaction: Box::new(tx),
        threshold,
        timeout_in_secs,
        execute_automatically,
        data,
    };
    assert(n == spec_submit_args_map_len(a));
    proof {
        if a.memo is None {
            assert(b@.subrange(p_account as int, p_memo as int) =~= Seq::<u8>::empty());
        }
        if a.threshold is None {
            assert(b@.subrange(p_tx as int, p_threshold as int) =~= Seq::<u8>::empty());
        }
        if a.timeout_in_secs is None {
            assert(b@.subrange(p_threshold as int, p_timeout as int) =~= Seq::<u8>::empty());
        }
        if a.execute_automatically is None {
            assert(b@.subrange(p_timeout as int, p_auto as int) =~= Seq::<u8>::empty());
        }
        if a.data is None {
            assert(b@.subrange(p_auto as int, cur as int) =~= Seq::<u8>::empty());
        }
        lemma_compose_submit(
            b@,
            pos as int,
            hdr_end as int,
            p_account as int,
            p_memo as int,
            p_tx as int,
            p_threshold as int,
            p_timeout as int,
            p_auto as int,
            cur as int,
            a,
            n,
        );
    }
    Ok((a, cur))
}


/// Composes the per-field byte ranges of decoded submission arguments into
/// the whole canonical encoding.
#[verifier::spinoff_prover]
#[verifier::rlimit(100)]
proof fn lemma_compose_submit(
    bv: Seq<u8>,
    pos: int,
    hdr_end: int,
    p_account: int,
    p_memo: int,
    p_tx: int,
    p_threshold: int,
    p_timeout: int,
    p_auto: int,
    cur: int,
    a: SubmitTransactionArgs,
    n: u64,
)
    requires
        0 <= pos <= hdr_end <= p_account <= p_memo <= p_tx <= p_threshold <= p_timeout <= p_auto
            <= cur <= bv.len(),
        n == spec_submit_args_map_len(a),
        bv.subrange(pos, hdr_end) == cbor::spec_hdr(cbor::MAJOR_MAP, n),
        bv.subrange(hdr_end, p_account) == cbor::spec_enc_uint(0) + types::spec_enc_address(
            a.account@,
        ),
        bv.subrange(p_account, p_memo) == (if a.memo is Some {
            cbor::spec_enc_uint(1) + cbor::spec_enc_text(a.memo->Some_0@)
        } else {
            Seq::<u8>::empty()
        }),
        bv.subrange(p_memo, p_tx) == cbor::spec_enc_uint(2) + spec_enc_tx(*a.transaction),
        bv.subrange(p_tx, p_threshold) == (if a.threshold is Some {
            cbor::spec_enc_uint(3) + cbor::spec_enc_uint(a.threshold->Some_0)
        } else {
            Seq::<u8>::empty()
        }),
        bv.subrange(p_threshold, p_timeout) == (if a.timeout_in_secs is Some {
            cbor::spec_enc_uint(4) + cbor::spec_enc_uint(a.timeout_in_secs->Some_0)
        } else {
            Seq::<u8>::empty()
        }),
        bv.subrange(p_timeout, p_auto) == (if a.execute_automatically is Some {
            cbor::spec_enc_uint(5) + cbor::spec_enc_bool(a.execute_automatically->Some_0)
        } else {
            Seq::<u8>::empty()
        }),
        bv.subrange(p_auto, cur) == (if a.data is Some {
            cbor::spec_enc_uint(6) + cbor::spec_enc_bytes(a.data->Some_0@)
        } else {
            Seq::<u8>::empty()
        }),
    ensures
        bv.subrange(pos, cur) == spec_enc_submit_args(a),
{
    broadcast use crate::cbor::lemma_concat_assoc_bytes;

    cbor::lemma_subrange_concat(bv, pos, hdr_end, p_account);
    cbor::lemma_subrange_concat(bv, pos, p_account, p_memo);
    cbor::lemma_subrange_concat(bv, pos, p_memo, p_tx);
    cbor::lemma_subrange_concat(bv, pos, p_tx, p_threshold);
    cbor::lemma_subrange_concat(bv, pos, p_threshold, p_timeout);
    cbor::lemma_subrange_concat(bv, pos, p_timeout, p_auto);
    cbor::lemma_subrange_concat(bv, pos, p_auto, cur);
    assert(bv.subrange(pos, cur) =~= spec_enc_submit_args(a));
}

/// Reads a multisig transaction at `pos`, descending at most `depth`
/// levels.
#[verifier::rlimit(100)]
#[verifier::spinoff_prover]
pub fn decode_tx(b: &Vec<u8>, pos: usize, depth: u32) -> (r: Result<
    (AccountMultisigTransaction, usize),
    CborError,
>)
    ensures
        r matches Ok((t, end)) ==> {
            &&& pos < end <= b@.len()
            &&& b@.subrange(pos as int, end as int) == spec_enc_tx(t)
        },
    decreases depth,
{
    if depth == 0 {
        return Err(CborError::Invalid);
    }
    let (n, hdr_end) = cbor::decode_map_hdr(b, pos)?;
    if n != 2 {
        return Err(CborError::Invalid);
    }
    let (k0, k0_end) = cbor::decode_uint(b, hdr_end)?;
    if k0 != 0 {
        return Err(CborError::Invalid);
    }
    let (kind, kind_end) = decode_kind(b, k0_end)?;
    let (k1, k1_end) = cbor::decode_uint(b, kind_end)?;
    if k1 != 1 {
        return Err(CborError::Invalid);
    }
    let t: AccountMultisigTransaction;
    let end: usize;
    match kind {
        EventKind::Send => {
            let (a, e) = decode_send_args(b, k1_end)?;
            t = AccountMultisigTransaction::Send(a);
            end = e;
        },
        EventKind::AccountMultisigSubmit => {
            let (a, e) = decode_submit_args(b, k1_end, depth - 1)?;
            t = AccountMultisigTransaction::AccountMultisigSubmit(a);
            end = e;
        },
        EventKind::AccountMultisigSetDefaults => {
            let (a, e) = decode_setdefaults_args(b, k1_end)?;
            t = AccountMultisigTransaction::AccountMultisigSetDefaults(a);
            end = e;
        },
        _ => {
            return Err(CborError::Invalid);
        },
    }
    proof {
        cbor::lemma_subrange_concat(b@, pos as int, hdr_end as int, k0_end as int);
        cbor::lemma_subrange_concat(b@, pos as int, k0_end as int, kind_end as int);
        cbor::lemma_subrange_concat(b@, pos as int, kind_end as int, k1_end as int);
        cbor::lemma_subrange_concat(b@, pos as int, k1_end as int, end as int);
        assert(b@.subrange(pos as int, end as int) == spec_enc_tx(t));
    }
    Ok((t, end))
}

} // verus!

verus! {


/// An event payload: the tagged union over the event kinds.
pub enum EventInfo {
    Send {
        from: Address,
        to: Address,
        symbol: Address,
        amount: u64,
    },
    AccountDisable {
        account: Address,
    },
    AccountMultisigSubmit {
        submitter: Address,
        account: Address,
        memo: Option<String>,
        transaction: Box<AccountMultisigTransaction>,
        token: Option<Vec<u8>>,
        threshold: u64,
        timeout: Timestamp,
        execute_automatically: bool,
        data: Option<Vec<u8>>,
    },
    AccountMultisigApprove {
        account: Address,
        token: Vec<u8>,
        approver: Address,
    },
    AccountMultisigRevoke {
        account: Address,
        token: Vec<u8>,
        revoker: Address,
    },
    AccountMultisigExecute {
        account: Address,
        token: Vec<u8>,
        executer: Option<Address>,
        response: ResponseMessage,
    },
    AccountMultisigWithdraw {
        account: Address,
        token: Vec<u8>,
        withdrawer: Address,
    },
    AccountMultisigSetDefaults {
        submitter: Address,
        account: Address,
        threshold: Option<u64>,
        timeout_in_secs: Option<u64>,
        execute_automatically: Option<bool>,
    },
    AccountMultisigExpired {
        account: Address,
        token: Vec<u8>,
        time: Timestamp,
    },
    KvStorePut {
        key: Vec<u8>,
        value: Vec<u8>,
        owner: Address,
    },
    KvStoreDisable {
        key: Vec<u8>,
        reason: Option<String>,
    },
    KvStoreTransfer {
        key: Vec<u8>,
        owner: Address,
        new_owner: Address,
    },
    TokenMint {
        symbol: Address,
        distribution: Vec<DistEntry>,
        memo: Option<String>,
    },
    TokenBurn {
        symbol: Address,
        distribution: Vec<DistEntry>,
        memo: Option<String>,
    },
}

/// The kind of an event payload.
pub open spec fn spec_event_kind(e: EventInfo) -> EventKind {
    match e {
        EventInfo::Send { .. } => EventKind::Send,
        EventInfo::AccountDisable { .. } => EventKind::AccountDisable,
        EventInfo::AccountMultisigSubmit { .. } => EventKind::AccountMultisigSubmit,
        EventInfo::AccountMultisigApprove { .. } => EventKind::AccountMultisigApprove,
        EventInfo::AccountMultisigRevoke { .. } => EventKind::AccountMultisigRevoke,
        EventInfo::AccountMultisigExecute { .. } => EventKind::AccountMultisigExecute,
        EventInfo::AccountMultisigWithdraw { .. } => EventKind::AccountMultisigWithdraw,
        EventInfo::AccountMultisigSetDefaults { .. } => EventKind::AccountMultisigSetDefaults,
        EventInfo::AccountMultisigExpired { .. } => EventKind::AccountMultisigExpired,
        EventInfo::KvStorePut { .. } => EventKind::KvStorePut,
        EventInfo::KvStoreDisable { .. } => EventKind::KvStoreDisable,
        EventInfo::KvStoreTransfer { .. } => EventKind::KvStoreTransfer,
        EventInfo::TokenMint { .. } => EventKind::TokenMint,
        EventInfo::TokenBurn { .. } => EventKind::TokenBurn,
    }
}

/// The number of payload fields of an event, not counting the kind entry.
pub open spec fn spec_event_nfields(e: EventInfo) -> u64 {
    match e {
        EventInfo::Send { .. } => 4,
        EventInfo::AccountDisable { .. } => 1,
        EventInfo::AccountMultisigSubmit { .. } => 9,
        EventInfo::AccountMultisigApprove { .. } => 3,
        EventInfo::AccountMultisigRevoke { .. } => 3,
        EventInfo::AccountMultisigExecute { .. } => 4,
        EventInfo::AccountMultisigWithdraw { .. } => 3,
        EventInfo::AccountMultisigSetDefaults { .. } => 5,
        EventInfo::AccountMultisigExpired { .. } => 3,
        EventInfo::KvStorePut { .. } => 3,
        EventInfo::KvStoreDisable { .. } => 2,
        EventInfo::KvStoreTransfer { .. } => 3,
        EventInfo::TokenMint { .. } => 3,
        EventInfo::TokenBurn { .. } => 3,
    }
}

/// The concatenated encodings of an event's numbered fields, keys 1 and
/// up, in order; an absent optional value is written as `null`.
pub open spec fn spec_enc_event_fields(e: EventInfo) -> Seq<u8> {
    match e {
        EventInfo::Send { from, to, symbol, amount } => cbor::spec_enc_uint(1) + types::spec_enc_address(from@) + cbor::spec_enc_uint(2) + types::spec_enc_address(to@) + cbor::spec_enc_uint(3) + types::spec_enc_address(symbol@) + cbor::spec_enc_uint(4) + cbor::spec_enc_uint(amount),
        EventInfo::AccountDisable { account } => cbor::spec_enc_uint(1) + types::spec_enc_address(account@),
        EventInfo::AccountMultisigSubmit { submitter, account, memo, transaction, token, threshold, timeout, execute_automatically, data } => cbor::spec_enc_uint(1) + types::spec_enc_address(submitter@) + cbor::spec_enc_uint(2) + types::spec_enc_address(account@) + cbor::spec_enc_uint(3) + spec_enc_opt_text(memo) + cbor::spec_enc_uint(4) + spec_enc_tx(*transaction) + cbor::spec_enc_uint(5) + spec_enc_opt_bytes(token) + cbor::spec_enc_uint(6) + cbor::spec_enc_uint(threshold) + cbor::spec_enc_uint(7) + types::spec_enc_timestamp(timeout) + cbor::spec_enc_uint(8) + cbor::spec_enc_bool(execute_automatically) + cbor::spec_enc_uint(9) + spec_enc_opt_bytes(data),
        EventInfo::AccountMultisigApprove { account, token, approver } => cbor::spec_enc_uint(1) + types::spec_enc_address(account@) + cbor::spec_enc_uint(2) + cbor::spec_enc_bytes(token@) + cbor::spec_enc_uint(3) + types::spec_enc_address(approver@),
        EventInfo::AccountMultisigRevoke { account, token, revoker } => cbor::spec_enc_uint(1) + types::spec_enc_address(account@) + cbor::spec_enc_uint(2) + cbor::spec_enc_bytes(token@) + cbor::spec_enc_uint(3) + types::spec_enc_address(revoker@),
        EventInfo::AccountMultisigExecute { account, token, executer, response } => cbor::spec_enc_uint(1) + types::spec_enc_address(account@) + cbor::spec_enc_uint(2) + cbor::spec_enc_bytes(token@) + cbor::spec_enc_uint(3) + spec_enc_opt_address(executer) + cbor::spec_enc_uint(4) + protocol::spec_enc_response(response),
        EventInfo::AccountMultisigWithdraw { account, token, withdrawer } => cbor::spec_enc_uint(1) + types::spec_enc_address(account@) + cbor::spec_enc_uint(2) + cbor::spec_enc_bytes(token@) + cbor::spec_enc_uint(3) + types::spec_enc_address(withdrawer@),
        EventInfo::AccountMultisigSetDefaults { submitter, account, threshold, timeout_in_secs, execute_automatically } => cbor::spec_enc_uint(1) + types::spec_enc_address(submitter@) + cbor::spec_enc_uint(2) + types::spec_enc_address(account@) + cbor::spec_enc_uint(3) + spec_enc_opt_u64(threshold) + cbor::spec_enc_uint(4) + spec_enc_opt_u64(timeout_in_secs) + cbor::spec_enc_uint(5) + spec_enc_opt_bool(execute_automatically),
        EventInfo::AccountMultisigExpired { account, token, time } => cbor::spec_enc_uint(1) + types::spec_enc_address(account@) + cbor::spec_enc_uint(2) + cbor::spec_enc_bytes(token@) + cbor::spec_enc_uint(3) + types::spec_enc_timestamp(time),
        EventInfo::KvStorePut { key, value, owner } => cbor::spec_enc_uint(1) + cbor::spec_enc_bytes(key@) + cbor::spec_enc_uint(2) + cbor::spec_enc_bytes(value@) + cbor::spec_enc_uint(3) + types::spec_enc_address(owner@),
        EventInfo::KvStoreDisable { key, reason } => cbor::spec_enc_uint(1) + cbor::spec_enc_bytes(key@) + cbor::spec_enc_uint(2) + spec_enc_opt_text(reason),
        EventInfo::KvStoreTransfer { key, owner, new_owner } => cbor::spec_enc_uint(1) + cbor::spec_enc_bytes(key@) + cbor::spec_enc_uint(2) + types::spec_enc_address(owner@) + cbor::spec_enc_uint(3) + types::spec_enc_address(new_owner@),
        EventInfo::TokenMint { symbol, distribution, memo } => cbor::spec_enc_uint(1) + types::spec_enc_address(symbol@) + cbor::spec_enc_uint(2) + spec_enc_dist(distribution@) + cbor::spec_enc_uint(3) + spec_enc_opt_text(memo),
        EventInfo::TokenBurn { symbol, distribution, memo } => cbor::spec_enc_uint(1) + types::spec_enc_address(symbol@) + cbor::spec_enc_uint(2) + spec_enc_dist(distribution@) + cbor::spec_enc_uint(3) + spec_enc_opt_text(memo),
    }
}

/// The canonical encoding of an event payload: a map holding the kind at
/// key 0 and the fields at keys 1 and up; every field of the variant is
/// present.
pub open spec fn spec_enc_event_info(e: EventInfo) -> Seq<u8> {
    cbor::spec_hdr(cbor::MAJOR_MAP, (1 + spec_event_nfields(e)) as u64) + cbor::spec_enc_uint(0)
        + spec_enc_kind(spec_event_kind(e)) + spec_enc_event_fields(e)
}

impl EventInfo {
    /// The kind this payload is tagged with.
    pub fn kind(&self) -> (r: EventKind)
        ensures
            r == spec_event_kind(*self),
    {
        match self {
            EventInfo::Send { .. } => EventKind::Send,
            EventInfo::AccountDisable { .. } => EventKind::AccountDisable,
            EventInfo::AccountMultisigSubmit { .. } => EventKind::AccountMultisigSubmit,
            EventInfo::AccountMultisigApprove { .. } => EventKind::AccountMultisigApprove,
            EventInfo::AccountMultisigRevoke { .. } => EventKind::AccountMultisigRevoke,
            EventInfo::AccountMultisigExecute { .. } => EventKind::AccountMultisigExecute,
            EventInfo::AccountMultisigWithdraw { .. } => EventKind::AccountMultisigWithdraw,
            EventInfo::AccountMultisigSetDefaults { .. } => EventKind::AccountMultisigSetDefaults,
            EventInfo::AccountMultisigExpired { .. } => EventKind::AccountMultisigExpired,
            EventInfo::KvStorePut { .. } => EventKind::KvStorePut,
            EventInfo::KvStoreDisable { .. } => EventKind::KvStoreDisable,
            EventInfo::KvStoreTransfer { .. } => EventKind::KvStoreTransfer,
            EventInfo::TokenMint { .. } => EventKind::TokenMint,
            EventInfo::TokenBurn { .. } => EventKind::TokenBurn,
        }
    }
}

/// Appends the encodings of an event's numbered fields.
#[verifier::rlimit(100)]
#[verifier::spinoff_prover]
pub fn encode_event_fields(e: &EventInfo, out: &mut Vec<u8>)
    ensures
        final(out)@ == old(out)@ + spec_enc_event_fields(*e),
{
    match e {
        EventInfo::Send { from, to, symbol, amount } => {
            cbor::encode_uint(1, out);
            types::encode_address(from, out);
            cbor::encode_uint(2, out);
            types::encode_address(to, out);
            cbor::encode_uint(3, out);
            types::encode_address(symbol, out);
            cbor::encode_uint(4, out);
            cbor::encode_uint(*amount, out);
            assert(out@ =~= old(out)@ + spec_enc_event_fields(*e));
        },
        EventInfo::AccountDisable { account } => {
            cbor::encode_uint(1, out);
            types::encode_address(account, out);
            assert(out@ =~= old(out)@ + spec_enc_event_fields(*e));
        },
        EventInfo::AccountMultisigSubmit { submitter, account, memo, transaction, token, threshold, timeout, execute_automatically, data } => {
            cbor::encode_uint(1, out);
            types::encode_address(submitter, out);
            cbor::encode_uint(2, out);
            types::encode_address(account, out);
            cbor::encode_uint(3, out);
            encode_opt_text(memo, out);
            cbor::encode_uint(4, out);
            encode_tx(transaction, out);
            cbor::encode_uint(5, out);
            encode_opt_bytes(token, out);
            cbor::encode_uint(6, out);
            cbor::encode_uint(*threshold, out);
            cbor::encode_uint(7, out);
            types::encode_timestamp(timeout, out);
            cbor::encode_uint(8, out);
            cbor::encode_bool(*execute_automatically, out);
            cbor::encode_uint(9, out);
            encode_opt_bytes(data, out);
            assert(out@ =~= old(out)@ + spec_enc_event_fields(*e));
        },
        EventInfo::AccountMultisigApprove { account, token, approver } => {
            cbor::encode_uint(1, out);
            types::encode_address(account, out);
            cbor::encode_uint(2, out);
            cbor::encode_bytes(token, out);
            cbor::encode_uint(3, out);
            types::encode_address(approver, out);
            assert(out@ =~= old(out)@ + spec_enc_event_fields(*e));
        },
        EventInfo::AccountMultisigRevoke { account, token, revoker } => {
            cbor::encode_uint(1, out);
            types::encode_address(account, out);
            cbor::encode_uint(2, out);
            cbor::encode_bytes(token, out);
            cbor::encode_uint(3, out);
            types::encode_address(revoker, out);
            assert(out@ =~= old(out)@ + spec_enc_event_fields(*e));
        },
        EventInfo::AccountMultisigExecute { account, token, executer, response } => {
            cbor::encode_uint(1, out);
            types::encode_address(account, out);
            cbor::encode_uint(2, out);
            cbor::encode_bytes(token, out);
            cbor::encode_uint(3, out);
            encode_opt_address(executer, out);
            cbor::encode_uint(4, out);
            let rb = response.to_bytes();
            out.append(&mut { rb });
            assert(out@ =~= old(out)@ + spec_enc_event_fields(*e));
        },
        EventInfo::AccountMultisigWithdraw { account, token, withdrawer } => {
            cbor::encode_uint(1, out);
            types::encode_address(account, out);
            cbor::encode_uint(2, out);
            cbor::encode_bytes(token, out);
            cbor::encode_uint(3, out);
            types::encode_address(withdrawer, out);
            assert(out@ =~= old(out)@ + spec_enc_event_fields(*e));
        },
        EventInfo::AccountMultisigSetDefaults { submitter, account, threshold, timeout_in_secs, execute_automatically } => {
            cbor::encode_uint(1, out);
            types::encode_address(submitter, out);
            cbor::encode_uint(2, out);
            types::encode_address(account, out);
            cbor::encode_uint(3, out);
            encode_opt_u64(threshold, out);
            cbor::encode_uint(4, out);
            encode_opt_u64(timeout_in_secs, out);
            cbor::encode_uint(5, out);
            encode_opt_bool(execute_automatically, out);
            assert(out@ =~= old(out)@ + spec_enc_event_fields(*e));
        },
        EventInfo::AccountMultisigExpired { account, token, time } => {
            cbor::encode_uint(1, out);
            types::encode_address(account, out);
            cbor::encode_uint(2, out);
            cbor::encode_bytes(token, out);
            cbor::encode_uint(3, out);
            types::encode_timestamp(time, out);
            assert(out@ =~= old(out)@ + spec_enc_event_fields(*e));
        },
        EventInfo::KvStorePut { key, value, owner } => {
            cbor::encode_uint(1, out);
            cbor::encode_bytes(key, out);
            cbor::encode_uint(2, out);
            cbor::encode_bytes(value, out);
            cbor::encode_uint(3, out);
            types::encode_address(owner, out);
            assert(out@ =~= old(out)@ + spec_enc_event_fields(*e));
        },
        EventInfo::KvStoreDisable { key, reason } => {
            cbor::encode_uint(1, out);
            cbor::encode_bytes(key, out);
            cbor::encode_uint(2, out);
            encode_opt_text(reason, out);
            assert(out@ =~= old(out)@ + spec_enc_event_fields(*e));
        },
        EventInfo::KvStoreTransfer { key, owner, new_owner } => {
            cbor::encode_uint(1, out);
            cbor::encode_bytes(key, out);
            cbor::encode_uint(2, out);
            types::encode_address(owner, out);
            cbor::encode_uint(3, out);
            types::encode_address(new_owner, out);
            assert(out@ =~= old(out)@ + spec_enc_event_fields(*e));
        },
        EventInfo::TokenMint { symbol, distribution, memo } => {
            cbor::encode_uint(1, out);
            types::encode_address(symbol, out);
            cbor::encode_uint(2, out);
            encode_dist(distribution, out);
            cbor::encode_uint(3, out);
            encode_opt_text(memo, out);
            assert(out@ =~= old(out)@ + spec_enc_event_fields(*e));
        },
        EventInfo::TokenBurn { symbol, distribution, memo } => {
            cbor::encode_uint(1, out);
            types::encode_address(symbol, out);
            cbor::encode_uint(2, out);
            encode_dist(distribution, out);
            cbor::encode_uint(3, out);
            encode_opt_text(memo, out);
            assert(out@ =~= old(out)@ + spec_enc_event_fields(*e));
        },
    }
}

/// Appends the canonical encoding of an event payload.
#[verifier::rlimit(100)]
#[verifier::spinoff_prover]
pub fn encode_event_info(e: &EventInfo, out: &mut Vec<u8>)
    ensures
        final(out)@ == old(out)@ + spec_enc_event_info(*e),
{
    let nfields: u64 = match e {
        EventInfo::Send { .. } => 4,
        EventInfo::AccountDisable { .. } => 1,
        EventInfo::AccountMultisigSubmit { .. } => 9,
        EventInfo::AccountMultisigApprove { .. } => 3,
        EventInfo::AccountMultisigRevoke { .. } => 3,
        EventInfo::AccountMultisigExecute { .. } => 4,
        EventInfo::AccountMultisigWithdraw { .. } => 3,
        EventInfo::AccountMultisigSetDefaults { .. } => 5,
        EventInfo::AccountMultisigExpired { .. } => 3,
        EventInfo::KvStorePut { .. } => 3,
        EventInfo::KvStoreDisable { .. } => 2,
        EventInfo::KvStoreTransfer { .. } => 3,
        EventInfo::TokenMint { .. } => 3,
        EventInfo::TokenBurn { .. } => 3,
    };
    assert(nfields == spec_event_nfields(*e));
    cbor::encode_hdr(cbor::MAJOR_MAP, 1 + nfields, out);
    cbor::encode_uint(0, out);
    encode_kind(e.kind(), out);
    encode_event_fields(e, out);
    assert(out@ =~= old(out)@ + spec_enc_event_info(*e));
}

/// Reads the required map entry `key` carrying this field shape.
fn read_field_address(b: &Vec<u8>, cur: usize, key: u64) -> (r: Result<(Address, usize), CborError>)
    requires
        cur <= b@.len(),
    ensures
        r matches Ok((v, end)) ==> {
            &&& cur < end <= b@.len()
            &&& b@.subrange(cur as int, end as int) == cbor::spec_enc_uint(key) + types::spec_enc_address(v@)
        },
{
    let (k, k_end) = cbor::decode_uint(b, cur)?;
    if k != key {
        return Err(CborError::Invalid);
    }
    let (v, end) = types::decode_address(b, k_end)?;
    proof {
        cbor::lemma_subrange_concat(b@, cur as int, k_end as int, end as int);
    }
    Ok((v, end))
}

/// Reads the required map entry `key` carrying this field shape.
fn read_field_opt_address(b: &Vec<u8>, cur: usize, key: u64) -> (r: Result<(Option<Address>, usize), CborError>)
    requires
        cur <= b@.len(),
    ensures
        r matches Ok((v, end)) ==> {
            &&& cur < end <= b@.len()
            &&& b@.subrange(cur as int, end as int) == cbor::spec_enc_uint(key) + spec_enc_opt_address(v)
        },
{
    let (k, k_end) = cbor::decode_uint(b, cur)?;
    if k != key {
        return Err(CborError::Invalid);
    }
    let (v, end) = decode_opt_address(b, k_end)?;
    proof {
        cbor::lemma_subrange_concat(b@, cur as int, k_end as int, end as int);
    }
    Ok((v, end))
}

/// Reads the required map entry `key` carrying this field shape.
fn read_field_bytes(b: &Vec<u8>, cur: usize, key: u64) -> (r: Result<(Vec<u8>, usize), CborError>)
    requires
        cur <= b@.len(),
    ensures
        r matches Ok((v, end)) ==> {
            &&& cur < end <= b@.len()
            &&& b@.subrange(cur as int, end as int) == cbor::spec_enc_uint(key) + cbor::spec_enc_bytes(v@)
        },
{
    let (k, k_end) = cbor::decode_uint(b, cur)?;
    if k != key {
        return Err(CborError::Invalid);
    }
    let (v, end) = cbor::decode_bytes(b, k_end)?;
    proof {
        cbor::lemma_subrange_concat(b@, cur as int, k_end as int, end as int);
    }
    Ok((v, end))
}

/// Reads the required map entry `key` carrying this field shape.
fn read_field_opt_bytes(b: &Vec<u8>, cur: usize, key: u64) -> (r: Result<(Option<Vec<u8>>, usize), CborError>)
    requires
        cur <= b@.len(),
    ensures
        r matches Ok((v, end)) ==> {
            &&& cur < end <= b@.len()
            &&& b@.subrange(cur as int, end as int) == cbor::spec_enc_uint(key) + spec_enc_opt_bytes(v)
        },
{
    let (k, k_end) = cbor::decode_uint(b, cur)?;
    if k != key {
        return Err(CborError::Invalid);
    }
    let (v, end) = decode_opt_bytes(b, k_end)?;
    proof {
        cbor::lemma_subrange_concat(b@, cur as int, k_end as int, end as int);
    }
    Ok((v, end))
}

/// Reads the required map entry `key` carrying this field shape.
fn read_field_opt_text(b: &Vec<u8>, cur: usize, key: u64) -> (r: Result<(Option<String>, usize), CborError>)
    requires
        cur <= b@.len(),
    ensures
        r matches Ok((v, end)) ==> {
            &&& cur < end <= b@.len()
            &&& b@.subrange(cur as int, end as int) == cbor::spec_enc_uint(key) + spec_enc_opt_text(v)
        },
{
    let (k, k_end) = cbor::decode_uint(b, cur)?;
    if k != key {
        return Err(CborError::Invalid);
    }
    let (v, end) = decode_opt_text(b, k_end)?;
    proof {
        cbor::lemma_subrange_concat(b@, cur as int, k_end as int, end as int);
    }
    Ok((v, end))
}

/// Reads the required map entry `key` carrying this field shape.
fn read_field_u64(b: &Vec<u8>, cur: usize, key: u64) -> (r: Result<(u64, usize), CborError>)
    requires
        cur <= b@.len(),
    ensures
        r matches Ok((v, end)) ==> {
            &&& cur < end <= b@.len()
            &&& b@.subrange(cur as int, end as int) == cbor::spec_enc_uint(key) + cbor::spec_enc_uint(v)
        },
{
    let (k, k_end) = cbor::decode_uint(b, cur)?;
    if k != key {
        return Err(CborError::Invalid);
    }
    let (v, end) = cbor::decode_uint(b, k_end)?;
    proof {
        cbor::lemma_subrange_concat(b@, cur as int, k_end as int, end as int);
    }
    Ok((v, end))
}

/// Reads the required map entry `key` carrying this field shape.
fn read_field_bool(b: &Vec<u8>, cur: usize, key: u64) -> (r: Result<(bool, usize), CborError>)
    requires
        cur <= b@.len(),
    ensures
        r matches Ok((v, end)) ==> {
            &&& cur < end <= b@.len()
            &&& b@.subrange(cur as int, end as int) == cbor::spec_enc_uint(key) + cbor::spec_enc_bool(v)
        },
{
    let (k, k_end) = cbor::decode_uint(b, cur)?;
    if k != key {
        return Err(CborError::Invalid);
    }
    let (v, end) = cbor::decode_bool(b, k_end)?;
    proof {
        cbor::lemma_subrange_concat(b@, cur as int, k_end as int, end as int);
    }
    Ok((v, end))
}

/// Reads the required map entry `key` carrying this field shape.
fn read_field_timestamp(b: &Vec<u8>, cur: usize, key: u64) -> (r: Result<(Timestamp, usize), CborError>)
    requires
        cur <= b@.len(),
    ensures
        r matches Ok((v, end)) ==> {
            &&& cur < end <= b@.len()
            &&& b@.subrange(cur as int, end as int) == cbor::spec_enc_uint(key) + types::spec_enc_timestamp(v)
        },
{
    let (k, k_end) = cbor::decode_uint(b, cur)?;
    if k != key {
        return Err(CborError::Invalid);
    }
    let (v, end) = types::decode_timestamp(b, k_end)?;
    proof {
        cbor::lemma_subrange_concat(b@, cur as int, k_end as int, end as int);
    }
    Ok((v, end))
}

/// Reads the required map entry `key` carrying this field shape.
fn read_field_opt_u64(b: &Vec<u8>, cur: usize, key: u64) -> (r: Result<(Option<u64>, usize), CborError>)
    requires
        cur <= b@.len(),
    ensures
        r matches Ok((v, end)) ==> {
            &&& cur < end <= b@.len()
            &&& b@.subrange(cur as int, end as int) == cbor::spec_enc_uint(key) + spec_enc_opt_u64(v)
        },
{
    let (k, k_end) = cbor::decode_uint(b, cur)?;
    if k != key {
        return Err(CborError::Invalid);
    }
    let (v, end) = decode_opt_u64(b, k_end)?;
    proof {
        cbor::lemma_subrange_concat(b@, cur as int, k_end as int, end as int);
    }
    Ok((v, end))
}

/// Reads the required map entry `key` carrying this field shape.
fn read_field_opt_bool(b: &Vec<u8>, cur: usize, key: u64) -> (r: Result<(Option<bool>, usize), CborError>)
    requires
        cur <= b@.len(),
    ensures
        r matches Ok((v, end)) ==> {
            &&& cur < end <= b@.len()
            &&& b@.subrange(cur as int, end as int) == cbor::spec_enc_uint(key) + spec_enc_opt_bool(v)
        },
{
    let (k, k_end) = cbor::decode_uint(b, cur)?;
    if k != key {
        return Err(CborError::Invalid);
    }
    let (v, end) = decode_opt_bool(b, k_end)?;
    proof {
        cbor::lemma_subrange_concat(b@, cur as int, k_end as int, end as int);
    }
    Ok((v, end))
}

/// Reads the required map entry `key` carrying this field shape.
fn read_field_response(b: &Vec<u8>, cur: usize, key: u64) -> (r: Result<(ResponseMessage, usize), CborError>)
    requires
        cur <= b@.len(),
    ensures
        r matches Ok((v, end)) ==> {
            &&& cur < end <= b@.len()
            &&& b@.subrange(cur as int, end as int) == cbor::spec_enc_uint(key) + protocol::spec_enc_response(v)
        },
{
    let (k, k_end) = cbor::decode_uint(b, cur)?;
    if k != key {
        return Err(CborError::Invalid);
    }
    let (v, end) = protocol::decode_response(b, k_end)?;
    proof {
        cbor::lemma_subrange_concat(b@, cur as int, k_end as int, end as int);
    }
    Ok((v, end))
}

/// Reads the required map entry `key` carrying this field shape.
fn read_field_dist(b: &Vec<u8>, cur: usize, key: u64) -> (r: Result<(Vec<DistEntry>, usize), CborError>)
    requires
        cur <= b@.len(),
    ensures
        r matches Ok((v, end)) ==> {
            &&& cur < end <= b@.len()
            &&& b@.subrange(cur as int, end as int) == cbor::spec_enc_uint(key) + spec_enc_dist(v@)
        },
{
    let (k, k_end) = cbor::decode_uint(b, cur)?;
    if k != key {
        return Err(CborError::Invalid);
    }
    let (v, end) = decode_dist(b, k_end)?;
    proof {
        cbor::lemma_subrange_concat(b@, cur as int, k_end as int, end as int);
    }
    Ok((v, end))
}

/// Reads the required map entry `key` carrying a nested transaction.
fn read_field_tx(b: &Vec<u8>, cur: usize, key: u64) -> (r: Result<
    (AccountMultisigTransaction, usize),
    CborError,
>)
    requires
        cur <= b@.len(),
    ensures
        r matches Ok((v, end)) ==> {
            &&& cur < end <= b@.len()
            &&& b@.subrange(cur as int, end as int) == cbor::spec_enc_uint(key) + spec_enc_tx(v)
        },
{
    let (k, k_end) = cbor::decode_uint(b, cur)?;
    if k != key {
        return Err(CborError::Invalid);
    }
    let (v, end) = decode_tx(b, k_end, MAX_TX_DEPTH)?;
    proof {
        cbor::lemma_subrange_concat(b@, cur as int, k_end as int, end as int);
    }
    Ok((v, end))
}

/// Reads the numbered fields of a `Send` event at `cur`.
#[verifier::rlimit(100)]
#[verifier::spinoff_prover]
fn decode_fields_send(b: &Vec<u8>, cur: usize) -> (r: Result<(EventInfo, usize), CborError>)
    requires
        cur <= b@.len(),
    ensures
        r matches Ok((e, end)) ==> {
            &&& cur <= end <= b@.len()
            &&& e is Send
            &&& b@.subrange(cur as int, end as int) == spec_enc_event_fields(e)
        },
{
    let (from, p0) = read_field_address(b, cur, 1)?;
    let (to, p1) = read_field_address(b, p0, 2)?;
    let (symbol, p2) = read_field_address(b, p1, 3)?;
    let (amount, p3) = read_field_u64(b, p2, 4)?;
    let e = EventInfo::Send { from, to, symbol, amount };
    proof {
        cbor::lemma_subrange_concat(b@, cur as int, p0 as int, p1 as int);
        cbor::lemma_subrange_concat(b@, cur as int, p1 as int, p2 as int);
        cbor::lemma_subrange_concat(b@, cur as int, p2 as int, p3 as int);
        assert(b@.subrange(cur as int, p3 as int) == spec_enc_event_fields(e));
    }
    Ok((e, p3))
}

/// Reads the numbered fields of a `AccountDisable` event at `cur`.
#[verifier::rlimit(100)]
#[verifier::spinoff_prover]
fn decode_fields_accountdisable(b: &Vec<u8>, cur: usize) -> (r: Result<(EventInfo, usize), CborError>)
    requires
        cur <= b@.len(),
    ensures
        r matches Ok((e, end)) ==> {
            &&& cur <= end <= b@.len()
            &&& e is AccountDisable
            &&& b@.subrange(cur as int, end as int) == spec_enc_event_fields(e)
        },
{
    let (account, p0) = read_field_address(b, cur, 1)?;
    let e = EventInfo::AccountDisable { account };
    proof {
        assert(b@.subrange(cur as int, p0 as int) == spec_enc_event_fields(e));
    }
    Ok((e, p0))
}

/// Reads the numbered fields of a `AccountMultisigSubmit` event at `cur`.
#[verifier::rlimit(100)]
#[verifier::spinoff_prover]
fn decode_fields_accountmultisigsubmit(b: &Vec<u8>, cur: usize) -> (r: Result<(EventInfo, usize), CborError>)
    requires
        cur <= b@.len(),
    ensures
        r matches Ok((e, end)) ==> {
            &&& cur <= end <= b@.len()
            &&& e is AccountMultisigSubmit
            &&& b@.subrange(cur as int, end as int) == spec_enc_event_fields(e)
        },
{
    let (submitter, p0) = read_field_address(b, cur, 1)?;
    let (account, p1) = read_field_address(b, p0, 2)?;
    let (memo, p2) = read_field_opt_text(b, p1, 3)?;
    let (transaction, p3) = read_field_tx(b, p2, 4)?;
    let (token, p4) = read_field_opt_bytes(b, p3, 5)?;
    let (threshold, p5) = read_field_u64(b, p4, 6)?;
    let (timeout, p6) = read_field_timestamp(b, p5, 7)?;
    let (execute_automatically, p7) = read_field_bool(b, p6, 8)?;
    let (data, p8) = read_field_opt_bytes(b, p7, 9)?;
    let e = EventInfo::AccountMultisigSubmit { submitter, account, memo, transaction: Box::new(transaction), token, threshold, timeout, execute_automatically, data };
    proof {
        lemma_compose_submit_fields(
            b@,
            cur as int,
            p0 as int,
            p1 as int,
            p2 as int,
            p3 as int,
            p4 as int,
            p5 as int,
            p6 as int,
            p7 as int,
            p8 as int,
            e,
        );
    }
    Ok((e, p8))
}


/// Composes the per-field byte ranges of a decoded submission event into
/// the whole field segment.
#[verifier::spinoff_prover]
#[verifier::rlimit(100)]
proof fn lemma_compose_submit_fields(
    bv: Seq<u8>,
    cur: int,
    p0: int,
    p1: int,
    p2: int,
    p3: int,
    p4: int,
    p5: int,
    p6: int,
    p7: int,
    p8: int,
    e: EventInfo,
)
    requires
        0 <= cur <= p0 <= p1 <= p2 <= p3 <= p4 <= p5 <= p6 <= p7 <= p8 <= bv.len(),
        e matches EventInfo::AccountMultisigSubmit {
            submitter,
            account,
            memo,
            transaction,
            token,
            threshold,
            timeout,
            execute_automatically,
            data,
        } && {
            &&& bv.subrange(cur, p0) == cbor::spec_enc_uint(1) + types::spec_enc_address(
                submitter@,
            )
            &&& bv.subrange(p0, p1) == cbor::spec_enc_uint(2) + types::spec_enc_address(account@)
            &&& bv.subrange(p1, p2) == cbor::spec_enc_uint(3) + spec_enc_opt_text(memo)
            &&& bv.subrange(p2, p3) == cbor::spec_enc_uint(4) + spec_enc_tx(*transaction)
            &&& bv.subrange(p3, p4) == cbor::spec_enc_uint(5) + spec_enc_opt_bytes(token)
            &&& bv.subrange(p4, p5) == cbor::spec_enc_uint(6) + cbor::spec_enc_uint(threshold)
            &&& bv.subrange(p5, p6) == cbor::spec_enc_uint(7) + types::spec_enc_timestamp(timeout)
            &&& bv.subrange(p6, p7) == cbor::spec_enc_uint(8) + cbor::spec_enc_bool(
                execute_automatically,
            )
            &&& bv.subrange(p7, p8) == cbor::spec_enc_uint(9) + spec_enc_opt_bytes(data)
        },
    ensures
        bv.subrange(cur, p8) == spec_enc_event_fields(e),
{
    cbor::lemma_subrange_concat(bv, cur, p0, p1);
    cbor::lemma_subrange_concat(bv, cur, p1, p2);
    cbor::lemma_subrange_concat(bv, cur, p2, p3);
    cbor::lemma_subrange_concat(bv, cur, p3, p4);
    cbor::lemma_subrange_concat(bv, cur, p4, p5);
    cbor::lemma_subrange_concat(bv, cur, p5, p6);
    cbor::lemma_subrange_concat(bv, cur, p6, p7);
    cbor::lemma_subrange_concat(bv, cur, p7, p8);
    assert(bv.subrange(cur, p8) == spec_enc_event_fields(e));
}

/// Reads the numbered fields of a `AccountMultisigApprove` event at `cur`.
#[verifier::rlimit(100)]
#[verifier::spinoff_prover]
fn decode_fields_accountmultisigapprove(b: &Vec<u8>, cur: usize) -> (r: Result<(EventInfo, usize), CborError>)
    requires
        cur <= b@.len(),
    ensures
        r matches Ok((e, end)) ==> {
            &&& cur <= end <= b@.len()
            &&& e is AccountMultisigApprove
            &&& b@.subrange(cur as int, end as int) == spec_enc_event_fields(e)
        },
{
    let (account, p0) = read_field_address(b, cur, 1)?;
    let (token, p1) = read_field_bytes(b, p0, 2)?;
    let (approver, p2) = read_field_address(b, p1, 3)?;
    let e = EventInfo::AccountMultisigApprove { account, token, approver };
    proof {
        cbor::lemma_subrange_concat(b@, cur as int, p0 as int, p1 as int);
        cbor::lemma_subrange_concat(b@, cur as int, p1 as int, p2 as int);
        assert(b@.subrange(cur as int, p2 as int) == spec_enc_event_fields(e));
    }
    Ok((e, p2))
}

/// Reads the numbered fields of a `AccountMultisigRevoke` event at `cur`.
#[verifier::rlimit(100)]
#[verifier::spinoff_prover]
fn decode_fields_accountmultisigrevoke(b: &Vec<u8>, cur: usize) -> (r: Result<(EventInfo, usize), CborError>)
    requires
        cur <= b@.len(),
    ensures
        r matches Ok((e, end)) ==> {
            &&& cur <= end <= b@.len()
            &&& e is AccountMultisigRevoke
            &&& b@.subrange(cur as int, end as int) == spec_enc_event_fields(e)
        },
{
    let (account, p0) = read_field_address(b, cur, 1)?;
    let (token, p1) = read_field_bytes(b, p0, 2)?;
    let (revoker, p2) = read_field_address(b, p1, 3)?;
    let e = EventInfo::AccountMultisigRevoke { account, token, revoker };
    proof {
        cbor::lemma_subrange_concat(b@, cur as int, p0 as int, p1 as int);
        cbor::lemma_subrange_concat(b@, cur as int, p1 as int, p2 as int);
        assert(b@.subrange(cur as int, p2 as int) == spec_enc_event_fields(e));
    }
    Ok((e, p2))
}

/// Reads the numbered fields of a `AccountMultisigExecute` event at `cur`.
#[verifier::rlimit(100)]
#[verifier::spinoff_prover]
fn decode_fields_accountmultisigexecute(b: &Vec<u8>, cur: usize) -> (r: Result<(EventInfo, usize), CborError>)
    requires
        cur <= b@.len(),
    ensures
        r matches Ok((e, end)) ==> {
            &&& cur <= end <= b@.len()
            &&& e is AccountMultisigExecute
            &&& b@.subrange(cur as int, end as int) == spec_enc_event_fields(e)
        },
{
    let (account, p0) = read_field_address(b, cur, 1)?;
    let (token, p1) = read_field_bytes(b, p0, 2)?;
    let (executer, p2) = read_field_opt_address(b, p1, 3)?;
    let (response, p3) = read_field_response(b, p2, 4)?;
    let e = EventInfo::AccountMultisigExecute { account, token, executer, response };
    proof {
        cbor::lemma_subrange_concat(b@, cur as int, p0 as int, p1 as int);
        cbor::lemma_subrange_concat(b@, cur as int, p1 as int, p2 as int);
        cbor::lemma_subrange_concat(b@, cur as int, p2 as int, p3 as int);
        assert(b@.subrange(cur as int, p3 as int) == spec_enc_event_fields(e));
    }
    Ok((e, p3))
}

/// Reads the numbered fields of a `AccountMultisigWithdraw` event at `cur`.
#[verifier::rlimit(100)]
#[verifier::spinoff_prover]
fn decode_fields_accountmultisigwithdraw(b: &Vec<u8>, cur: usize) -> (r: Result<(EventInfo, usize), CborError>)
    requires
        cur <= b@.len(),
    ensures
        r matches Ok((e, end)) ==> {
            &&& cur <= end <= b@.len()
            &&& e is AccountMultisigWithdraw
            &&& b@.subrange(cur as int, end as int) == spec_enc_event_fields(e)
        },
{
    let (account, p0) = read_field_address(b, cur, 1)?;
    let (token, p1) = read_field_bytes(b, p0, 2)?;
    let (withdrawer, p2) = read_field_address(b, p1, 3)?;
    let e = EventInfo::AccountMultisigWithdraw { account, token, withdrawer };
    proof {
        cbor::lemma_subrange_concat(b@, cur as int, p0 as int, p1 as int);
        cbor::lemma_subrange_concat(b@, cur as int, p1 as int, p2 as int);
        assert(b@.subrange(cur as int, p2 as int) == spec_enc_event_fields(e));
    }
    Ok((e, p2))
}

/// Reads the numbered fields of a `AccountMultisigSetDefaults` event at `cur`.
#[verifier::rlimit(100)]
#[verifier::spinoff_prover]
fn decode_fields_accountmultisigsetdefaults(b: &Vec<u8>, cur: usize) -> (r: Result<(EventInfo, usize), CborError>)
    requires
        cur <= b@.len(),
    ensures
        r matches Ok((e, end)) ==> {
            &&& cur <= end <= b@.len()
            &&& e is AccountMultisigSetDefaults
            &&& b@.subrange(cur as int, end as int) == spec_enc_event_fields(e)
        },
{
    let (submitter, p0) = read_field_address(b, cur, 1)?;
    let (account, p1) = read_field_address(b, p0, 2)?;
    let (threshold, p2) = read_field_opt_u64(b, p1, 3)?;
    let (timeout_in_secs, p3) = read_field_opt_u64(b, p2, 4)?;
    let (execute_automatically, p4) = read_field_opt_bool(b, p3, 5)?;
    let e = EventInfo::AccountMultisigSetDefaults { submitter, account, threshold, timeout_in_secs, execute_automatically };
    proof {
        cbor::lemma_subrange_concat(b@, cur as int, p0 as int, p1 as int);
        cbor::lemma_subrange_concat(b@, cur as int, p1 as int, p2 as int);
        cbor::lemma_subrange_concat(b@, cur as int, p2 as int, p3 as int);
        cbor::lemma_subrange_concat(b@, cur as int, p3 as int, p4 as int);
        assert(b@.subrange(cur as int, p4 as int) == spec_enc_event_fields(e));
    }
    Ok((e, p4))
}

/// Reads the numbered fields of a `AccountMultisigExpired` event at `cur`.
#[verifier::rlimit(100)]
#[verifier::spinoff_prover]
fn decode_fields_accountmultisigexpired(b: &Vec<u8>, cur: usize) -> (r: Result<(EventInfo, usize), CborError>)
    requires
        cur <= b@.len(),
    ensures
        r matches Ok((e, end)) ==> {
            &&& cur <= end <= b@.len()
            &&& e is AccountMultisigExpired
            &&& b@.subrange(cur as int, end as int) == spec_enc_event_fields(e)
        },
{
    let (account, p0) = read_field_address(b, cur, 1)?;
    let (token, p1) = read_field_bytes(b, p0, 2)?;
    let (time, p2) = read_field_timestamp(b, p1, 3)?;
    let e = EventInfo::AccountMultisigExpired { account, token, time };
    proof {
        cbor::lemma_subrange_concat(b@, cur as int, p0 as int, p1 as int);
        cbor::lemma_subrange_concat(b@, cur as int, p1 as int, p2 as int);
        assert(b@.subrange(cur as int, p2 as int) == spec_enc_event_fields(e));
    }
    Ok((e, p2))
}

/// Reads the numbered fields of a `KvStorePut` event at `cur`.
#[verifier::rlimit(100)]
#[verifier::spinoff_prover]
fn decode_fields_kvstoreput(b: &Vec<u8>, cur: usize) -> (r: Result<(EventInfo, usize), CborError>)
    requires
        cur <= b@.len(),
    ensures
        r matches Ok((e, end)) ==> {
            &&& cur <= end <= b@.len()
            &&& e is KvStorePut
            &&& b@.subrange(cur as int, end as int) == spec_enc_event_fields(e)
        },
{
    let (key, p0) = read_field_bytes(b, cur, 1)?;
    let (value, p1) = read_field_bytes(b, p0, 2)?;
    let (owner, p2) = read_field_address(b, p1, 3)?;
    let e = EventInfo::KvStorePut { key, value, owner };
    proof {
        cbor::lemma_subrange_concat(b@, cur as int, p0 as int, p1 as int);
        cbor::lemma_subrange_concat(b@, cur as int, p1 as int, p2 as int);
        assert(b@.subrange(cur as int, p2 as int) == spec_enc_event_fields(e));
    }
    Ok((e, p2))
}

/// Reads the numbered fields of a `KvStoreDisable` event at `cur`.
#[verifier::rlimit(100)]
#[verifier::spinoff_prover]
fn decode_fields_kvstoredisable(b: &Vec<u8>, cur: usize) -> (r: Result<(EventInfo, usize), CborError>)
    requires
        cur <= b@.len(),
    ensures
        r matches Ok((e, end)) ==> {
            &&& cur <= end <= b@.len()
            &&& e is KvStoreDisable
            &&& b@.subrange(cur as int, end as int) == spec_enc_event_fields(e)
        },
{
    let (key, p0) = read_field_bytes(b, cur, 1)?;
    let (reason, p1) = read_field_opt_text(b, p0, 2)?;
    let e = EventInfo::KvStoreDisable { key, reason };
    proof {
        cbor::lemma_subrange_concat(b@, cur as int, p0 as int, p1 as int);
        assert(b@.subrange(cur as int, p1 as int) == spec_enc_event_fields(e));
    }
    Ok((e, p1))
}

/// Reads the numbered fields of a `KvStoreTransfer` event at `cur`.
#[verifier::rlimit(100)]
#[verifier::spinoff_prover]
fn decode_fields_kvstoretransfer(b: &Vec<u8>, cur: usize) -> (r: Result<(EventInfo, usize), CborError>)
    requires
        cur <= b@.len(),
    ensures
        r matches Ok((e, end)) ==> {
            &&& cur <= end <= b@.len()
            &&& e is KvStoreTransfer
            &&& b@.subrange(cur as int, end as int) == spec_enc_event_fields(e)
        },
{
    let (key, p0) = read_field_bytes(b, cur, 1)?;
    let (owner, p1) = read_field_address(b, p0, 2)?;
    let (new_owner, p2) = read_field_address(b, p1, 3)?;
    let e = EventInfo::KvStoreTransfer { key, owner, new_owner };
    proof {
        cbor::lemma_subrange_concat(b@, cur as int, p0 as int, p1 as int);
        cbor::lemma_subrange_concat(b@, cur as int, p1 as int, p2 as int);
        assert(b@.subrange(cur as int, p2 as int) == spec_enc_event_fields(e));
    }
    Ok((e, p2))
}

/// Reads the numbered fields of a `TokenMint` event at `cur`.
#[verifier::rlimit(100)]
#[verifier::spinoff_prover]
fn decode_fields_tokenmint(b: &Vec<u8>, cur: usize) -> (r: Result<(EventInfo, usize), CborError>)
    requires
        cur <= b@.len(),
    ensures
        r matches Ok((e, end)) ==> {
            &&& cur <= end <= b@.len()
            &&& e is TokenMint
            &&& b@.subrange(cur as int, end as int) == spec_enc_event_fields(e)
        },
{
    let (symbol, p0) = read_field_address(b, cur, 1)?;
    let (distribution, p1) = read_field_dist(b, p0, 2)?;
    let (memo, p2) = read_field_opt_text(b, p1, 3)?;
    let e = EventInfo::TokenMint { symbol, distribution, memo };
    proof {
        cbor::lemma_subrange_concat(b@, cur as int, p0 as int, p1 as int);
        cbor::lemma_subrange_concat(b@, cur as int, p1 as int, p2 as int);
        assert(b@.subrange(cur as int, p2 as int) == spec_enc_event_fields(e));
    }
    Ok((e, p2))
}

/// Reads the numbered fields of a `TokenBurn` event at `cur`.
#[verifier::rlimit(100)]
#[verifier::spinoff_prover]
fn decode_fields_tokenburn(b: &Vec<u8>, cur: usize) -> (r: Result<(EventInfo, usize), CborError>)
    requires
        cur <= b@.len(),
    ensures
        r matches Ok((e, end)) ==> {
            &&& cur <= end <= b@.len()
            &&& e is TokenBurn
            &&& b@.subrange(cur as int, end as int) == spec_enc_event_fields(e)
        },
{
    let (symbol, p0) = read_field_address(b, cur, 1)?;
    let (distribution, p1) = read_field_dist(b, p0, 2)?;
    let (memo, p2) = read_field_opt_text(b, p1, 3)?;
    let e = EventInfo::TokenBurn { symbol, distribution, memo };
    proof {
        cbor::lemma_subrange_concat(b@, cur as int, p0 as int, p1 as int);
        cbor::lemma_subrange_concat(b@, cur as int, p1 as int, p2 as int);
        assert(b@.subrange(cur as int, p2 as int) == spec_enc_event_fields(e));
    }
    Ok((e, p2))
}

/// Reads an event payload at `pos`.
#[verifier::rlimit(100)]
#[verifier::spinoff_prover]
pub fn decode_event_info(b: &Vec<u8>, pos: usize) -> (r: Result<(EventInfo, usize), CborError>)
    ensures
        r matches Ok((e, end)) ==> {
            &&& pos < end <= b@.len()
            &&& b@.subrange(pos as int, end as int) == spec_enc_event_info(e)
        },
{
    let (n, hdr_end) = cbor::decode_map_hdr(b, pos)?;
    let (k0, k0_end) = cbor::decode_uint(b, hdr_end)?;
    if k0 != 0 {
        return Err(CborError::Invalid);
    }
    let (kind, kind_end) = decode_kind(b, k0_end)?;
    let (e, end): (EventInfo, usize) = match kind {
        EventKind::Send => decode_fields_send(b, kind_end)?,
        EventKind::AccountDisable => decode_fields_accountdisable(b, kind_end)?,
        EventKind::AccountMultisigSubmit => decode_fields_accountmultisigsubmit(b, kind_end)?,
        EventKind::AccountMultisigApprove => decode_fields_accountmultisigapprove(b, kind_end)?,
        EventKind::AccountMultisigRevoke => decode_fields_accountmultisigrevoke(b, kind_end)?,
        EventKind::AccountMultisigExecute => decode_fields_accountmultisigexecute(b, kind_end)?,
        EventKind::AccountMultisigWithdraw => decode_fields_accountmultisigwithdraw(b, kind_end)?,
        EventKind::AccountMultisigSetDefaults => decode_fields_accountmultisigsetdefaults(b, kind_end)?,
        EventKind::AccountMultisigExpired => decode_fields_accountmultisigexpired(b, kind_end)?,
        EventKind::KvStorePut => decode_fields_kvstoreput(b, kind_end)?,
        EventKind::KvStoreDisable => decode_fields_kvstoredisable(b, kind_end)?,
        EventKind::KvStoreTransfer => decode_fields_kvstoretransfer(b, kind_end)?,
        EventKind::TokenMint => decode_fields_tokenmint(b, kind_end)?,
        EventKind::TokenBurn => decode_fields_tokenburn(b, kind_end)?,
    };
    if n != 1 + spec_event_nfields_exec(&e) as u64 {
        return Err(CborError::Invalid);
    }
    proof {
        cbor::lemma_subrange_concat(b@, pos as int, hdr_end as int, k0_end as int);
        cbor::lemma_subrange_concat(b@, pos as int, k0_end as int, kind_end as int);
        cbor::lemma_subrange_concat(b@, pos as int, kind_end as int, end as int);
        assert(b@.subrange(pos as int, end as int) == spec_enc_event_info(e));
    }
    Ok((e, end))
}

/// The number of payload fields of an event.
fn spec_event_nfields_exec(e: &EventInfo) -> (r: u64)
    ensures
        r == spec_event_nfields(*e),
{
    match e {
        EventInfo::Send { .. } => 4,
        EventInfo::AccountDisable { .. } => 1,
        EventInfo::AccountMultisigSubmit { .. } => 9,
        EventInfo::AccountMultisigApprove { .. } => 3,
        EventInfo::AccountMultisigRevoke { .. } => 3,
        EventInfo::AccountMultisigExecute { .. } => 4,
        EventInfo::AccountMultisigWithdraw { .. } => 3,
        EventInfo::AccountMultisigSetDefaults { .. } => 5,
        EventInfo::AccountMultisigExpired { .. } => 3,
        EventInfo::KvStorePut { .. } => 3,
        EventInfo::KvStoreDisable { .. } => 2,
        EventInfo::KvStoreTransfer { .. } => 3,
        EventInfo::TokenMint { .. } => 3,
        EventInfo::TokenBurn { .. } => 3,
    }
}

} // verus!

verus! {

/// An event that happened on the server and that is part of the log.
pub struct EventLog {
    pub id: EventId,
    pub time: Timestamp,
    pub content: EventInfo,
}

/// The canonical encoding of a log entry with the given identifier bytes,
/// time and payload: a map with the identifier at key 0, the time at key 1
/// and the payload at key 2.
pub open spec fn spec_enc_event_log_parts(id: Seq<u8>, time: Timestamp, content: EventInfo) -> Seq<
    u8,
> {
    cbor::spec_hdr(cbor::MAJOR_MAP, 3) + cbor::spec_enc_uint(0) + eventid::spec_enc_event_id(id)
        + cbor::spec_enc_uint(1) + types::spec_enc_timestamp(time) + cbor::spec_enc_uint(2)
        + spec_enc_event_info(content)
}

/// The canonical encoding of a log entry.
pub open spec fn spec_enc_event_log(e: EventLog) -> Seq<u8> {
    spec_enc_event_log_parts(e.id@, e.time, e.content)
}

impl EventLog {
    /// The kind of the logged event.
    pub fn kind(&self) -> (r: EventKind)
        ensures
            r == spec_event_kind(self.content),
    {
        self.content.kind()
    }

    /// The symbol the logged event pertains to, if any.
    pub fn symbol(&self) -> (r: Option<&Symbol>)
        ensures
            r matches Some(s) ==> spec_event_symbol(self.content) == Some(s@),
            r is None ==> spec_event_symbol(self.content) is None,
    {
        self.content.symbol()
    }

    /// True when the logged event mentions the address `id`.
    pub fn is_about(&self, id: &Address) -> (r: bool)
        ensures
            r == spec_event_addresses(self.content).contains(id@),
    {
        self.content.is_about(id)
    }

    /// Serializes the entry to its canonical bytes.
    pub fn to_bytes(&self) -> (r: Vec<u8>)
        ensures
            r@ == spec_enc_event_log(*self),
    {
        let mut out: Vec<u8> = Vec::new();
        cbor::encode_hdr(cbor::MAJOR_MAP, 3, &mut out);
        cbor::encode_uint(0, &mut out);
        eventid::encode_event_id(&self.id, &mut out);
        cbor::encode_uint(1, &mut out);
        types::encode_timestamp(&self.time, &mut out);
        cbor::encode_uint(2, &mut out);
        encode_event_info(&self.content, &mut out);
        assert(out@ =~= spec_enc_event_log(*self));
        out
    }

    /// Parses a log entry from its canonical bytes; the whole input must be
    /// one entry.
    pub fn from_bytes(b: &Vec<u8>) -> (r: Result<EventLog, CborError>)
        ensures
            r matches Ok(e) ==> b@ == spec_enc_event_log(e),
    {
        let (e, end) = decode_event_log(b, 0)?;
        if end != b.len() {
            return Err(CborError::Invalid);
        }
        assert(b@.subrange(0, b@.len() as int) =~= b@);
        Ok(e)
    }
}

/// Reads a log entry at `pos`.
#[verifier::rlimit(100)]
#[verifier::spinoff_prover]
pub fn decode_event_log(b: &Vec<u8>, pos: usize) -> (r: Result<(EventLog, usize), CborError>)
    ensures
        r matches Ok((e, end)) ==> {
            &&& pos < end <= b@.len()
            &&& b@.subrange(pos as int, end as int) == spec_enc_event_log(e)
        },
{
    let (n, hdr_end) = cbor::decode_map_hdr(b, pos)?;
    if n != 3 {
        return Err(CborError::Invalid);
    }
    let (k0, k0_end) = cbor::decode_uint(b, hdr_end)?;
    if k0 != 0 {
        return Err(CborError::Invalid);
    }
    let (id, id_end) = eventid::decode_event_id(b, k0_end)?;
    let (k1, k1_end) = cbor::decode_uint(b, id_end)?;
    if k1 != 1 {
        return Err(CborError::Invalid);
    }
    let (time, t_end) = types::decode_timestamp(b, k1_end)?;
    let (k2, k2_end) = cbor::decode_uint(b, t_end)?;
    if k2 != 2 {
        return Err(CborError::Invalid);
    }
    let (content, end) = decode_event_info(b, k2_end)?;
    let e = EventLog { id, time, content };
    proof {
        cbor::lemma_subrange_concat(b@, pos as int, hdr_end as int, k0_end as int);
        cbor::lemma_subrange_concat(b@, pos as int, k0_end as int, id_end as int);
        cbor::lemma_subrange_concat(b@, pos as int, id_end as int, k1_end as int);
        cbor::lemma_subrange_concat(b@, pos as int, k1_end as int, t_end as int);
        cbor::lemma_subrange_concat(b@, pos as int, t_end as int, k2_end as int);
        cbor::lemma_subrange_concat(b@, pos as int, k2_end as int, end as int);
        assert(b@.subrange(pos as int, end as int) == spec_enc_event_log(e));
    }
    Ok((e, end))
}

/// The symbol an event pertains to. A submitted multisig transaction does
/// not itself expose a symbol, so submissions yield none.
pub open spec fn spec_event_symbol(e: EventInfo) -> Option<Seq<u8>> {
    match e {
        EventInfo::Send { symbol, .. } => Some(symbol@),
        EventInfo::TokenMint { symbol, .. } => Some(symbol@),
        EventInfo::TokenBurn { symbol, .. } => Some(symbol@),
        _ => None,
    }
}

/// The set of addresses an event mentions: every identity field, and the
/// recipients of a token distribution.
pub open spec fn spec_event_addresses(e: EventInfo) -> Set<Seq<u8>> {
    match e {
        EventInfo::Send { from, to, .. } => set![from@, to@],
        EventInfo::AccountDisable { account } => set![account@],
        EventInfo::AccountMultisigSubmit { submitter, account, .. } => set![submitter@, account@],
        EventInfo::AccountMultisigApprove { account, approver, .. } => set![account@, approver@],
        EventInfo::AccountMultisigRevoke { account, revoker, .. } => set![account@, revoker@],
        EventInfo::AccountMultisigExecute { account, executer, .. } => if executer is Some {
            set![account@, executer->Some_0@]
        } else {
            set![account@]
        },
        EventInfo::AccountMultisigWithdraw { account, withdrawer, .. } => set![
            account@,
            withdrawer@,
        ],
        EventInfo::AccountMultisigSetDefaults { submitter, account, .. } => set![
            submitter@,
            account@,
        ],
        EventInfo::AccountMultisigExpired { account, .. } => set![account@],
        EventInfo::KvStorePut { owner, .. } => set![owner@],
        EventInfo::KvStoreDisable { .. } => Set::empty(),
        EventInfo::KvStoreTransfer { owner, new_owner, .. } => set![owner@, new_owner@],
        EventInfo::TokenMint { distribution, .. } => spec_dist_addresses(distribution@),
        EventInfo::TokenBurn { distribution, .. } => spec_dist_addresses(distribution@),
    }
}

/// The set of recipient addresses of a distribution.
pub open spec fn spec_dist_addresses(s: Seq<DistEntry>) -> Set<Seq<u8>>
    decreases s.len(),
{
    if s.len() == 0 {
        Set::empty()
    } else {
        spec_dist_addresses(s.drop_last()).insert(s.last().0@)
    }
}

/// Appends `a` to `acc` unless an equal address is already there.
fn push_unique(acc: &mut Vec<Address>, a: &Address)
    requires
        forall|i: int, j: int| 0 <= i < j < old(acc)@.len() ==> old(acc)@[i]@ != old(acc)@[j]@,
    ensures
        final(acc)@.len() >= old(acc)@.len(),
        forall|i: int|
            0 <= i < final(acc)@.len() ==> (#[trigger] final(acc)@[i])@ == a@ || (exists|j: int|
                0 <= j < old(acc)@.len() && final(acc)@[i] == old(acc)@[j]),
        forall|i: int|
            0 <= i < old(acc)@.len() ==> final(acc)@[i] == old(acc)@[i],
        exists|i: int| 0 <= i < final(acc)@.len() && (#[trigger] final(acc)@[i])@ == a@,
        forall|i: int, j: int| 0 <= i < j < final(acc)@.len() ==> final(acc)@[i]@ != final(acc)@[j]@,
{
    let n = acc.len();
    let mut i: usize = 0;
    while i < n
        invariant
            i <= n,
            n == acc@.len(),
            acc@ == old(acc)@,
            forall|x: int, y: int| 0 <= x < y < acc@.len() ==> acc@[x]@ != acc@[y]@,
            forall|j: int| 0 <= j < i ==> (#[trigger] acc@[j])@ != a@,
        decreases n - i,
    {
        if &acc[i] == a {
            assert(acc@[i as int]@ == a@);
            return ;
        }
        i = i + 1;
    }
    acc.push(a.clone());
    assert(acc@[old(acc)@.len() as int]@ == a@);
}

impl EventInfo {
    /// The symbol this event pertains to, if any.
    pub fn symbol(&self) -> (r: Option<&Symbol>)
        ensures
            r matches Some(s) ==> spec_event_symbol(*self) == Some(s@),
            r is None ==> spec_event_symbol(*self) is None,
    {
        match self {
            EventInfo::Send { symbol, .. } => Some(symbol),
            EventInfo::TokenMint { symbol, .. } => Some(symbol),
            EventInfo::TokenBurn { symbol, .. } => Some(symbol),
            _ => None,
        }
    }

    /// Every address this event mentions, once each.
    pub fn addresses(&self) -> (r: Vec<Address>)
        ensures
            forall|i: int|
                0 <= i < r@.len() ==> spec_event_addresses(*self).contains(
                    (#[trigger] r@[i])@,
                ),
            forall|s: Seq<u8>|
                spec_event_addresses(*self).contains(s) ==> exists|i: int|
                    0 <= i < r@.len() && (#[trigger] r@[i])@ == s,
            forall|i: int, j: int| 0 <= i < j < r@.len() ==> r@[i]@ != r@[j]@,
    {
        let mut acc: Vec<Address> = Vec::new();
        match self {
            EventInfo::Send { from, to, .. } => {
                push_unique(&mut acc, from);
                push_unique(&mut acc, to);
            },
            EventInfo::AccountDisable { account } => {
                push_unique(&mut acc, account);
            },
            EventInfo::AccountMultisigSubmit { submitter, account, .. } => {
                push_unique(&mut acc, submitter);
                push_unique(&mut acc, account);
            },
            EventInfo::AccountMultisigApprove { account, approver, .. } => {
                push_unique(&mut acc, account);
                push_unique(&mut acc, approver);
            },
            EventInfo::AccountMultisigRevoke { account, revoker, .. } => {
                push_unique(&mut acc, account);
                push_unique(&mut acc, revoker);
            },
            EventInfo::AccountMultisigExecute { account, executer, .. } => {
                push_unique(&mut acc, account);
                match executer {
                    Some(x) => push_unique(&mut acc, x),
                    None => {},
                }
            },
            EventInfo::AccountMultisigWithdraw { account, withdrawer, .. } => {
                push_unique(&mut acc, account);
                push_unique(&mut acc, withdrawer);
            },
            EventInfo::AccountMultisigSetDefaults { submitter, account, .. } => {
                push_unique(&mut acc, submitter);
                push_unique(&mut acc, account);
            },
            EventInfo::AccountMultisigExpired { account, .. } => {
                push_unique(&mut acc, account);
            },
            EventInfo::KvStorePut { owner, .. } => {
                push_unique(&mut acc, owner);
            },
            EventInfo::KvStoreDisable { .. } => {},
            EventInfo::KvStoreTransfer { owner, new_owner, .. } => {
                push_unique(&mut acc, owner);
                push_unique(&mut acc, new_owner);
            },
            EventInfo::TokenMint { distribution, .. } => {
                collect_dist_addresses(distribution, &mut acc);
            },
            EventInfo::TokenBurn { distribution, .. } => {
                collect_dist_addresses(distribution, &mut acc);
            },
        }
        acc
    }

    /// True when this event mentions the address `id`.
    pub fn is_about(&self, id: &Address) -> (r: bool)
        ensures
            r == spec_event_addresses(*self).contains(id@),
    {
        let addrs = self.addresses();
        let n = addrs.len();
        let mut i: usize = 0;
        while i < n
            invariant
                i <= n,
                n == addrs@.len(),
                forall|j: int|
                    0 <= j < addrs@.len() ==> spec_event_addresses(*self).contains(
                        (#[trigger] addrs@[j])@,
                    ),
                forall|s: Seq<u8>|
                    spec_event_addresses(*self).contains(s) ==> exists|j: int|
                        0 <= j < addrs@.len() && (#[trigger] addrs@[j])@ == s,
                forall|j: int| 0 <= j < i ==> (#[trigger] addrs@[j])@ != id@,
            decreases n - i,
        {
            if &addrs[i] == id {
                assert(addrs@[i as int]@ == id@);
                return true;
            }
            i = i + 1;
        }
        false
    }
}

/// Collects the distribution's recipient addresses into `acc`, once each.
#[verifier::loop_isolation(false)]
fn collect_dist_addresses(s: &Vec<DistEntry>, acc: &mut Vec<Address>)
    requires
        old(acc)@.len() == 0,
    ensures
        forall|i: int|
            0 <= i < final(acc)@.len() ==> spec_dist_addresses(s@).contains(
                (#[trigger] final(acc)@[i])@,
            ),
        forall|x: Seq<u8>|
            spec_dist_addresses(s@).contains(x) ==> exists|i: int|
                0 <= i < final(acc)@.len() && (#[trigger] final(acc)@[i])@ == x,
        forall|i: int, j: int| 0 <= i < j < final(acc)@.len() ==> final(acc)@[i]@ != final(acc)@[j]@,
{
    let n = s.len();
    let mut k: usize = 0;
    while k < n
        invariant
            k <= n,
            forall|i: int|
                0 <= i < acc@.len() ==> spec_dist_addresses(s@.take(k as int)).contains(
                    (#[trigger] acc@[i])@,
                ),
            forall|x: Seq<u8>|
                spec_dist_addresses(s@.take(k as int)).contains(x) ==> exists|i: int|
                    0 <= i < acc@.len() && (#[trigger] acc@[i])@ == x,
            forall|i: int, j: int| 0 <= i < j < acc@.len() ==> acc@[i]@ != acc@[j]@,
        decreases n - k,
    {
        proof {
            assert(s@.take(k as int + 1).drop_last() =~= s@.take(k as int));
            assert(s@.take(k as int + 1).last() == s@[k as int]);
        }
        push_unique(acc, &s[k].0);
        proof {
            lemma_dist_addresses_mono(s@, k as int);
        }
        k = k + 1;
    }
    assert(s@.take(n as int) =~= s@);
}

/// A take of one more entry adds exactly that entry's address.
proof fn lemma_dist_addresses_mono(s: Seq<DistEntry>, k: int)
    requires
        0 <= k < s.len(),
    ensures
        spec_dist_addresses(s.take(k + 1)) == spec_dist_addresses(s.take(k)).insert(s[k].0@),
{
    assert(s.take(k + 1).drop_last() =~= s.take(k));
    assert(s.take(k + 1).last() == s[k]);
}

/// Re-encodes a decoded event payload: for every byte string that parses as
/// one whole event payload, the parse-then-encode round trip returns the
/// input unchanged.
pub fn reencode_event_info(b: &Vec<u8>) -> (r: Option<Vec<u8>>)
    ensures
        r matches Some(out) ==> out@ == b@,
{
    let (e, end) = match decode_event_info(b, 0) {
        Ok(x) => x,
        Err(_) => {
            return None;
        },
    };
    if end != b.len() {
        return None;
    }
    let mut out: Vec<u8> = Vec::new();
    encode_event_info(&e, &mut out);
    assert(b@.subrange(0, b@.len() as int) =~= b@);
    Some(out)
}

/// Re-encodes a decoded log entry: for every byte string that parses as one
/// whole log entry, the parse-then-encode round trip returns the input
/// unchanged.
pub fn reencode_event_log(b: &Vec<u8>) -> (r: Option<Vec<u8>>)
    ensures
        r matches Some(out) ==> out@ == b@,
{
    let e = match EventLog::from_bytes(b) {
        Ok(x) => x,
        Err(_) => {
            return None;
        },
    };
    Some(e.to_bytes())
}

} // verus!
