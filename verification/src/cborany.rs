//! A self-describing CBOR value: booleans, integers, text, bytes, arrays,
//! maps and tagged values, with a canonical codec. Map entries keep their
//! wire order, so a decoded value re-encodes to the exact bytes it came
//! from.

use crate::cbor;
use crate::cbor::CborError;
use vstd::prelude::*;

verus! {

broadcast use vstd::std_specs::vec::group_vec_axioms;

/// The CBOR `null` item.
#[derive(Clone, Debug, PartialEq, Eq, Structural)]
pub struct CborNull;

/// The canonical encoding of `null`.
pub open spec fn spec_enc_null() -> Seq<u8> {
    seq![cbor::BYTE_NULL]
}

impl CborNull {
    /// Appends the encoding of `null`.
    pub fn encode(&self, out: &mut Vec<u8>)
        ensures
            final(out)@ == old(out)@ + spec_enc_null(),
    {
        cbor::encode_null(out);
    }

    /// Reads a `null` at `pos`.
    pub fn decode(b: &Vec<u8>, pos: usize) -> (r: Result<(CborNull, usize), CborError>)
        ensures
            r matches Ok((v, end)) ==> {
                &&& pos < end <= b@.len()
                &&& b@.subrange(pos as int, end as int) == spec_enc_null()
            },
            cbor::spec_prefix_at(b@, pos as int, spec_enc_null()) ==> (r matches Ok((v, end))
                && end == pos + 1),
    {
        if pos >= b.len() {
            return Err(CborError::Truncated);
        }
        if b[pos] == cbor::BYTE_NULL {
            assert(b@.subrange(pos as int, pos as int + 1) =~= spec_enc_null());
            Ok((CborNull, pos + 1))
        } else {
            proof {
                if cbor::spec_prefix_at(b@, pos as int, spec_enc_null()) {
                    assert(b@.subrange(pos as int, pos as int + 1)[0] == b@[pos as int]);
                }
            }
            Err(CborError::Invalid)
        }
    }
}

/// Any CBOR value the library carries through opaque extension fields.
pub enum CborAny {
    Bool(bool),
    Int(i64),
    Text(String),
    Bytes(Vec<u8>),
    Array(Vec<CborAny>),
    Dict(Vec<(CborAny, CborAny)>),
    Tagged(u64, Box<CborAny>),
}

/// The canonical encoding of a value.
pub open spec fn spec_enc_any(v: CborAny) -> Seq<u8>
    decreases v,
{
    match v {
        CborAny::Bool(x) => cbor::spec_enc_bool(x),
        CborAny::Int(x) => cbor::spec_enc_int(x),
        CborAny::Text(s) => cbor::spec_enc_text(s@),
        CborAny::Bytes(bs) => cbor::spec_enc_bytes(bs@),
        CborAny::Array(items) => cbor::spec_hdr(cbor::MAJOR_ARRAY, items@.len() as u64)
            + spec_enc_any_list(items@),
        CborAny::Dict(entries) => cbor::spec_hdr(cbor::MAJOR_MAP, entries@.len() as u64)
            + spec_enc_any_pairs(entries@),
        CborAny::Tagged(t, inner) => cbor::spec_enc_tag(t) + spec_enc_any(*inner),
    }
}

/// The concatenated encodings of a sequence of values.
pub open spec fn spec_enc_any_list(s: Seq<CborAny>) -> Seq<u8>
    decreases s,
{
    if s.len() == 0 {
        Seq::empty()
    } else {
        spec_enc_any(s[0]) + spec_enc_any_list(s.drop_first())
    }
}

/// The concatenated encodings of a sequence of key-value pairs.
pub open spec fn spec_enc_any_pairs(s: Seq<(CborAny, CborAny)>) -> Seq<u8>
    decreases s,
{
    if s.len() == 0 {
        Seq::empty()
    } else {
        spec_enc_any(s[0].0) + spec_enc_any(s[0].1) + spec_enc_any_pairs(s.drop_first())
    }
}

/// Appending a value extends a list's encoding by that value's encoding.
pub proof fn lemma_enc_any_list_push(s: Seq<CborAny>, v: CborAny)
    ensures
        spec_enc_any_list(s.push(v)) == spec_enc_any_list(s) + spec_enc_any(v),
    decreases s.len(),
{
    let s2 = s.push(v);
    if s.len() == 0 {
        assert(s2[0] == v);
        assert(s2.drop_first() =~= Seq::<CborAny>::empty());
        assert(spec_enc_any_list(s2.drop_first()) =~= Seq::<u8>::empty());
        assert(spec_enc_any_list(s2) =~= spec_enc_any_list(s) + spec_enc_any(v));
    } else {
        assert(s2.drop_first() =~= s.drop_first().push(v));
        lemma_enc_any_list_push(s.drop_first(), v);
        assert(s2[0] == s[0]);
        assert(spec_enc_any_list(s2) =~= spec_enc_any_list(s) + spec_enc_any(v));
    }
}

/// Appending a pair extends a pair list's encoding by that pair's encoding.
pub proof fn lemma_enc_any_pairs_push(s: Seq<(CborAny, CborAny)>, p: (CborAny, CborAny))
    ensures
        spec_enc_any_pairs(s.push(p)) == spec_enc_any_pairs(s) + spec_enc_any(p.0) + spec_enc_any(
            p.1,
        ),
    decreases s.len(),
{
    let s2 = s.push(p);
    if s.len() == 0 {
        assert(s2[0] == p);
        assert(s2.drop_first() =~= Seq::<(CborAny, CborAny)>::empty());
        assert(spec_enc_any_pairs(s2.drop_first()) =~= Seq::<u8>::empty());
        assert(spec_enc_any_pairs(s2) =~= spec_enc_any_pairs(s) + spec_enc_any(p.0) + spec_enc_any(
            p.1,
        ));
    } else {
        assert(s2.drop_first() =~= s.drop_first().push(p));
        lemma_enc_any_pairs_push(s.drop_first(), p);
        assert(s2[0] == s[0]);
        assert(spec_enc_any_pairs(s2) =~= spec_enc_any_pairs(s) + spec_enc_any(p.0) + spec_enc_any(
            p.1,
        ));
    }
}

/// Appends the canonical encoding of the value `v`.
#[verifier::loop_isolation(false)]
pub fn encode_any(v: &CborAny, out: &mut Vec<u8>)
    ensures
        final(out)@ == old(out)@ + spec_enc_any(*v),
    decreases *v,
{
    match v {
        CborAny::Bool(x) => {
            cbor::encode_bool(*x, out);
        },
        CborAny::Int(x) => {
            cbor::encode_int(*x, out);
        },
        CborAny::Text(s) => {
            cbor::encode_text(s, out);
        },
        CborAny::Bytes(bs) => {
            cbor::encode_bytes(bs, out);
        },
        CborAny::Array(items) => {
            cbor::encode_hdr(cbor::MAJOR_ARRAY, items.len() as u64, out);
            let ghost base = out@;
            let n = items.len();
            let mut i: usize = 0;
            while i < n
                invariant
                    i <= n,
                    n == items@.len(),
                    out@ == base + spec_enc_any_list(items@.take(i as int)),
                decreases n - i,
            {
                proof {
                    assert(items@.take(i as int + 1) =~= items@.take(i as int).push(
                        items@[i as int],
                    ));
                    lemma_enc_any_list_push(items@.take(i as int), items@[i as int]);
                    assert(decreases_to!(*items => items@[i as int]));
                    assert(*v == CborAny::Array(*items));
                    assert(decreases_to!(CborAny::Array(*items) => *items));
                }
                encode_any(&items[i], out);
                i = i + 1;
            }
            assert(items@.take(n as int) =~= items@);
            assert(out@ =~= old(out)@ + spec_enc_any(*v));
        },
        CborAny::Dict(entries) => {
            cbor::encode_hdr(cbor::MAJOR_MAP, entries.len() as u64, out);
            let ghost base = out@;
            let n = entries.len();
            let mut i: usize = 0;
            while i < n
                invariant
                    i <= n,
                    n == entries@.len(),
                    out@ == base + spec_enc_any_pairs(entries@.take(i as int)),
                decreases n - i,
            {
                proof {
                    assert(entries@.take(i as int + 1) =~= entries@.take(i as int).push(
                        entries@[i as int],
                    ));
                    lemma_enc_any_pairs_push(entries@.take(i as int), entries@[i as int]);
                    assert(decreases_to!(*entries => entries@[i as int]));
                    assert(decreases_to!(entries@[i as int] => entries@[i as int].0));
                    assert(decreases_to!(entries@[i as int] => entries@[i as int].1));
                    assert(*v == CborAny::Dict(*entries));
                    assert(decreases_to!(CborAny::Dict(*entries) => *entries));
                }
                encode_any(&entries[i].0, out);
                encode_any(&entries[i].1, out);
                i = i + 1;
            }
            assert(entries@.take(n as int) =~= entries@);
            assert(out@ =~= old(out)@ + spec_enc_any(*v));
        },
        CborAny::Tagged(t, inner) => {
            cbor::encode_tag(*t, out);
            encode_any(inner, out);
            assert(out@ =~= old(out)@ + spec_enc_any(*v));
        },
    }
}

/// How deep a nested value the decoder accepts.
pub const MAX_ANY_DEPTH: u32 = 16;

/// Reads any CBOR value at `pos`, descending at most `depth` levels.
pub fn decode_any(b: &Vec<u8>, pos: usize, depth: u32) -> (r: Result<(CborAny, usize), CborError>)
    ensures
        r matches Ok((v, end)) ==> {
            &&& pos < end <= b@.len()
            &&& b@.subrange(pos as int, end as int) == spec_enc_any(v)
        },
    decreases depth,
{
    if depth == 0 {
        return Err(CborError::Invalid);
    }
    if pos >= b.len() {
        return Err(CborError::Truncated);
    }
    let ib = b[pos];
    if ib == cbor::BYTE_TRUE || ib == cbor::BYTE_FALSE {
        let (x, end) = cbor::decode_bool(b, pos)?;
        return Ok((CborAny::Bool(x), end));
    }
    let major = ib >> 5;
    if major == cbor::MAJOR_UINT || major == cbor::MAJOR_NINT {
        let (x, end) = cbor::decode_int(b, pos)?;
        Ok((CborAny::Int(x), end))
    } else if major == cbor::MAJOR_BYTES {
        let (x, end) = cbor::decode_bytes(b, pos)?;
        Ok((CborAny::Bytes(x), end))
    } else if major == cbor::MAJOR_TEXT {
        let (x, end) = cbor::decode_text(b, pos)?;
        Ok((CborAny::Text(x), end))
    } else if major == cbor::MAJOR_ARRAY {
        let (n, hdr_end) = cbor::decode_array_hdr(b, pos)?;
        let mut items: Vec<CborAny> = Vec::new();
        let mut cur = hdr_end;
        let mut j: u64 = 0;
        while j < n
            invariant
                j <= n,
                j == items@.len(),
                hdr_end <= cur <= b@.len(),
                depth >= 1,
                b@.subrange(hdr_end as int, cur as int) == spec_enc_any_list(items@),
            decreases n - j,
        {
            let ghost before = items@;
            let (x, x_end) = decode_any(b, cur, depth - 1)?;
            proof {
                lemma_enc_any_list_push(before, x);
                cbor::lemma_subrange_concat(b@, hdr_end as int, cur as int, x_end as int);
            }
            items.push(x);
            cur = x_end;
            j = j + 1;
        }
        proof {
            cbor::lemma_subrange_concat(b@, pos as int, hdr_end as int, cur as int);
        }
        let r = CborAny::Array(items);
        assert(b@.subrange(pos as int, cur as int) == spec_enc_any(r));
        Ok((r, cur))
    } else if major == cbor::MAJOR_MAP {
        let (n, hdr_end) = cbor::decode_map_hdr(b, pos)?;
        let mut entries: Vec<(CborAny, CborAny)> = Vec::new();
        let mut cur = hdr_end;
        let mut j: u64 = 0;
        while j < n
            invariant
                j <= n,
                j == entries@.len(),
                hdr_end <= cur <= b@.len(),
                depth >= 1,
                b@.subrange(hdr_end as int, cur as int) == spec_enc_any_pairs(entries@),
            decreases n - j,
        {
            let ghost before = entries@;
            let (k, k_end) = decode_any(b, cur, depth - 1)?;
            let (v, v_end) = decode_any(b, k_end, depth - 1)?;
            proof {
                lemma_enc_any_pairs_push(before, (k, v));
                cbor::lemma_subrange_concat(b@, cur as int, k_end as int, v_end as int);
                cbor::lemma_subrange_concat(b@, hdr_end as int, cur as int, v_end as int);
            }
            entries.push((k, v));
            cur = v_end;
            j = j + 1;
        }
        proof {
            cbor::lemma_subrange_concat(b@, pos as int, hdr_end as int, cur as int);
        }
        let r = CborAny::Dict(entries);
        assert(b@.subrange(pos as int, cur as int) == spec_enc_any(r));
        Ok((r, cur))
    } else if major == cbor::MAJOR_TAG {
        let (t, t_end) = cbor::decode_tag(b, pos)?;
        let (inner, end) = decode_any(b, t_end, depth - 1)?;
        proof {
            cbor::lemma_subrange_concat(b@, pos as int, t_end as int, end as int);
        }
        Ok((CborAny::Tagged(t, Box::new(inner)), end))
    } else {
        Err(CborError::Invalid)
    }
}

} // verus!
