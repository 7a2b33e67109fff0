//! Low-level CBOR primitives: canonical (minimal-length) headers, unsigned
//! and negative integers, byte strings, text strings, null and booleans.
//!
//! Every encoder appends `spec_*` bytes to its output; every decoder, on
//! success, consumes exactly the bytes that the matching encoder would have
//! produced. Decoders reject non-minimal headers, so the format is
//! canonical: a byte string that decodes is re-encoded to itself.

use vstd::prelude::*;

verus! {

/// Why a CBOR item could not be decoded.
#[derive(Clone, Copy, Debug, PartialEq, Eq, Structural)]
pub enum CborError {
    /// The input ended before the item was complete.
    Truncated,
    /// The bytes do not form the expected item in canonical form.
    Invalid,
}

pub const MAJOR_UINT: u8 = 0;
pub const MAJOR_NINT: u8 = 1;
pub const MAJOR_BYTES: u8 = 2;
pub const MAJOR_TEXT: u8 = 3;
pub const MAJOR_ARRAY: u8 = 4;
pub const MAJOR_MAP: u8 = 5;
pub const MAJOR_TAG: u8 = 6;
pub const MAJOR_SIMPLE: u8 = 7;

pub const BYTE_FALSE: u8 = 0xf4;
pub const BYTE_TRUE: u8 = 0xf5;
pub const BYTE_NULL: u8 = 0xf6;

/// The canonical CBOR header for an item of major type `major` whose
/// argument (value or length) is `v`.
pub open spec fn spec_hdr(major: u8, v: u64) -> Seq<u8> {
    if v < 24 {
        seq![((major << 5) | (v as u8)) as u8]
    } else if v <= 0xff {
        seq![((major << 5) | 24) as u8, v as u8]
    } else if v <= 0xffff {
        seq![((major << 5) | 25) as u8, (v >> 8) as u8, v as u8]
    } else if v <= 0xffff_ffff {
        seq![
            ((major << 5) | 26) as u8,
            (v >> 24) as u8,
            (v >> 16) as u8,
            (v >> 8) as u8,
            v as u8,
        ]
    } else {
        seq![
            ((major << 5) | 27) as u8,
            (v >> 56) as u8,
            (v >> 48) as u8,
            (v >> 40) as u8,
            (v >> 32) as u8,
            (v >> 24) as u8,
            (v >> 16) as u8,
            (v >> 8) as u8,
            v as u8,
        ]
    }
}

/// Appends the canonical header for (`major`, `v`) to `out`.
pub fn encode_hdr(major: u8, v: u64, out: &mut Vec<u8>)
    requires
        major < 8,
    ensures
        final(out)@ == old(out)@ + spec_hdr(major, v),
{
    if v < 24 {
        out.push((major << 5) | (v as u8));
        assert(out@ =~= old(out)@ + spec_hdr(major, v));
    } else if v <= 0xff {
        out.push((major << 5) | 24);
        out.push(v as u8);
        assert(out@ =~= old(out)@ + spec_hdr(major, v));
    } else if v <= 0xffff {
        out.push((major << 5) | 25);
        out.push((v >> 8) as u8);
        out.push(v as u8);
        assert(out@ =~= old(out)@ + spec_hdr(major, v));
    } else if v <= 0xffff_ffff {
        out.push((major << 5) | 26);
        out.push((v >> 24) as u8);
        out.push((v >> 16) as u8);
        out.push((v >> 8) as u8);
        out.push(v as u8);
        assert(out@ =~= old(out)@ + spec_hdr(major, v));
    } else {
        out.push((major << 5) | 27);
        out.push((v >> 56) as u8);
        out.push((v >> 48) as u8);
        out.push((v >> 40) as u8);
        out.push((v >> 32) as u8);
        out.push((v >> 24) as u8);
        out.push((v >> 16) as u8);
        out.push((v >> 8) as u8);
        out.push(v as u8);
        assert(out@ =~= old(out)@ + spec_hdr(major, v));
    }
}

/// Reads a canonical header at `pos`. On success returns the major type,
/// the argument and the position just past the header; the consumed bytes
/// are exactly the canonical header for that pair.
pub fn decode_hdr(b: &Vec<u8>, pos: usize) -> (r: Result<(u8, u64, usize), CborError>)
    ensures
        r matches Ok((major, v, end)) ==> {
            &&& major < 8
            &&& pos < end <= b@.len()
            &&& b@.subrange(pos as int, end as int) == spec_hdr(major, v)
        },
        forall|m2: u8, v2: u64|
            (m2 < 8 && spec_prefix_at(b@, pos as int, #[trigger] spec_hdr(m2, v2))) ==> (
            r matches Ok(x) && x.0 == m2 && x.1 == v2 && x.2 == pos + spec_hdr(m2, v2).len()),
{
    let ghost bv = b@;
    if pos >= b.len() {
        proof {
            assert forall|m2: u8, v2: u64|
                !(m2 < 8 && spec_prefix_at(bv, pos as int, #[trigger] spec_hdr(m2, v2))) by {
                if m2 < 8 {
                    lemma_hdr_shape(m2, v2);
                }
            }
        }
        return Err(CborError::Truncated);
    }
    let ib = b[pos];
    let major = ib >> 5;
    let ai = ib & 0x1f;
    assert(major < 8) by (bit_vector)
        requires
            major == ib >> 5,
    ;
    if ai < 24 {
        let v = ai as u64;
        assert(ib == (major << 5) | (v as u8)) by (bit_vector)
            requires
                major == ib >> 5 && v == (ib & 0x1f) as u64,
        ;
        assert(b@.subrange(pos as int, pos as int + 1) =~= spec_hdr(major, v));
        proof {
            lemma_hdr_complete_at(bv, pos as int, major, v);
        }
        Ok((major, v, pos + 1))
    } else if ai == 24 {
        if b.len() - pos < 2 {
            proof {
            assert forall|m2: u8, v2: u64|
                !(m2 < 8 && spec_prefix_at(bv, pos as int, #[trigger] spec_hdr(m2, v2))) by {
                if m2 < 8 && spec_prefix_at(bv, pos as int, spec_hdr(m2, v2)) {
                    lemma_hdr_shape(m2, v2);
                    lemma_prefix_first(bv, pos as int, spec_hdr(m2, v2));
                    assert(spec_hdr(m2, v2)[0] == bv[pos as int]);
                    lemma_hdr_class_contra(bv, pos as int, m2, v2, ib);
                }
            }
            }
            return Err(CborError::Truncated);
        }
        let b0 = b[pos + 1];
        if b0 < 24 {
            proof {
            assert forall|m2: u8, v2: u64|
                !(m2 < 8 && spec_prefix_at(bv, pos as int, #[trigger] spec_hdr(m2, v2))) by {
                if m2 < 8 && spec_prefix_at(bv, pos as int, spec_hdr(m2, v2)) {
                    lemma_hdr_shape(m2, v2);
                    lemma_prefix_first(bv, pos as int, spec_hdr(m2, v2));
                    assert(spec_hdr(m2, v2)[0] == bv[pos as int]);
                    lemma_hdr_class_contra(bv, pos as int, m2, v2, ib);
                }
            }
            }
            return Err(CborError::Invalid);
        }
        let v = b0 as u64;
        assert(ib == (major << 5) | 24) by (bit_vector)
            requires
                major == ib >> 5 && 24 == ib & 0x1f,
        ;
        assert(v as u8 == b0);
        assert(b@.subrange(pos as int, pos as int + 2) =~= spec_hdr(major, v));
        proof {
            lemma_hdr_complete_at(bv, pos as int, major, v);
        }
        Ok((major, v, pos + 2))
    } else if ai == 25 {
        if b.len() - pos < 3 {
            proof {
            assert forall|m2: u8, v2: u64|
                !(m2 < 8 && spec_prefix_at(bv, pos as int, #[trigger] spec_hdr(m2, v2))) by {
                if m2 < 8 && spec_prefix_at(bv, pos as int, spec_hdr(m2, v2)) {
                    lemma_hdr_shape(m2, v2);
                    lemma_prefix_first(bv, pos as int, spec_hdr(m2, v2));
                    assert(spec_hdr(m2, v2)[0] == bv[pos as int]);
                    lemma_hdr_class_contra(bv, pos as int, m2, v2, ib);
                }
            }
            }
            return Err(CborError::Truncated);
        }
        let b1 = b[pos + 1];
        let b0 = b[pos + 2];
        let v = ((b1 as u64) << 8) | (b0 as u64);
        if v <= 0xff {
            proof {
            assert forall|m2: u8, v2: u64|
                !(m2 < 8 && spec_prefix_at(bv, pos as int, #[trigger] spec_hdr(m2, v2))) by {
                if m2 < 8 && spec_prefix_at(bv, pos as int, spec_hdr(m2, v2)) {
                    lemma_hdr_shape(m2, v2);
                    lemma_prefix_first(bv, pos as int, spec_hdr(m2, v2));
                    assert(spec_hdr(m2, v2)[0] == bv[pos as int]);
                    lemma_hdr_class_contra(bv, pos as int, m2, v2, ib);
                }
            }
            }
            return Err(CborError::Invalid);
        }
        assert(ib == (major << 5) | 25) by (bit_vector)
            requires
                major == ib >> 5 && 25 == ib & 0x1f,
        ;
        assert((v >> 8) as u8 == b1 && v as u8 == b0 && v <= 0xffff) by (bit_vector)
            requires
                v == ((b1 as u64) << 8) | (b0 as u64),
        ;
        assert(b@.subrange(pos as int, pos as int + 3) =~= spec_hdr(major, v));
        proof {
            lemma_hdr_complete_at(bv, pos as int, major, v);
        }
        Ok((major, v, pos + 3))
    } else if ai == 26 {
        if b.len() - pos < 5 {
            proof {
            assert forall|m2: u8, v2: u64|
                !(m2 < 8 && spec_prefix_at(bv, pos as int, #[trigger] spec_hdr(m2, v2))) by {
                if m2 < 8 && spec_prefix_at(bv, pos as int, spec_hdr(m2, v2)) {
                    lemma_hdr_shape(m2, v2);
                    lemma_prefix_first(bv, pos as int, spec_hdr(m2, v2));
                    assert(spec_hdr(m2, v2)[0] == bv[pos as int]);
                    lemma_hdr_class_contra(bv, pos as int, m2, v2, ib);
                }
            }
            }
            return Err(CborError::Truncated);
        }
        let b3 = b[pos + 1];
        let b2 = b[pos + 2];
        let b1 = b[pos + 3];
        let b0 = b[pos + 4];
        let v = ((b3 as u64) << 24) | ((b2 as u64) << 16) | ((b1 as u64) << 8) | (b0 as u64);
        if v <= 0xffff {
            proof {
            assert forall|m2: u8, v2: u64|
                !(m2 < 8 && spec_prefix_at(bv, pos as int, #[trigger] spec_hdr(m2, v2))) by {
                if m2 < 8 && spec_prefix_at(bv, pos as int, spec_hdr(m2, v2)) {
                    lemma_hdr_shape(m2, v2);
                    lemma_prefix_first(bv, pos as int, spec_hdr(m2, v2));
                    assert(spec_hdr(m2, v2)[0] == bv[pos as int]);
                    lemma_hdr_class_contra(bv, pos as int, m2, v2, ib);
                }
            }
            }
            return Err(CborError::Invalid);
        }
        assert(ib == (major << 5) | 26) by (bit_vector)
            requires
                major == ib >> 5 && 26 == ib & 0x1f,
        ;
        assert((v >> 24) as u8 == b3 && (v >> 16) as u8 == b2 && (v >> 8) as u8 == b1 && v as u8
            == b0 && v <= 0xffff_ffff) by (bit_vector)
            requires
                v == ((b3 as u64) << 24) | ((b2 as u64) << 16) | ((b1 as u64) << 8) | (b0 as u64),
        ;
        assert(b@.subrange(pos as int, pos as int + 5) =~= spec_hdr(major, v));
        proof {
            lemma_hdr_complete_at(bv, pos as int, major, v);
        }
        Ok((major, v, pos + 5))
    } else if ai == 27 {
        if b.len() - pos < 9 {
            proof {
            assert forall|m2: u8, v2: u64|
                !(m2 < 8 && spec_prefix_at(bv, pos as int, #[trigger] spec_hdr(m2, v2))) by {
                if m2 < 8 && spec_prefix_at(bv, pos as int, spec_hdr(m2, v2)) {
                    lemma_hdr_shape(m2, v2);
                    lemma_prefix_first(bv, pos as int, spec_hdr(m2, v2));
                    assert(spec_hdr(m2, v2)[0] == bv[pos as int]);
                    lemma_hdr_class_contra(bv, pos as int, m2, v2, ib);
                }
            }
            }
            return Err(CborError::Truncated);
        }
        let b7 = b[pos + 1];
        let b6 = b[pos + 2];
        let b5 = b[pos + 3];
        let b4 = b[pos + 4];
        let b3 = b[pos + 5];
        let b2 = b[pos + 6];
        let b1 = b[pos + 7];
        let b0 = b[pos + 8];
        let v = ((b7 as u64) << 56) | ((b6 as u64) << 48) | ((b5 as u64) << 40) | ((b4 as u64)
            << 32) | ((b3 as u64) << 24) | ((b2 as u64) << 16) | ((b1 as u64) << 8) | (b0 as u64);
        if v <= 0xffff_ffff {
            proof {
            assert forall|m2: u8, v2: u64|
                !(m2 < 8 && spec_prefix_at(bv, pos as int, #[trigger] spec_hdr(m2, v2))) by {
                if m2 < 8 && spec_prefix_at(bv, pos as int, spec_hdr(m2, v2)) {
                    lemma_hdr_shape(m2, v2);
                    lemma_prefix_first(bv, pos as int, spec_hdr(m2, v2));
                    assert(spec_hdr(m2, v2)[0] == bv[pos as int]);
                    lemma_hdr_class_contra(bv, pos as int, m2, v2, ib);
                }
            }
            }
            return Err(CborError::Invalid);
        }
        assert(ib == (major << 5) | 27) by (bit_vector)
            requires
                major == ib >> 5 && 27 == ib & 0x1f,
        ;
        assert((v >> 56) as u8 == b7 && (v >> 48) as u8 == b6 && (v >> 40) as u8 == b5 && (v >> 32)
            as u8 == b4 && (v >> 24) as u8 == b3 && (v >> 16) as u8 == b2 && (v >> 8) as u8 == b1
            && v as u8 == b0) by (bit_vector)
            requires
                v == ((b7 as u64) << 56) | ((b6 as u64) << 48) | ((b5 as u64) << 40) | ((b4 as u64)
                    << 32) | ((b3 as u64) << 24) | ((b2 as u64) << 16) | ((b1 as u64) << 8) | (
                b0 as u64),
        ;
        assert(b@.subrange(pos as int, pos as int + 9) =~= spec_hdr(major, v));
        proof {
            lemma_hdr_complete_at(bv, pos as int, major, v);
        }
        Ok((major, v, pos + 9))
    } else {
        proof {
            assert forall|m2: u8, v2: u64|
                !(m2 < 8 && spec_prefix_at(bv, pos as int, #[trigger] spec_hdr(m2, v2))) by {
                if m2 < 8 && spec_prefix_at(bv, pos as int, spec_hdr(m2, v2)) {
                    lemma_hdr_shape(m2, v2);
                    lemma_prefix_first(bv, pos as int, spec_hdr(m2, v2));
                    assert(spec_hdr(m2, v2)[0] == bv[pos as int]);
                    lemma_hdr_class_contra(bv, pos as int, m2, v2, ib);
                }
            }
        }
        Err(CborError::Invalid)
    }
}

/// A header decoded at a position is the only canonical header prefixed
/// there.
proof fn lemma_hdr_complete_at(b: Seq<u8>, pos: int, m: u8, v: u64)
    requires
        m < 8,
        spec_prefix_at(b, pos, spec_hdr(m, v)),
    ensures
        forall|m2: u8, v2: u64|
            (m2 < 8 && spec_prefix_at(b, pos, #[trigger] spec_hdr(m2, v2))) ==> (m2 == m && v2 == v
                && spec_hdr(m2, v2).len() == spec_hdr(m, v).len()),
{
    assert forall|m2: u8, v2: u64|
        (m2 < 8 && spec_prefix_at(b, pos, #[trigger] spec_hdr(m2, v2))) implies (m2 == m && v2 == v
        && spec_hdr(m2, v2).len() == spec_hdr(m, v).len()) by {
        lemma_hdr_prefix_unique(b, pos, m, v, m2, v2);
    }
}

/// The first element of a prefix is the byte at the start position.
proof fn lemma_prefix_first(b: Seq<u8>, pos: int, seg: Seq<u8>)
    requires
        spec_prefix_at(b, pos, seg),
        seg.len() >= 1,
    ensures
        seg[0] == b[pos],
{
    assert(b.subrange(pos, pos + seg.len() as int)[0] == b[pos]);
}

/// The bytes a prefixed canonical header pins down: its class in the first
/// byte's low bits, its reach within the input, and its argument bytes.
proof fn lemma_hdr_class_contra(b: Seq<u8>, pos: int, m2: u8, v2: u64, ib: u8)
    requires
        m2 < 8,
        spec_prefix_at(b, pos, spec_hdr(m2, v2)),
        b[pos] == ib,
    ensures
        ib & 0x1f == (if v2 < 24 {
            v2 as u8
        } else if v2 <= 0xff {
            24u8
        } else if v2 <= 0xffff {
            25u8
        } else if v2 <= 0xffff_ffff {
            26u8
        } else {
            27u8
        }),
        pos + spec_hdr(m2, v2).len() <= b.len(),
        v2 >= 24 && v2 <= 0xff ==> b[pos + 1] == v2 as u8,
        v2 > 0xff && v2 <= 0xffff ==> b[pos + 1] == (v2 >> 8) as u8 && b[pos + 2] == v2 as u8,
        v2 > 0xffff && v2 <= 0xffff_ffff ==> b[pos + 1] == (v2 >> 24) as u8 && b[pos + 2] == (v2
            >> 16) as u8 && b[pos + 3] == (v2 >> 8) as u8 && b[pos + 4] == v2 as u8,
        v2 > 0xffff_ffff ==> b[pos + 1] == (v2 >> 56) as u8 && b[pos + 2] == (v2 >> 48) as u8 && b[
            pos + 3
        ] == (v2 >> 40) as u8 && b[pos + 4] == (v2 >> 32) as u8 && b[pos + 5] == (v2 >> 24) as u8
            && b[pos + 6] == (v2 >> 16) as u8 && b[pos + 7] == (v2 >> 8) as u8 && b[pos + 8] == v2
            as u8,
        v2 > 0xff && v2 <= 0xffff ==> v2 == ((b[pos + 1] as u64) << 8) | (b[pos + 2] as u64),
        v2 > 0xffff && v2 <= 0xffff_ffff ==> v2 == ((b[pos + 1] as u64) << 24) | ((b[
            pos + 2
        ] as u64) << 16) | ((b[pos + 3] as u64) << 8) | (b[pos + 4] as u64),
        v2 > 0xffff_ffff ==> v2 == ((b[pos + 1] as u64) << 56) | ((b[pos + 2] as u64) << 48) | ((b[
            pos + 3
        ] as u64) << 40) | ((b[pos + 4] as u64) << 32) | ((b[pos + 5] as u64) << 24) | ((b[
            pos + 6
        ] as u64) << 16) | ((b[pos + 7] as u64) << 8) | (b[pos + 8] as u64),
{
    lemma_hdr_shape(m2, v2);
    let h = spec_hdr(m2, v2);
    assert forall|i: int| 0 <= i < h.len() implies b[pos + i] == #[trigger] h[i] by {
        assert(b.subrange(pos, pos + h.len() as int)[i] == h[i]);
    }
    assert(h[0] == b[pos]);
    if v2 > 0xff && v2 <= 0xffff {
        assert(v2 == (((v2 >> 8) as u8 as u64) << 8) | ((v2 as u8) as u64)) by (bit_vector)
            requires
                v2 <= 0xffff,
        ;
    } else if v2 > 0xffff && v2 <= 0xffff_ffff {
        assert(v2 == (((v2 >> 24) as u8 as u64) << 24) | (((v2 >> 16) as u8 as u64) << 16) | (((v2
            >> 8) as u8 as u64) << 8) | ((v2 as u8) as u64)) by (bit_vector)
            requires
                v2 <= 0xffff_ffff,
        ;
    } else if v2 > 0xffff_ffff {
        assert(v2 == (((v2 >> 56) as u8 as u64) << 56) | (((v2 >> 48) as u8 as u64) << 48) | (((v2
            >> 40) as u8 as u64) << 40) | (((v2 >> 32) as u8 as u64) << 32) | (((v2 >> 24) as u8
            as u64) << 24) | (((v2 >> 16) as u8 as u64) << 16) | (((v2 >> 8) as u8 as u64) << 8) | (
        (v2 as u8) as u64)) by (bit_vector);
    }
}

/// Concatenation of byte strings is associative.
pub broadcast proof fn lemma_concat_assoc_bytes(s1: Seq<u8>, s2: Seq<u8>, s3: Seq<u8>)
    ensures
        #[trigger] ((s1 + s2) + s3) == s1 + (s2 + s3),
{
    vstd::seq_lib::lemma_concat_associative(s1, s2, s3);
}

/// A byte range splits at any interior position into two adjacent ranges.
pub proof fn lemma_subrange_concat(b: Seq<u8>, i: int, j: int, k: int)
    requires
        0 <= i <= j <= k <= b.len(),
    ensures
        b.subrange(i, k) == b.subrange(i, j) + b.subrange(j, k),
{
    assert(b.subrange(i, k) =~= b.subrange(i, j) + b.subrange(j, k));
}

/// The canonical encoding of the unsigned integer `v`.
pub open spec fn spec_enc_uint(v: u64) -> Seq<u8> {
    spec_hdr(MAJOR_UINT, v)
}

/// The canonical encoding of the negative integer `-1 - m` for `m >= 0`.
pub open spec fn spec_enc_nint(m: u64) -> Seq<u8> {
    spec_hdr(MAJOR_NINT, m)
}

/// The canonical encoding of the byte string `b`.
pub open spec fn spec_enc_bytes(b: Seq<u8>) -> Seq<u8> {
    spec_hdr(MAJOR_BYTES, b.len() as u64) + b
}

/// The canonical encoding of the text string whose characters are `s`.
pub open spec fn spec_enc_text(s: Seq<char>) -> Seq<u8> {
    spec_hdr(MAJOR_TEXT, vstd::utf8::encode_utf8(s).len() as u64) + vstd::utf8::encode_utf8(s)
}

/// Appends the canonical encoding of `v` as an unsigned integer.
pub fn encode_uint(v: u64, out: &mut Vec<u8>)
    ensures
        final(out)@ == old(out)@ + spec_enc_uint(v),
{
    encode_hdr(MAJOR_UINT, v, out);
}

/// Appends the canonical encoding of the negative integer `-1 - m`.
pub fn encode_nint(m: u64, out: &mut Vec<u8>)
    ensures
        final(out)@ == old(out)@ + spec_enc_nint(m),
{
    encode_hdr(MAJOR_NINT, m, out);
}

/// Appends the canonical encoding of the byte string `b`.
pub fn encode_bytes(b: &Vec<u8>, out: &mut Vec<u8>)
    ensures
        final(out)@ == old(out)@ + spec_enc_bytes(b@),
{
    let n = b.len();
    encode_hdr(MAJOR_BYTES, n as u64, out);
    let ghost mid = out@;
    out.extend_from_slice(b.as_slice());
    assert(out@ =~= old(out)@ + spec_enc_bytes(b@));
}

/// Appends the canonical encoding of the text string `s`.
pub fn encode_text(s: &String, out: &mut Vec<u8>)
    ensures
        final(out)@ == old(out)@ + spec_enc_text(s@),
{
    let bytes = s.as_str().as_bytes();
    let n = bytes.len();
    encode_hdr(MAJOR_TEXT, n as u64, out);
    out.extend_from_slice(bytes);
    assert(out@ =~= old(out)@ + spec_enc_text(s@));
}

/// Reads an unsigned integer at `pos`.
pub fn decode_uint(b: &Vec<u8>, pos: usize) -> (r: Result<(u64, usize), CborError>)
    ensures
        r matches Ok((v, end)) ==> {
            &&& pos < end <= b@.len()
            &&& b@.subrange(pos as int, end as int) == spec_enc_uint(v)
        },
        forall|v: u64|
            spec_prefix_at(b@, pos as int, #[trigger] spec_enc_uint(v)) ==> (r matches Ok(x) && x.0
                == v && x.1 == pos + spec_enc_uint(v).len()),
{
    let (major, v, end) = decode_hdr(b, pos)?;
    if major != MAJOR_UINT {
        return Err(CborError::Invalid);
    }
    Ok((v, end))
}

/// Reads a negative integer at `pos`; returns `m` standing for `-1 - m`.
pub fn decode_nint(b: &Vec<u8>, pos: usize) -> (r: Result<(u64, usize), CborError>)
    ensures
        r matches Ok((m, end)) ==> {
            &&& pos < end <= b@.len()
            &&& b@.subrange(pos as int, end as int) == spec_enc_nint(m)
        },
        forall|m: u64|
            spec_prefix_at(b@, pos as int, #[trigger] spec_enc_nint(m)) ==> (r matches Ok(x) && x.0
                == m && x.1 == pos + spec_enc_nint(m).len()),
{
    let (major, m, end) = decode_hdr(b, pos)?;
    if major != MAJOR_NINT {
        return Err(CborError::Invalid);
    }
    Ok((m, end))
}

/// Copies `b[start..start+n]` into a fresh vector.
pub fn copy_range(b: &Vec<u8>, start: usize, n: usize) -> (r: Vec<u8>)
    requires
        start + n <= b@.len(),
    ensures
        r@ == b@.subrange(start as int, start as int + n as int),
{
    let blen = b.len();
    let mut r: Vec<u8> = Vec::new();
    let mut i: usize = 0;
    while i < n
        invariant
            i <= n,
            start + n <= blen,
            blen == b@.len(),
            r@ == b@.subrange(start as int, start as int + i as int),
        decreases n - i,
    {
        r.push(b[start + i]);
        assert(r@ =~= b@.subrange(start as int, start as int + (i + 1) as int));
        i = i + 1;
    }
    r
}

/// Reads a byte string at `pos`.
pub fn decode_bytes(b: &Vec<u8>, pos: usize) -> (r: Result<(Vec<u8>, usize), CborError>)
    ensures
        r matches Ok((v, end)) ==> {
            &&& pos < end <= b@.len()
            &&& b@.subrange(pos as int, end as int) == spec_enc_bytes(v@)
        },
        forall|bs: Seq<u8>|
            (bs.len() <= u64::MAX && spec_prefix_at(b@, pos as int, #[trigger] spec_enc_bytes(
                bs,
            ))) ==> (r matches Ok(x) && x.0@ == bs && x.1 == pos + spec_enc_bytes(bs).len()),
{
    proof {
        assert forall|bs: Seq<u8>|
            (bs.len() <= u64::MAX && spec_prefix_at(b@, pos as int, #[trigger] spec_enc_bytes(
                bs,
            ))) implies spec_prefix_at(b@, pos as int, spec_hdr(MAJOR_BYTES, bs.len() as u64))
            && spec_prefix_at(
            b@,
            pos as int + spec_hdr(MAJOR_BYTES, bs.len() as u64).len(),
            bs,
        ) by {
            lemma_prefix_split(b@, pos as int, spec_hdr(MAJOR_BYTES, bs.len() as u64), bs);
        }
    }
    let (major, n, mid) = decode_hdr(b, pos)?;
    if major != MAJOR_BYTES {
        return Err(CborError::Invalid);
    }
    if n > (b.len() - mid) as u64 {
        return Err(CborError::Truncated);
    }
    let n = n as usize;
    let v = copy_range(b, mid, n);
    assert(b@.subrange(pos as int, mid as int + n as int) =~= spec_enc_bytes(v@));
    Ok((v, mid + n))
}

/// Relies on `String::from_utf8`: succeeds exactly on valid UTF-8 input and
/// returns the string made of those bytes.
#[verifier::external_body]
fn string_from_utf8(v: Vec<u8>) -> (r: Option<String>)
    ensures
        r is Some <==> vstd::utf8::valid_utf8(v@),
        r matches Some(s) ==> s@ == vstd::utf8::decode_utf8(v@),
{
    String::from_utf8(v).ok()
}

/// Reads a text string at `pos`.
pub fn decode_text(b: &Vec<u8>, pos: usize) -> (r: Result<(String, usize), CborError>)
    ensures
        r matches Ok((s, end)) ==> {
            &&& pos < end <= b@.len()
            &&& b@.subrange(pos as int, end as int) == spec_enc_text(s@)
        },
        forall|sv: Seq<char>|
            (vstd::utf8::encode_utf8(sv).len() <= u64::MAX && spec_prefix_at(
                b@,
                pos as int,
                #[trigger] spec_enc_text(sv),
            )) ==> (r matches Ok(x) && x.0@ == sv && x.1 == pos + spec_enc_text(sv).len()),
{
    proof {
        broadcast use vstd::utf8::encode_utf8_valid_utf8;
        broadcast use vstd::utf8::encode_utf8_decode_utf8;

        assert forall|sv: Seq<char>|
            (vstd::utf8::encode_utf8(sv).len() <= u64::MAX && spec_prefix_at(
                b@,
                pos as int,
                #[trigger] spec_enc_text(sv),
            )) implies spec_prefix_at(
            b@,
            pos as int,
            spec_hdr(MAJOR_TEXT, vstd::utf8::encode_utf8(sv).len() as u64),
        ) && spec_prefix_at(
            b@,
            pos as int + spec_hdr(MAJOR_TEXT, vstd::utf8::encode_utf8(sv).len() as u64).len(),
            vstd::utf8::encode_utf8(sv),
        ) by {
            lemma_prefix_split(
                b@,
                pos as int,
                spec_hdr(MAJOR_TEXT, vstd::utf8::encode_utf8(sv).len() as u64),
                vstd::utf8::encode_utf8(sv),
            );
        }
    }
    let (major, n, mid) = decode_hdr(b, pos)?;
    if major != MAJOR_TEXT {
        return Err(CborError::Invalid);
    }
    if n > (b.len() - mid) as u64 {
        return Err(CborError::Truncated);
    }
    let n = n as usize;
    let v = copy_range(b, mid, n);
    let ghost vbytes = v@;
    match string_from_utf8(v) {
        Some(s) => {
            proof {
                broadcast use vstd::utf8::decode_utf8_encode_utf8;

            }
            assert(vstd::utf8::encode_utf8(s@) == vbytes);
            assert(b@.subrange(pos as int, mid as int + n as int) =~= spec_enc_text(s@));
            Ok((s, mid + n))
        },
        None => Err(CborError::Invalid),
    }
}

/// Appends the single byte that encodes `null`.
pub fn encode_null(out: &mut Vec<u8>)
    ensures
        final(out)@ == old(out)@ + seq![BYTE_NULL],
{
    out.push(BYTE_NULL);
    assert(out@ =~= old(out)@ + seq![BYTE_NULL]);
}

/// The encoding of a boolean.
pub open spec fn spec_enc_bool(v: bool) -> Seq<u8> {
    if v {
        seq![BYTE_TRUE]
    } else {
        seq![BYTE_FALSE]
    }
}

/// Appends the single byte that encodes the boolean `v`.
pub fn encode_bool(v: bool, out: &mut Vec<u8>)
    ensures
        final(out)@ == old(out)@ + spec_enc_bool(v),
{
    if v {
        out.push(BYTE_TRUE);
    } else {
        out.push(BYTE_FALSE);
    }
    assert(out@ =~= old(out)@ + spec_enc_bool(v));
}

/// Reads a boolean at `pos`.
pub fn decode_bool(b: &Vec<u8>, pos: usize) -> (r: Result<(bool, usize), CborError>)
    ensures
        r matches Ok((v, end)) ==> {
            &&& pos < end <= b@.len()
            &&& b@.subrange(pos as int, end as int) == spec_enc_bool(v)
        },
        forall|v: bool|
            spec_prefix_at(b@, pos as int, #[trigger] spec_enc_bool(v)) ==> (r matches Ok(x) && x.0
                == v && x.1 == pos + 1),
{
    proof {
        assert forall|v: bool|
            spec_prefix_at(b@, pos as int, #[trigger] spec_enc_bool(v)) implies b@[pos as int] == (
            if v {
                BYTE_TRUE
            } else {
                BYTE_FALSE
            }) by {
            lemma_prefix_first(b@, pos as int, spec_enc_bool(v));
        }
    }
    if pos >= b.len() {
        return Err(CborError::Truncated);
    }
    let ib = b[pos];
    if ib == BYTE_TRUE {
        assert(b@.subrange(pos as int, pos as int + 1) =~= spec_enc_bool(true));
        Ok((true, pos + 1))
    } else if ib == BYTE_FALSE {
        assert(b@.subrange(pos as int, pos as int + 1) =~= spec_enc_bool(false));
        Ok((false, pos + 1))
    } else {
        Err(CborError::Invalid)
    }
}

/// True when the byte at `pos` is the `null` item.
pub fn peek_null(b: &Vec<u8>, pos: usize) -> (r: bool)
    ensures
        r <==> (pos < b@.len() && b@[pos as int] == BYTE_NULL),
{
    pos < b.len() && b[pos] == BYTE_NULL
}

/// The canonical encoding of a tag header with value `t`.
pub open spec fn spec_enc_tag(t: u64) -> Seq<u8> {
    spec_hdr(MAJOR_TAG, t)
}

/// Appends a tag header with value `t`.
pub fn encode_tag(t: u64, out: &mut Vec<u8>)
    ensures
        final(out)@ == old(out)@ + spec_enc_tag(t),
{
    encode_hdr(MAJOR_TAG, t, out);
}

/// Reads a tag header at `pos`, returning the tag value.
pub fn decode_tag(b: &Vec<u8>, pos: usize) -> (r: Result<(u64, usize), CborError>)
    ensures
        r matches Ok((t, end)) ==> {
            &&& pos < end <= b@.len()
            &&& b@.subrange(pos as int, end as int) == spec_enc_tag(t)
        },
        forall|t: u64|
            spec_prefix_at(b@, pos as int, #[trigger] spec_enc_tag(t)) ==> (r matches Ok(x) && x.0
                == t && x.1 == pos + spec_enc_tag(t).len()),
{
    let (major, t, end) = decode_hdr(b, pos)?;
    if major != MAJOR_TAG {
        return Err(CborError::Invalid);
    }
    Ok((t, end))
}

/// Reads an array header at `pos`, returning the element count.
pub fn decode_array_hdr(b: &Vec<u8>, pos: usize) -> (r: Result<(u64, usize), CborError>)
    ensures
        r matches Ok((n, end)) ==> {
            &&& pos < end <= b@.len()
            &&& b@.subrange(pos as int, end as int) == spec_hdr(MAJOR_ARRAY, n)
        },
        forall|n: u64|
            spec_prefix_at(b@, pos as int, #[trigger] spec_hdr(MAJOR_ARRAY, n)) ==> (
            r matches Ok(x) && x.0 == n && x.1 == pos + spec_hdr(MAJOR_ARRAY, n).len()),
{
    let (major, n, end) = decode_hdr(b, pos)?;
    if major != MAJOR_ARRAY {
        return Err(CborError::Invalid);
    }
    Ok((n, end))
}

/// Reads a map header at `pos`, returning the entry count.
pub fn decode_map_hdr(b: &Vec<u8>, pos: usize) -> (r: Result<(u64, usize), CborError>)
    ensures
        r matches Ok((n, end)) ==> {
            &&& pos < end <= b@.len()
            &&& b@.subrange(pos as int, end as int) == spec_hdr(MAJOR_MAP, n)
        },
        forall|n: u64|
            spec_prefix_at(b@, pos as int, #[trigger] spec_hdr(MAJOR_MAP, n)) ==> (
            r matches Ok(x) && x.0 == n && x.1 == pos + spec_hdr(MAJOR_MAP, n).len()),
{
    let (major, n, end) = decode_hdr(b, pos)?;
    if major != MAJOR_MAP {
        return Err(CborError::Invalid);
    }
    Ok((n, end))
}

/// The canonical encoding of a signed integer: a negative-integer item for
/// negative values, an unsigned-integer item otherwise.
pub open spec fn spec_enc_int(v: i64) -> Seq<u8> {
    if v < 0 {
        spec_enc_nint((-1 - v) as u64)
    } else {
        spec_enc_uint(v as u64)
    }
}

/// Appends the canonical encoding of the signed integer `v`.
pub fn encode_int(v: i64, out: &mut Vec<u8>)
    ensures
        final(out)@ == old(out)@ + spec_enc_int(v),
{
    if v < 0 {
        let m: u64 = if v == i64::MIN {
            i64::MAX as u64
        } else {
            (-1 - v) as u64
        };
        assert(m == -1 - v);
        encode_nint(m, out);
    } else {
        encode_uint(v as u64, out);
    }
}

/// Reads a signed integer at `pos`.
pub fn decode_int(b: &Vec<u8>, pos: usize) -> (r: Result<(i64, usize), CborError>)
    ensures
        r matches Ok((v, end)) ==> {
            &&& pos < end <= b@.len()
            &&& b@.subrange(pos as int, end as int) == spec_enc_int(v)
        },
        forall|v: i64|
            spec_prefix_at(b@, pos as int, #[trigger] spec_enc_int(v)) ==> (r matches Ok(x) && x.0
                == v && x.1 == pos + spec_enc_int(v).len()),
{
    proof {
        assert forall|v: i64|
            spec_prefix_at(b@, pos as int, #[trigger] spec_enc_int(v)) implies (b@[pos as int] >> 5
            == (if v < 0 {
            MAJOR_NINT
        } else {
            MAJOR_UINT
        })) by {
            if v < 0 {
                lemma_hdr_shape(MAJOR_NINT, (-1 - v) as u64);
                lemma_prefix_first(b@, pos as int, spec_enc_nint((-1 - v) as u64));
            } else {
                lemma_hdr_shape(MAJOR_UINT, v as u64);
                lemma_prefix_first(b@, pos as int, spec_enc_uint(v as u64));
            }
        }
    }
    if pos >= b.len() {
        return Err(CborError::Truncated);
    }
    let major = b[pos] >> 5;
    if major == MAJOR_NINT {
        let (m, end) = decode_nint(b, pos)?;
        if m > (i64::MAX as u64) {
            return Err(CborError::Invalid);
        }
        let v: i64 = -1 - (m as i64);
        assert(m == -1 - v);
        Ok((v, end))
    } else {
        let (v, end) = decode_uint(b, pos)?;
        if v > (i64::MAX as u64) {
            return Err(CborError::Invalid);
        }
        Ok((v as i64, end))
    }
}

/// The bytes of `b` from `pos` on start with the segment `seg`.
pub open spec fn spec_prefix_at(b: Seq<u8>, pos: int, seg: Seq<u8>) -> bool {
    &&& 0 <= pos
    &&& pos + seg.len() <= b.len()
    &&& b.subrange(pos, pos + seg.len()) == seg
}

/// A prefix that is a concatenation splits into two adjacent prefixes.
pub proof fn lemma_prefix_split(b: Seq<u8>, pos: int, s1: Seq<u8>, s2: Seq<u8>)
    requires
        spec_prefix_at(b, pos, s1 + s2),
    ensures
        spec_prefix_at(b, pos, s1),
        spec_prefix_at(b, pos + s1.len(), s2),
{
    assert forall|i: int| 0 <= i < s1.len() implies b[pos + i] == s1[i] by {
        assert(b.subrange(pos, pos + (s1 + s2).len() as int)[i] == (s1 + s2)[i]);
    }
    assert forall|i: int| 0 <= i < s2.len() implies b[pos + s1.len() + i] == s2[i] by {
        assert(b.subrange(pos, pos + (s1 + s2).len() as int)[s1.len() + i] == (s1 + s2)[s1.len()
            + i]);
    }
    assert(b.subrange(pos, pos + s1.len()) =~= s1);
    assert(b.subrange(pos + s1.len(), pos + s1.len() + s2.len()) =~= s2);
}

/// The length, first byte and argument bytes of a canonical header, by the
/// argument's size class.
pub proof fn lemma_hdr_shape(m: u8, v: u64)
    requires
        m < 8,
    ensures
        spec_hdr(m, v).len() == (if v < 24 {
            1int
        } else if v <= 0xff {
            2
        } else if v <= 0xffff {
            3
        } else if v <= 0xffff_ffff {
            5
        } else {
            9
        }),
        spec_hdr(m, v)[0] >> 5 == m,
        spec_hdr(m, v)[0] & 0x1f == (if v < 24 {
            v as u8
        } else if v <= 0xff {
            24u8
        } else if v <= 0xffff {
            25u8
        } else if v <= 0xffff_ffff {
            26u8
        } else {
            27u8
        }),
{
    let c: u8 = if v < 24 {
        v as u8
    } else if v <= 0xff {
        24u8
    } else if v <= 0xffff {
        25u8
    } else if v <= 0xffff_ffff {
        26u8
    } else {
        27u8
    };
    assert(c < 32);
    assert(((m << 5) | c) >> 5 == m && ((m << 5) | c) & 0x1f == c) by (bit_vector)
        requires
            m < 8 && c < 32,
    ;
}

/// Two canonical headers that start at the same position of the same byte
/// string are the same header.
pub proof fn lemma_hdr_prefix_unique(b: Seq<u8>, pos: int, m1: u8, v1: u64, m2: u8, v2: u64)
    requires
        m1 < 8,
        m2 < 8,
        spec_prefix_at(b, pos, spec_hdr(m1, v1)),
        spec_prefix_at(b, pos, spec_hdr(m2, v2)),
    ensures
        m1 == m2,
        v1 == v2,
{
    lemma_hdr_shape(m1, v1);
    lemma_hdr_shape(m2, v2);
    let h1 = spec_hdr(m1, v1);
    let h2 = spec_hdr(m2, v2);
    assert(b.subrange(pos, pos + h1.len() as int)[0] == b[pos]);
    assert(b.subrange(pos, pos + h2.len() as int)[0] == b[pos]);
    assert(h1[0] == h2[0]);
    // The first byte fixes the major type and the size class, so both
    // headers have the same length; their argument bytes then coincide.
    assert(h1.len() == h2.len());
    assert(forall|i: int|
        0 <= i < h1.len() ==> b.subrange(pos, pos + h1.len() as int)[i] == #[trigger] h1[i]
            && b.subrange(pos, pos + h2.len() as int)[i] == h2[i]);
    assert(forall|i: int| 0 <= i < h1.len() ==> #[trigger] h1[i] == h2[i]);
    if v1 < 24 {
    } else if v1 <= 0xff {
        assert(h1[1] == v1 as u8 && h2[1] == v2 as u8);
        assert(v1 == v1 as u8 && v2 == v2 as u8);
    } else if v1 <= 0xffff {
        assert(v1 == v2) by (bit_vector)
            requires
                v1 <= 0xffff && v2 <= 0xffff && (v1 >> 8) as u8 == (v2 >> 8) as u8 && v1 as u8
                    == v2 as u8,
        ;
    } else if v1 <= 0xffff_ffff {
        assert(v1 == v2) by (bit_vector)
            requires
                v1 <= 0xffff_ffff && v2 <= 0xffff_ffff && (v1 >> 24) as u8 == (v2 >> 24) as u8 && (
                v1 >> 16) as u8 == (v2 >> 16) as u8 && (v1 >> 8) as u8 == (v2 >> 8) as u8 && v1
                    as u8 == v2 as u8,
        ;
    } else {
        assert(v1 == v2) by (bit_vector)
            requires
                (v1 >> 56) as u8 == (v2 >> 56) as u8 && (v1 >> 48) as u8 == (v2 >> 48) as u8 && (
                v1 >> 40) as u8 == (v2 >> 40) as u8 && (v1 >> 32) as u8 == (v2 >> 32) as u8 && (
                v1 >> 24) as u8 == (v2 >> 24) as u8 && (v1 >> 16) as u8 == (v2 >> 16) as u8 && (
                v1 >> 8) as u8 == (v2 >> 8) as u8 && v1 as u8 == v2 as u8,
        ;
    }
}

/// Two unsigned integers canonically encoded at the same position coincide.
pub proof fn lemma_uint_prefix_unique(b: Seq<u8>, pos: int, v1: u64, v2: u64)
    requires
        spec_prefix_at(b, pos, spec_enc_uint(v1)),
        spec_prefix_at(b, pos, spec_enc_uint(v2)),
    ensures
        v1 == v2,
{
    lemma_hdr_prefix_unique(b, pos, MAJOR_UINT, v1, MAJOR_UINT, v2);
}

/// Two signed integers canonically encoded at the same position coincide.
pub proof fn lemma_int_prefix_unique(b: Seq<u8>, pos: int, v1: i64, v2: i64)
    requires
        spec_prefix_at(b, pos, spec_enc_int(v1)),
        spec_prefix_at(b, pos, spec_enc_int(v2)),
    ensures
        v1 == v2,
{
    if v1 < 0 && v2 < 0 {
        lemma_hdr_prefix_unique(b, pos, MAJOR_NINT, (-1 - v1) as u64, MAJOR_NINT, (-1 - v2) as u64);
    } else if v1 >= 0 && v2 >= 0 {
        lemma_hdr_prefix_unique(b, pos, MAJOR_UINT, v1 as u64, MAJOR_UINT, v2 as u64);
    } else if v1 < 0 {
        lemma_hdr_prefix_unique(b, pos, MAJOR_NINT, (-1 - v1) as u64, MAJOR_UINT, v2 as u64);
    } else {
        lemma_hdr_prefix_unique(b, pos, MAJOR_UINT, v1 as u64, MAJOR_NINT, (-1 - v2) as u64);
    }
}

/// Two byte strings canonically encoded at the same position coincide, so
/// their encodings do too.
pub proof fn lemma_bytes_prefix_unique(b: Seq<u8>, pos: int, s1: Seq<u8>, s2: Seq<u8>)
    requires
        s1.len() <= u64::MAX,
        s2.len() <= u64::MAX,
        spec_prefix_at(b, pos, spec_enc_bytes(s1)),
        spec_prefix_at(b, pos, spec_enc_bytes(s2)),
    ensures
        s1 == s2,
{
    let h1 = spec_hdr(MAJOR_BYTES, s1.len() as u64);
    let h2 = spec_hdr(MAJOR_BYTES, s2.len() as u64);
    lemma_prefix_split(b, pos, h1, s1);
    lemma_prefix_split(b, pos, h2, s2);
    lemma_hdr_prefix_unique(b, pos, MAJOR_BYTES, s1.len() as u64, MAJOR_BYTES, s2.len() as u64);
    assert(s1.len() == s2.len());
    let p = pos + h1.len();
    assert(b.subrange(p, p + s1.len() as int) == s1);
    assert(b.subrange(p, p + s2.len() as int) == s2);
}

/// Two character strings canonically encoded at the same position coincide.
pub proof fn lemma_text_prefix_unique(b: Seq<u8>, pos: int, s1: Seq<char>, s2: Seq<char>)
    requires
        vstd::utf8::encode_utf8(s1).len() <= u64::MAX,
        vstd::utf8::encode_utf8(s2).len() <= u64::MAX,
        spec_prefix_at(b, pos, spec_enc_text(s1)),
        spec_prefix_at(b, pos, spec_enc_text(s2)),
    ensures
        s1 == s2,
{
    let u1 = vstd::utf8::encode_utf8(s1);
    let u2 = vstd::utf8::encode_utf8(s2);
    let h1 = spec_hdr(MAJOR_TEXT, u1.len() as u64);
    let h2 = spec_hdr(MAJOR_TEXT, u2.len() as u64);
    lemma_prefix_split(b, pos, h1, u1);
    lemma_prefix_split(b, pos, h2, u2);
    lemma_hdr_prefix_unique(b, pos, MAJOR_TEXT, u1.len() as u64, MAJOR_TEXT, u2.len() as u64);
    assert(u1.len() == u2.len());
    let p = pos + h1.len();
    assert(b.subrange(p, p + u1.len() as int) == u1);
    assert(b.subrange(p, p + u2.len() as int) == u2);
    vstd::utf8::encode_utf8_decode_utf8(s1);
    vstd::utf8::encode_utf8_decode_utf8(s2);
}

} // verus!
