//! Event identifiers: variable-length big-endian non-negative integers with
//! verified addition and subtraction, built from a plain counter or from the
//! composite `(block_height << HEIGHT_EVENTID_SHIFT) | in_block_counter`.

use crate::bytestr;
use crate::cbor;
use crate::cbor::CborError;
use vstd::prelude::*;
use vstd::std_specs::cmp::PartialEqSpec;

verus! {

/// A variable-length big-endian event identifier. Identifiers obtained by
/// arithmetic are minimal (no leading zero); ones built from raw bytes keep
/// the bytes they were given.
#[derive(Debug, Eq)]
pub struct EventId {
    bytes: Vec<u8>,
}

impl View for EventId {
    type V = Seq<u8>;

    closed spec fn view(&self) -> Seq<u8> {
        self.bytes@
    }
}

impl Clone for EventId {
    fn clone(&self) -> (r: EventId)
        ensures
            r@ == self@,
    {
        EventId { bytes: self.bytes.clone() }
    }
}

impl PartialEq for EventId {
    fn eq(&self, other: &EventId) -> (r: bool) {
        let r = self.bytes == other.bytes;
        proof {
            if self.bytes.eq_spec(&other.bytes) {
                assert(self@ =~= other@);
            }
            if self@ == other@ {
                assert(self.bytes.eq_spec(&other.bytes));
            }
        }
        r
    }
}

impl vstd::std_specs::cmp::PartialEqSpecImpl for EventId {
    open spec fn obeys_eq_spec() -> bool {
        true
    }

    open spec fn eq_spec(&self, other: &EventId) -> bool {
        self@ == other@
    }
}

/// The eight big-endian bytes of `v`.
pub open spec fn spec_u64_be(v: u64) -> Seq<u8> {
    seq![
        (v >> 56) as u8,
        (v >> 48) as u8,
        (v >> 40) as u8,
        (v >> 32) as u8,
        (v >> 24) as u8,
        (v >> 16) as u8,
        (v >> 8) as u8,
        v as u8,
    ]
}

/// The four big-endian bytes of `v`.
pub open spec fn spec_u32_be(v: u32) -> Seq<u8> {
    seq![(v >> 24) as u8, (v >> 16) as u8, (v >> 8) as u8, v as u8]
}

/// The eight big-endian bytes of a `u64` are worth the `u64` itself.
pub proof fn lemma_u64_be_value(v: u64)
    ensures
        bytestr::be_value(spec_u64_be(v)) == v,
{
    reveal_with_fuel(bytestr::le_value, 10);
    let s = spec_u64_be(v);
    let r = s.reverse();
    assert(r =~= seq![
        v as u8,
        (v >> 8) as u8,
        (v >> 16) as u8,
        (v >> 24) as u8,
        (v >> 32) as u8,
        (v >> 40) as u8,
        (v >> 48) as u8,
        (v >> 56) as u8,
    ]);
    // Unfold le_value digit by digit.
    assert(r.drop_first() =~= seq![
        (v >> 8) as u8,
        (v >> 16) as u8,
        (v >> 24) as u8,
        (v >> 32) as u8,
        (v >> 40) as u8,
        (v >> 48) as u8,
        (v >> 56) as u8,
    ]);
    let r1 = r.drop_first();
    assert(r1.drop_first() =~= seq![
        (v >> 16) as u8,
        (v >> 24) as u8,
        (v >> 32) as u8,
        (v >> 40) as u8,
        (v >> 48) as u8,
        (v >> 56) as u8,
    ]);
    let r2 = r1.drop_first();
    assert(r2.drop_first() =~= seq![
        (v >> 24) as u8,
        (v >> 32) as u8,
        (v >> 40) as u8,
        (v >> 48) as u8,
        (v >> 56) as u8,
    ]);
    let r3 = r2.drop_first();
    assert(r3.drop_first() =~= seq![
        (v >> 32) as u8,
        (v >> 40) as u8,
        (v >> 48) as u8,
        (v >> 56) as u8,
    ]);
    let r4 = r3.drop_first();
    assert(r4.drop_first() =~= seq![(v >> 40) as u8, (v >> 48) as u8, (v >> 56) as u8]);
    let r5 = r4.drop_first();
    assert(r5.drop_first() =~= seq![(v >> 48) as u8, (v >> 56) as u8]);
    let r6 = r5.drop_first();
    assert(r6.drop_first() =~= seq![(v >> 56) as u8]);
    let r7 = r6.drop_first();
    assert(r7.drop_first() =~= Seq::<u8>::empty());
    assert(bytestr::le_value(r) == (v as u8) + 256 * ((r1[0]) + 256 * ((r2[0]) + 256 * ((r3[0]) + 256
        * ((r4[0]) + 256 * ((r5[0]) + 256 * ((r6[0]) + 256 * ((r7[0]) + 256 * 0))))))));
    assert(v == (v as u8) + 256 * (((v >> 8) as u8) + 256 * (((v >> 16) as u8) + 256 * (((v >> 24)
        as u8) + 256 * (((v >> 32) as u8) + 256 * (((v >> 40) as u8) + 256 * (((v >> 48) as u8)
        + 256 * (((v >> 56) as u8) + 256 * 0)))))))) by (bit_vector);
}

impl EventId {
    /// An identifier made of the given raw bytes.
    pub fn from_bytes(bytes: Vec<u8>) -> (r: EventId)
        ensures
            r@ == bytes@,
    {
        EventId { bytes }
    }

    /// The identifier holding the eight big-endian bytes of `v`.
    pub fn from_u64(v: u64) -> (r: EventId)
        ensures
            r@ == spec_u64_be(v),
            bytestr::be_value(r@) == v,
    {
        let mut bytes: Vec<u8> = Vec::new();
        bytes.push((v >> 56) as u8);
        bytes.push((v >> 48) as u8);
        bytes.push((v >> 40) as u8);
        bytes.push((v >> 32) as u8);
        bytes.push((v >> 24) as u8);
        bytes.push((v >> 16) as u8);
        bytes.push((v >> 8) as u8);
        bytes.push(v as u8);
        assert(bytes@ =~= spec_u64_be(v));
        proof {
            lemma_u64_be_value(v);
        }
        EventId { bytes }
    }

    /// The identifier's raw bytes.
    pub fn to_vec(&self) -> (r: Vec<u8>)
        ensures
            r@ == self@,
    {
        self.bytes.clone()
    }

    /// The number of bytes in the identifier.
    pub fn len(&self) -> (r: usize)
        ensures
            r == self@.len(),
    {
        self.bytes.len()
    }

    /// The identifier worth this one's value plus `rhs`, in minimal form.
    pub fn add_u32(&self, rhs: u32) -> (r: EventId)
        requires
            self@.len() < usize::MAX - 8,
        ensures
            bytestr::be_value(r@) == bytestr::be_value(self@) + rhs,
            bytestr::minimal_be(r@),
            r@.len() <= 1 + (if self@.len() >= 4 {
                self@.len()
            } else {
                4
            }),
    {
        let mut rb: Vec<u8> = Vec::new();
        rb.push((rhs >> 24) as u8);
        rb.push((rhs >> 16) as u8);
        rb.push((rhs >> 8) as u8);
        rb.push(rhs as u8);
        proof {
            lemma_u32_be_value(rhs, rb@);
        }
        EventId { bytes: bytestr::be_add(&self.bytes, &rb) }
    }

    /// The identifier worth this one's value plus the value of `rhs`.
    pub fn add_bytes(&self, rhs: &Vec<u8>) -> (r: EventId)
        requires
            self@.len() + rhs@.len() < usize::MAX - 2,
        ensures
            bytestr::be_value(r@) == bytestr::be_value(self@) + bytestr::be_value(rhs@),
            bytestr::minimal_be(r@),
            r@.len() <= 1 + (if self@.len() >= rhs@.len() {
                self@.len()
            } else {
                rhs@.len()
            }),
    {
        EventId { bytes: bytestr::be_add(&self.bytes, rhs) }
    }

    /// The identifier worth this one's value minus `rhs`, in minimal form.
    pub fn sub_u32(&self, rhs: u32) -> (r: EventId)
        requires
            bytestr::be_value(self@) >= rhs,
        ensures
            bytestr::be_value(r@) == bytestr::be_value(self@) - rhs,
            bytestr::minimal_be(r@),
            r@.len() <= 1 + self@.len(),
    {
        let mut rb: Vec<u8> = Vec::new();
        rb.push((rhs >> 24) as u8);
        rb.push((rhs >> 16) as u8);
        rb.push((rhs >> 8) as u8);
        rb.push(rhs as u8);
        proof {
            lemma_u32_be_value(rhs, rb@);
        }
        EventId { bytes: bytestr::be_sub(&self.bytes, &rb) }
    }

    /// The identifier worth this one's value minus the value of `rhs`.
    pub fn sub_bytes(&self, rhs: &Vec<u8>) -> (r: EventId)
        requires
            bytestr::be_value(rhs@) <= bytestr::be_value(self@),
        ensures
            bytestr::be_value(r@) == bytestr::be_value(self@) - bytestr::be_value(rhs@),
            bytestr::minimal_be(r@),
            r@.len() <= 1 + self@.len(),
    {
        EventId { bytes: bytestr::be_sub(&self.bytes, rhs) }
    }

    /// True when this identifier's bytes precede `other`'s
    /// lexicographically.
    pub fn lex_lt(&self, other: &EventId) -> (r: bool)
        ensures
            r == bytestr::spec_lex_lt(self@, other@),
    {
        bytestr::lex_lt(&self.bytes, &other.bytes)
    }
}

/// The four big-endian bytes of a `u32` are worth the `u32` itself.
proof fn lemma_u32_be_value(v: u32, s: Seq<u8>)
    requires
        s =~= seq![(v >> 24) as u8, (v >> 16) as u8, (v >> 8) as u8, v as u8],
    ensures
        bytestr::be_value(s) == v,
{
    reveal_with_fuel(bytestr::le_value, 6);
    let r = s.reverse();
    assert(r =~= seq![v as u8, (v >> 8) as u8, (v >> 16) as u8, (v >> 24) as u8]);
    let r1 = r.drop_first();
    assert(r1 =~= seq![(v >> 8) as u8, (v >> 16) as u8, (v >> 24) as u8]);
    let r2 = r1.drop_first();
    assert(r2 =~= seq![(v >> 16) as u8, (v >> 24) as u8]);
    let r3 = r2.drop_first();
    assert(r3 =~= seq![(v >> 24) as u8]);
    assert(r3.drop_first() =~= Seq::<u8>::empty());
    assert(bytestr::le_value(r) == (v as u8) + 256 * (((v >> 8) as u8) + 256 * (((v >> 16) as u8)
        + 256 * (((v >> 24) as u8) + 256 * 0))));
    assert(v == (v as u8) + 256 * (((v >> 8) as u8) + 256 * (((v >> 16) as u8) + 256 * (((v >> 24)
        as u8) + 256 * 0)))) by (bit_vector);
}

/// On equally long byte strings, the numeric order and the lexicographic
/// order on the big-endian encodings agree.
pub proof fn lemma_be_lt_lex_lt(a: Seq<u8>, b: Seq<u8>)
    requires
        a.len() == b.len(),
        bytestr::be_value(a) < bytestr::be_value(b),
    ensures
        bytestr::spec_lex_lt(a, b),
    decreases a.len(),
{
    if a.len() == 0 {
        assert(false);
    } else if a[0] == b[0] {
        lemma_be_first_rest(a);
        lemma_be_first_rest(b);
        assert(a[0] * bytestr::pow256((a.len() - 1) as nat) == b[0] * bytestr::pow256(
            (b.len() - 1) as nat,
        ));
        lemma_be_lt_lex_lt(a.drop_first(), b.drop_first());
    } else if a[0] > b[0] {
        lemma_be_first_rest(a);
        lemma_be_first_rest(b);
        bytestr::lemma_le_value_bound(b.drop_first().reverse());
        assert(b.drop_first().reverse().len() == b.len() - 1);
        assert(a[0] * bytestr::pow256((a.len() - 1) as nat) >= (b[0] + 1) * bytestr::pow256(
            (b.len() - 1) as nat,
        )) by (nonlinear_arith)
            requires
                a[0] >= b[0] + 1,
                a.len() == b.len(),
                bytestr::pow256((a.len() - 1) as nat) == bytestr::pow256((b.len() - 1) as nat),
                bytestr::pow256((a.len() - 1) as nat) >= 1,
        ;
        assert((b[0] + 1) * bytestr::pow256((b.len() - 1) as nat) == b[0] * bytestr::pow256(
            (b.len() - 1) as nat,
        ) + bytestr::pow256((b.len() - 1) as nat)) by (nonlinear_arith);
        assert(false);
    }
}

/// A big-endian string's value is its first digit at the top power plus the
/// value of the rest.
pub proof fn lemma_be_first_rest(s: Seq<u8>)
    requires
        s.len() >= 1,
    ensures
        bytestr::be_value(s) == s[0] * bytestr::pow256((s.len() - 1) as nat) + bytestr::be_value(
            s.drop_first(),
        ),
{
    let r = s.reverse();
    assert(r =~= s.drop_first().reverse().push(s[0]));
    bytestr::lemma_le_value_push(s.drop_first().reverse(), s[0]);
    assert(s.drop_first().reverse().len() == s.len() - 1);
}


/// Law: event identifiers of the fixed eight-byte width compare
/// lexicographically exactly as their values do, so a log whose identifiers
/// carry strictly increasing values is strictly increasing in the
/// lexicographic order on the big-endian encodings.
pub proof fn lemma_event_id_lex_monotone(a: u64, b: u64)
    requires
        a < b,
    ensures
        bytestr::spec_lex_lt(spec_u64_be(a), spec_u64_be(b)),
{
    lemma_u64_be_value(a);
    lemma_u64_be_value(b);
    lemma_be_lt_lex_lt(spec_u64_be(a), spec_u64_be(b));
}

/// The canonical encoding of an event identifier: a plain byte string.
pub open spec fn spec_enc_event_id(id: Seq<u8>) -> Seq<u8> {
    cbor::spec_enc_bytes(id)
}

/// Appends the canonical encoding of the identifier `id`.
pub fn encode_event_id(id: &EventId, out: &mut Vec<u8>)
    ensures
        final(out)@ == old(out)@ + spec_enc_event_id(id@),
{
    cbor::encode_bytes(&id.bytes, out);
}

/// Reads an event identifier at `pos`.
pub fn decode_event_id(b: &Vec<u8>, pos: usize) -> (r: Result<(EventId, usize), CborError>)
    ensures
        r matches Ok((id, end)) ==> {
            &&& pos < end <= b@.len()
            &&& b@.subrange(pos as int, end as int) == spec_enc_event_id(id@)
        },
        forall|iv: Seq<u8>|
            (iv.len() <= u64::MAX && cbor::spec_prefix_at(
                b@,
                pos as int,
                #[trigger] spec_enc_event_id(iv),
            )) ==> (r matches Ok(x) && x.0@ == iv && x.1 == pos + spec_enc_event_id(iv).len()),
{
    let (bytes, end) = cbor::decode_bytes(b, pos)?;
    Ok((EventId { bytes }, end))
}

} // verus!
