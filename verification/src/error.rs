//! The protocol error value: a numeric code, an optional message, and named
//! arguments. Codes are stable across replicas; attribute-specific codes
//! occupy the range at or below `ATTRIBUTE_CODE_BASE` and are composed as
//! `-(attribute_id * 10000 + index)`.

use crate::cbor;
use crate::cbor::CborError;
use vstd::prelude::*;

verus! {

/// Code of the generic "unknown" error.
pub const CODE_UNKNOWN: i64 = -1;

/// Code returned when no module serves a requested method.
pub const CODE_COULD_NOT_ROUTE_MESSAGE: i64 = -2;

/// Code returned when a method name is not served.
pub const CODE_INVALID_METHOD_NAME: i64 = -3;

/// Code returned when a value could not be deserialized.
pub const CODE_DESERIALIZATION_ERROR: i64 = -4;

/// Code returned when a value could not be serialized.
pub const CODE_SERIALIZATION_ERROR: i64 = -5;

/// Code returned when an envelope names a destination other than this server.
pub const CODE_UNKNOWN_DESTINATION: i64 = -6;

/// Code returned when a message timestamp is missing.
pub const CODE_REQUIRED_FIELD_MISSING: i64 = -7;

/// Code returned when a message timestamp lies outside the accepted window.
pub const CODE_TIMESTAMP_OUT_OF_RANGE: i64 = -8;

/// Code returned by the fallback consistency check of the server status.
pub const CODE_INTERNAL_SERVER_ERROR: i64 = -9;

/// All codes at or below this value are attribute-specific.
pub const ATTRIBUTE_CODE_BASE: i64 = -10000;

/// True when `code` belongs to an attribute-specific error namespace.
pub open spec fn spec_is_attribute_specific(code: i64) -> bool {
    code <= ATTRIBUTE_CODE_BASE
}

/// A protocol error: a code, an optional human-readable message, and named
/// textual arguments, kept in their wire order.
#[derive(Clone, Debug)]
pub struct ManyError {
    pub code: i64,
    pub message: Option<String>,
    pub arguments: Vec<(String, String)>,
}

impl ManyError {
    /// The error's numeric code.
    pub fn code(&self) -> (r: i64)
        ensures
            r == self.code,
    {
        self.code
    }

    /// The same error under another code.
    pub fn with_code(self, code: i64) -> (r: ManyError)
        ensures
            r.code == code,
            r.message == self.message,
            r.arguments == self.arguments,
    {
        ManyError { code, message: self.message, arguments: self.arguments }
    }

    /// True when the code belongs to an attribute-specific namespace.
    pub fn is_attribute_specific(&self) -> (r: bool)
        ensures
            r == spec_is_attribute_specific(self.code),
    {
        self.code <= ATTRIBUTE_CODE_BASE
    }

    /// An error with the given code and message and no arguments.
    pub fn new(code: i64, message: Option<String>) -> (r: ManyError)
        ensures
            r.code == code,
            r.message == message,
            r.arguments@ =~= Seq::<(String, String)>::empty(),
    {
        ManyError { code, message, arguments: Vec::new() }
    }

    /// The attribute-specific code `-(attribute_id * 10000 + index)`.
    pub fn attribute_specific_code(attribute_id: u32, index: u32) -> (r: i64)
        requires
            index < 10000,
        ensures
            r == -((attribute_id * 10000 + index) as i64),
            spec_is_attribute_specific(r) <==> attribute_id >= 1,
    {
        -((attribute_id as i64) * 10000 + (index as i64))
    }

    /// The generic unknown error.
    pub fn unknown(message: String) -> (r: ManyError)
        ensures
            r.code == CODE_UNKNOWN,
            r.message == Some(message),
    {
        ManyError::new(CODE_UNKNOWN, Some(message))
    }

    /// The error for a message that no module serves.
    pub fn could_not_route_message() -> (r: ManyError)
        ensures
            r.code == CODE_COULD_NOT_ROUTE_MESSAGE,
    {
        ManyError::new(CODE_COULD_NOT_ROUTE_MESSAGE, None)
    }

    /// The error for an unserved method name.
    pub fn invalid_method_name(method: String) -> (r: ManyError)
        ensures
            r.code == CODE_INVALID_METHOD_NAME,
    {
        ManyError::new(CODE_INVALID_METHOD_NAME, Some(method))
    }

    /// The error for a value that could not be deserialized.
    pub fn deserialization_error(message: String) -> (r: ManyError)
        ensures
            r.code == CODE_DESERIALIZATION_ERROR,
    {
        ManyError::new(CODE_DESERIALIZATION_ERROR, Some(message))
    }

    /// The error for a value that could not be serialized.
    pub fn serialization_error(message: String) -> (r: ManyError)
        ensures
            r.code == CODE_SERIALIZATION_ERROR,
    {
        ManyError::new(CODE_SERIALIZATION_ERROR, Some(message))
    }

    /// The error for an envelope addressed to another server.
    pub fn unknown_destination() -> (r: ManyError)
        ensures
            r.code == CODE_UNKNOWN_DESTINATION,
    {
        ManyError::new(CODE_UNKNOWN_DESTINATION, None)
    }

    /// The error for a message without a required field.
    pub fn required_field_missing(field: String) -> (r: ManyError)
        ensures
            r.code == CODE_REQUIRED_FIELD_MISSING,
            r.message == Some(field),
    {
        ManyError::new(CODE_REQUIRED_FIELD_MISSING, Some(field))
    }

    /// The error for a message timestamp outside the accepted window.
    pub fn timestamp_out_of_range() -> (r: ManyError)
        ensures
            r.code == CODE_TIMESTAMP_OUT_OF_RANGE,
    {
        ManyError::new(CODE_TIMESTAMP_OUT_OF_RANGE, None)
    }

    /// The error for an inconsistent fallback status.
    pub fn internal_server_error() -> (r: ManyError)
        ensures
            r.code == CODE_INTERNAL_SERVER_ERROR,
    {
        ManyError::new(CODE_INTERNAL_SERVER_ERROR, None)
    }
}

/// An error whose encoding round-trips: text lengths stay within the
/// header range.
pub open spec fn spec_error_wf(e: ManyError) -> bool {
    &&& (e.message matches Some(m) ==> vstd::utf8::encode_utf8(m@).len() <= u64::MAX)
    &&& e.arguments@.len() <= u64::MAX
    &&& (forall|i: int|
        0 <= i < e.arguments@.len() ==> vstd::utf8::encode_utf8(
            (#[trigger] e.arguments@[i]).0@,
        ).len() <= u64::MAX && vstd::utf8::encode_utf8(e.arguments@[i].1@).len() <= u64::MAX)
}

/// The character view of an optional message.
pub open spec fn spec_msg_view(m: Option<String>) -> Option<Seq<char>> {
    match m {
        Some(s) => Some(s@),
        None => None,
    }
}

/// The character views of the argument entries.
pub open spec fn spec_args_views(args: Seq<(String, String)>) -> Seq<(Seq<char>, Seq<char>)> {
    args.map(|i: int, e: (String, String)| (e.0@, e.1@))
}

/// Errors that agree on their code, message view and argument views have
/// the same encoding.
pub proof fn lemma_enc_error_congruence(e1: ManyError, e2: ManyError)
    requires
        e1.code == e2.code,
        spec_msg_view(e1.message) == spec_msg_view(e2.message),
        spec_args_views(e1.arguments@) == spec_args_views(e2.arguments@),
    ensures
        spec_enc_error(e1) == spec_enc_error(e2),
{
    assert(spec_args_views(e1.arguments@).len() == e1.arguments@.len());
    assert(spec_args_views(e2.arguments@).len() == e2.arguments@.len());
    lemma_enc_args_congruence(e1.arguments@, e2.arguments@);
}

/// Argument lists with equal views encode equally.
proof fn lemma_enc_args_congruence(a1: Seq<(String, String)>, a2: Seq<(String, String)>)
    requires
        spec_args_views(a1) == spec_args_views(a2),
    ensures
        spec_enc_args_from(a1, 0) == spec_enc_args_from(a2, 0),
    decreases a1.len(),
{
    assert(spec_args_views(a1).len() == a1.len());
    assert(spec_args_views(a2).len() == a2.len());
    if a1.len() == 0 {
    } else {
        assert(spec_args_views(a1.drop_first()) =~= spec_args_views(a1).drop_first());
        assert(spec_args_views(a2.drop_first()) =~= spec_args_views(a2).drop_first());
        lemma_enc_args_congruence(a1.drop_first(), a2.drop_first());
        assert(spec_args_views(a1)[0] == spec_args_views(a2)[0]);
        assert(a1[0].0@ == a2[0].0@ && a1[0].1@ == a2[0].1@);
        lemma_enc_args_from_drop_first(a1);
        lemma_enc_args_from_drop_first(a2);
    }
}

/// The encoding of one textual argument entry.
pub open spec fn spec_enc_arg(e: (String, String)) -> Seq<u8> {
    cbor::spec_enc_text(e.0@) + cbor::spec_enc_text(e.1@)
}

/// The concatenated encoding of the argument entries `args[i..]`.
pub open spec fn spec_enc_args_from(args: Seq<(String, String)>, i: int) -> Seq<u8>
    decreases args.len() - i,
{
    if i < 0 || i >= args.len() {
        Seq::empty()
    } else {
        spec_enc_arg(args[i]) + spec_enc_args_from(args, i + 1)
    }
}

/// The number of entries in the encoded error map.
pub open spec fn spec_error_map_len(e: ManyError) -> u64 {
    (1 + (if e.message is Some {
        1int
    } else {
        0
    }) + (if e.arguments@.len() > 0 {
        1int
    } else {
        0
    })) as u64
}

/// The canonical encoding of an error: a map with the code at key 0, the
/// message (when present) at key 1 and the arguments (when not empty) at
/// key 2.
pub open spec fn spec_enc_error(e: ManyError) -> Seq<u8> {
    cbor::spec_hdr(cbor::MAJOR_MAP, spec_error_map_len(e)) + cbor::spec_enc_uint(0) + cbor::spec_enc_int(
        e.code,
    ) + (match e.message {
        Some(m) => cbor::spec_enc_uint(1) + cbor::spec_enc_text(m@),
        None => Seq::empty(),
    }) + (if e.arguments@.len() > 0 {
        cbor::spec_enc_uint(2) + cbor::spec_hdr(cbor::MAJOR_MAP, e.arguments@.len() as u64)
            + spec_enc_args_from(e.arguments@, 0)
    } else {
        Seq::empty()
    })
}

/// Appends the encoding of every argument entry, in order.
fn encode_args(args: &Vec<(String, String)>, out: &mut Vec<u8>)
    ensures
        final(out)@ == old(out)@ + spec_enc_args_from(args@, 0),
{
    let n = args.len();
    let mut i: usize = 0;
    while i < n
        invariant
            i <= n,
            n == args@.len(),
            out@ == old(out)@ + spec_enc_args_from(args@, 0).take(
                spec_enc_args_from(args@, 0).len() - spec_enc_args_from(args@, i as int).len(),
            ),
            spec_enc_args_from(args@, i as int).len() <= spec_enc_args_from(args@, 0).len(),
        decreases n - i,
    {
        proof {
            lemma_enc_args_split(args@, i as int);
        }
        cbor::encode_text(&args[i].0, out);
        cbor::encode_text(&args[i].1, out);
        proof {
            lemma_enc_args_split(args@, i as int + 1);
            let whole = spec_enc_args_from(args@, 0);
            assert(out@ =~= old(out)@ + whole.take(
                whole.len() - spec_enc_args_from(args@, i as int + 1).len(),
            ));
        }
        i = i + 1;
    }
    proof {
        assert(out@ =~= old(out)@ + spec_enc_args_from(args@, 0));
    }
}

/// The encoding of all entries splits at `i` into the first `i` entries
/// followed by the rest.
proof fn lemma_enc_args_split(args: Seq<(String, String)>, i: int)
    requires
        0 <= i <= args.len(),
    ensures
        spec_enc_args_from(args, 0).len() >= spec_enc_args_from(args, i).len(),
        spec_enc_args_from(args, 0) == spec_enc_args_from(args, 0).take(
            spec_enc_args_from(args, 0).len() - spec_enc_args_from(args, i).len(),
        ) + spec_enc_args_from(args, i),
    decreases i,
{
    if i == 0 {
        assert(spec_enc_args_from(args, 0) =~= spec_enc_args_from(args, 0).take(
            spec_enc_args_from(args, 0).len() - spec_enc_args_from(args, 0).len(),
        ) + spec_enc_args_from(args, 0));
    } else {
        lemma_enc_args_split(args, i - 1);
        assert(spec_enc_args_from(args, i - 1) == spec_enc_arg(args[i - 1]) + spec_enc_args_from(
            args,
            i,
        ));
        assert(spec_enc_args_from(args, 0) =~= spec_enc_args_from(args, 0).take(
            spec_enc_args_from(args, 0).len() - spec_enc_args_from(args, i).len(),
        ) + spec_enc_args_from(args, i));
    }
}

/// Appends the canonical encoding of the error `e`.
pub fn encode_error(e: &ManyError, out: &mut Vec<u8>)
    ensures
        final(out)@ == old(out)@ + spec_enc_error(*e),
{
    let n: u64 = 1 + (if e.message.is_some() {
        1u64
    } else {
        0u64
    }) + (if e.arguments.len() > 0 {
        1u64
    } else {
        0u64
    });
    cbor::encode_hdr(cbor::MAJOR_MAP, n, out);
    cbor::encode_uint(0, out);
    cbor::encode_int(e.code, out);
    match &e.message {
        Some(m) => {
            cbor::encode_uint(1, out);
            cbor::encode_text(m, out);
        },
        None => {},
    }
    if e.arguments.len() > 0 {
        cbor::encode_uint(2, out);
        cbor::encode_hdr(cbor::MAJOR_MAP, e.arguments.len() as u64, out);
        encode_args(&e.arguments, out);
    }
    assert(out@ =~= old(out)@ + spec_enc_error(*e));
}

/// Texts of argument entries whose encodings stay within the header range.
pub open spec fn spec_args_wf(args: Seq<(String, String)>) -> bool {
    forall|i: int|
        0 <= i < args.len() ==> vstd::utf8::encode_utf8((#[trigger] args[i]).0@).len() <= u64::MAX
            && vstd::utf8::encode_utf8(args[i].1@).len() <= u64::MAX
}

/// Reads a non-empty argument map at `pos`. For every well-formed entry
/// list whose whole map encoding starts there, the read succeeds with those
/// entries.
#[verifier::rlimit(100)]
#[verifier::spinoff_prover]
fn decode_args_map(b: &Vec<u8>, pos: usize) -> (r: Result<(Vec<(String, String)>, usize), CborError>)
    ensures
        r matches Ok((args, end)) ==> {
            &&& pos < end <= b@.len()
            &&& args@.len() >= 1
            &&& b@.subrange(pos as int, end as int) == cbor::spec_hdr(
                cbor::MAJOR_MAP,
                args@.len() as u64,
            ) + spec_enc_args_from(args@, 0)
        },
        forall|a2: Seq<(String, String)>|
            (1 <= a2.len() <= u64::MAX && spec_args_wf(a2) && cbor::spec_prefix_at(
                b@,
                pos as int,
                cbor::spec_hdr(cbor::MAJOR_MAP, a2.len() as u64) + #[trigger] spec_enc_args_from(
                    a2,
                    0,
                ),
            )) ==> (r matches Ok(x) && spec_args_views(x.0@) == spec_args_views(a2) && x.1 == pos
                + cbor::spec_hdr(cbor::MAJOR_MAP, a2.len() as u64).len() + spec_enc_args_from(
                a2,
                0,
            ).len()),
{
    proof {
        assert forall|a2: Seq<(String, String)>|
            (1 <= a2.len() <= u64::MAX && spec_args_wf(a2) && cbor::spec_prefix_at(
                b@,
                pos as int,
                cbor::spec_hdr(cbor::MAJOR_MAP, a2.len() as u64) + #[trigger] spec_enc_args_from(
                    a2,
                    0,
                ),
            )) implies (cbor::spec_prefix_at(
            b@,
            pos as int,
            cbor::spec_hdr(cbor::MAJOR_MAP, a2.len() as u64),
        ) && cbor::spec_prefix_at(
            b@,
            pos + cbor::spec_hdr(cbor::MAJOR_MAP, a2.len() as u64).len(),
            spec_enc_args_from(a2, 0),
        )) by {
            cbor::lemma_prefix_split(
                b@,
                pos as int,
                cbor::spec_hdr(cbor::MAJOR_MAP, a2.len() as u64),
                spec_enc_args_from(a2, 0),
            );
        }
    }
    let (an, ahdr_end) = cbor::decode_map_hdr(b, pos)?;
    if an == 0 {
        // An empty argument map is never emitted; reject it to keep the
        // format canonical.
        return Err(CborError::Invalid);
    }
    let mut arguments: Vec<(String, String)> = Vec::new();
    let mut j: u64 = 0;
    let mut acur = ahdr_end;
    proof {
        assert forall|a2: Seq<(String, String)>|
            (1 <= a2.len() <= u64::MAX && spec_args_wf(a2) && cbor::spec_prefix_at(
                b@,
                pos as int,
                cbor::spec_hdr(cbor::MAJOR_MAP, a2.len() as u64) + #[trigger] spec_enc_args_from(
                    a2,
                    0,
                ),
            )) implies (an == a2.len() && cbor::spec_prefix_at(
            b@,
            acur as int,
            spec_enc_args_from(a2, 0),
        ) && spec_args_views(arguments@) =~= spec_args_views(a2).take(0)) by {
        }
    }
    while j < an
        invariant
            j <= an,
            ahdr_end <= acur <= b@.len(),
            arguments@.len() == j,
            b@.subrange(ahdr_end as int, acur as int) == spec_enc_args_from(arguments@, 0),
            forall|a2: Seq<(String, String)>|
                (1 <= a2.len() <= u64::MAX && spec_args_wf(a2) && cbor::spec_prefix_at(
                    b@,
                    pos as int,
                    cbor::spec_hdr(cbor::MAJOR_MAP, a2.len() as u64)
                        + #[trigger] spec_enc_args_from(a2, 0),
                )) ==> (an == a2.len() && j <= a2.len() && cbor::spec_prefix_at(
                    b@,
                    acur as int,
                    spec_enc_args_from(a2, j as int),
                ) && spec_args_views(arguments@) == spec_args_views(a2).take(j as int)),
        decreases an - j,
    {
        proof {
            assert forall|a2: Seq<(String, String)>|
                (1 <= a2.len() <= u64::MAX && spec_args_wf(a2) && cbor::spec_prefix_at(
                    b@,
                    pos as int,
                    cbor::spec_hdr(cbor::MAJOR_MAP, a2.len() as u64)
                        + #[trigger] spec_enc_args_from(a2, 0),
                )) implies (j < a2.len() && cbor::spec_prefix_at(
                b@,
                acur as int,
                cbor::spec_enc_text(a2[j as int].0@),
            ) && cbor::spec_prefix_at(
                b@,
                acur + cbor::spec_enc_text(a2[j as int].0@).len(),
                cbor::spec_enc_text(a2[j as int].1@),
            )) by {
                assert(spec_enc_args_from(a2, j as int) == spec_enc_arg(a2[j as int])
                    + spec_enc_args_from(a2, j as int + 1));
                cbor::lemma_prefix_split(
                    b@,
                    acur as int,
                    spec_enc_arg(a2[j as int]),
                    spec_enc_args_from(a2, j as int + 1),
                );
                cbor::lemma_prefix_split(
                    b@,
                    acur as int,
                    cbor::spec_enc_text(a2[j as int].0@),
                    cbor::spec_enc_text(a2[j as int].1@),
                );
            }
        }
        let ghost args_before = arguments@;
        let (key, pk_end) = cbor::decode_text(b, acur)?;
        let (value, pv_end) = cbor::decode_text(b, pk_end)?;
        proof {
            lemma_enc_args_push(args_before, (key, value));
            cbor::lemma_subrange_concat(b@, acur as int, pk_end as int, pv_end as int);
            cbor::lemma_subrange_concat(b@, ahdr_end as int, acur as int, pv_end as int);
        }
        arguments.push((key, value));
        proof {
            assert forall|a2: Seq<(String, String)>|
                (1 <= a2.len() <= u64::MAX && spec_args_wf(a2) && cbor::spec_prefix_at(
                    b@,
                    pos as int,
                    cbor::spec_hdr(cbor::MAJOR_MAP, a2.len() as u64)
                        + #[trigger] spec_enc_args_from(a2, 0),
                )) implies (cbor::spec_prefix_at(
                b@,
                pv_end as int,
                spec_enc_args_from(a2, j as int + 1),
            ) && spec_args_views(arguments@) == spec_args_views(a2).take(j as int + 1)) by {
                assert(spec_enc_args_from(a2, j as int) == spec_enc_arg(a2[j as int])
                    + spec_enc_args_from(a2, j as int + 1));
                cbor::lemma_prefix_split(
                    b@,
                    acur as int,
                    spec_enc_arg(a2[j as int]),
                    spec_enc_args_from(a2, j as int + 1),
                );
                assert(spec_args_views(a2).take(j as int + 1) =~= spec_args_views(a2).take(
                    j as int,
                ).push((a2[j as int].0@, a2[j as int].1@)));
                assert(arguments@.drop_last() =~= args_before);
                assert(spec_args_views(arguments@) =~= spec_args_views(args_before).push(
                    (key@, value@),
                ));
            }
        }
        acur = pv_end;
        j = j + 1;
    }
    proof {
        cbor::lemma_subrange_concat(b@, pos as int, ahdr_end as int, acur as int);
        assert forall|a2: Seq<(String, String)>|
            (1 <= a2.len() <= u64::MAX && spec_args_wf(a2) && cbor::spec_prefix_at(
                b@,
                pos as int,
                cbor::spec_hdr(cbor::MAJOR_MAP, a2.len() as u64) + #[trigger] spec_enc_args_from(
                    a2,
                    0,
                ),
            )) implies (spec_args_views(arguments@) == spec_args_views(a2) && acur == pos
            + cbor::spec_hdr(cbor::MAJOR_MAP, a2.len() as u64).len() + spec_enc_args_from(
            a2,
            0,
        ).len()) by {
            assert(spec_args_views(a2).take(an as int) =~= spec_args_views(a2));
            lemma_enc_args_congruence(arguments@, a2);
        }
    }
    Ok((arguments, acur))
}


/// The per-entry byte segments a prefixed error encoding pins down.
pub open spec fn spec_error_segments_at(b: Seq<u8>, pos: int, e2: ManyError) -> bool {
    let h = cbor::spec_hdr(cbor::MAJOR_MAP, spec_error_map_len(e2));
    let k0 = cbor::spec_enc_uint(0);
    let cseg = cbor::spec_enc_int(e2.code);
    let msgseg = (match e2.message {
        Some(m) => cbor::spec_enc_uint(1) + cbor::spec_enc_text(m@),
        None => Seq::<u8>::empty(),
    });
    let p1 = pos + h.len();
    let p2 = p1 + k0.len();
    let p3 = p2 + cseg.len();
    let p4 = p3 + msgseg.len();
    &&& cbor::spec_prefix_at(b, pos, h)
    &&& cbor::spec_prefix_at(b, p1, k0)
    &&& cbor::spec_prefix_at(b, p2, cseg)
    &&& (e2.message matches Some(m) ==> cbor::spec_prefix_at(b, p3, cbor::spec_enc_uint(1))
        && cbor::spec_prefix_at(b, p3 + cbor::spec_enc_uint(1).len(), cbor::spec_enc_text(m@)))
    &&& (e2.arguments@.len() > 0 ==> cbor::spec_prefix_at(b, p4, cbor::spec_enc_uint(2))
        && cbor::spec_prefix_at(
        b,
        p4 + cbor::spec_enc_uint(2).len(),
        cbor::spec_hdr(cbor::MAJOR_MAP, e2.arguments@.len() as u64) + spec_enc_args_from(
            e2.arguments@,
            0,
        ),
    ))
}

/// A whole prefixed error encoding splits into its entry segments.
#[verifier::spinoff_prover]
#[verifier::rlimit(100)]
pub proof fn lemma_error_prefix_decomposition(b: Seq<u8>, pos: int, e2: ManyError)
    requires
        cbor::spec_prefix_at(b, pos, spec_enc_error(e2)),
    ensures
        spec_error_segments_at(b, pos, e2),
{
    let h = cbor::spec_hdr(cbor::MAJOR_MAP, spec_error_map_len(e2));
    let k0 = cbor::spec_enc_uint(0);
    let cseg = cbor::spec_enc_int(e2.code);
    let msgseg = (match e2.message {
        Some(m) => cbor::spec_enc_uint(1) + cbor::spec_enc_text(m@),
        None => Seq::<u8>::empty(),
    });
    let argseg = (if e2.arguments@.len() > 0 {
        cbor::spec_enc_uint(2) + cbor::spec_hdr(cbor::MAJOR_MAP, e2.arguments@.len() as u64)
            + spec_enc_args_from(e2.arguments@, 0)
    } else {
        Seq::<u8>::empty()
    });
    assert(spec_enc_error(e2) =~= (((h + k0) + cseg) + msgseg) + argseg);
    cbor::lemma_prefix_split(b, pos, ((h + k0) + cseg) + msgseg, argseg);
    cbor::lemma_prefix_split(b, pos, (h + k0) + cseg, msgseg);
    cbor::lemma_prefix_split(b, pos, h + k0, cseg);
    cbor::lemma_prefix_split(b, pos, h, k0);
    match e2.message {
        Some(m) => {
            cbor::lemma_prefix_split(
                b,
                pos + h.len() + k0.len() + cseg.len(),
                cbor::spec_enc_uint(1),
                cbor::spec_enc_text(m@),
            );
        },
        None => {},
    }
    if e2.arguments@.len() > 0 {
        let p4 = pos + h.len() + k0.len() + cseg.len() + msgseg.len();
        assert(argseg =~= cbor::spec_enc_uint(2) + (cbor::spec_hdr(
            cbor::MAJOR_MAP,
            e2.arguments@.len() as u64,
        ) + spec_enc_args_from(e2.arguments@, 0)));
        cbor::lemma_prefix_split(
            b,
            p4,
            cbor::spec_enc_uint(2),
            cbor::spec_hdr(cbor::MAJOR_MAP, e2.arguments@.len() as u64) + spec_enc_args_from(
                e2.arguments@,
                0,
            ),
        );
    }
}

/// Reads an error map at `pos`. For every well-formed error whose whole
/// canonical encoding starts there, the read succeeds and returns that
/// error's code, message and arguments.
#[verifier::rlimit(100)]
#[verifier::spinoff_prover]
pub fn decode_error(b: &Vec<u8>, pos: usize) -> (r: Result<(ManyError, usize), CborError>)
    ensures
        r matches Ok((e, end)) ==> {
            &&& pos < end <= b@.len()
            &&& b@.subrange(pos as int, end as int) == spec_enc_error(e)
        },
        forall|e2: ManyError|
            (spec_error_wf(e2) && cbor::spec_prefix_at(b@, pos as int, #[trigger] spec_enc_error(
                e2,
            ))) ==> (r matches Ok(x) && x.0.code == e2.code && spec_msg_view(x.0.message)
                == spec_msg_view(e2.message) && spec_args_views(x.0.arguments@) == spec_args_views(
                e2.arguments@,
            ) && x.1 == pos + spec_enc_error(e2).len()),
{
    proof {
        assert forall|e2: ManyError|
            (spec_error_wf(e2) && cbor::spec_prefix_at(b@, pos as int, #[trigger] spec_enc_error(
                e2,
            ))) implies spec_error_segments_at(b@, pos as int, e2) by {
            lemma_error_prefix_decomposition(b@, pos as int, e2);
        }
    }
    let (n, hdr_end) = cbor::decode_map_hdr(b, pos)?;
    if n < 1 || n > 3 {
        return Err(CborError::Invalid);
    }
    let (k0, k0_end) = cbor::decode_uint(b, hdr_end)?;
    if k0 != 0 {
        return Err(CborError::Invalid);
    }
    let (code, code_end) = cbor::decode_int(b, k0_end)?;
    let mut cur = code_end;
    let mut remaining = n - 1;
    // `cur` sits past the entries read so far; the bytes from `code_end` to
    // `cur` are the optional message entry's encoding, when it was read.
    let mut message: Option<String> = None;
    if remaining > 0 {
        let (k, mk_end) = cbor::decode_uint(b, cur)?;
        if k == 1 {
            let (m, mv_end) = cbor::decode_text(b, mk_end)?;
            proof {
                cbor::lemma_subrange_concat(b@, code_end as int, mk_end as int, mv_end as int);
            }
            message = Some(m);
            cur = mv_end;
            remaining = remaining - 1;
        }
    }
    let ghost msg_end = cur;
    assert(b@.subrange(code_end as int, msg_end as int) == (match message {
        Some(m) => cbor::spec_enc_uint(1) + cbor::spec_enc_text(m@),
        None => Seq::<u8>::empty(),
    }));
    proof {
        assert forall|e2: ManyError|
            (spec_error_wf(e2) && cbor::spec_prefix_at(b@, pos as int, #[trigger] spec_enc_error(
                e2,
            ))) implies (n == spec_error_map_len(e2) && code == e2.code && spec_msg_view(message)
            == spec_msg_view(e2.message) && cur == pos + cbor::spec_hdr(
            cbor::MAJOR_MAP,
            spec_error_map_len(e2),
        ).len() + cbor::spec_enc_uint(0).len() + cbor::spec_enc_int(e2.code).len() + (
        match e2.message {
            Some(m) => cbor::spec_enc_uint(1) + cbor::spec_enc_text(m@),
            None => Seq::<u8>::empty(),
        }).len()) by {
        }
    }
    let mut arguments: Vec<(String, String)> = Vec::new();
    if remaining > 0 {
        let (k, ak_end) = cbor::decode_uint(b, cur)?;
        if k != 2 {
            return Err(CborError::Invalid);
        }
        let (args, aend) = decode_args_map(b, ak_end)?;
        arguments = args;
        proof {
            cbor::lemma_subrange_concat(b@, cur as int, ak_end as int, aend as int);
        }
        assert(b@.subrange(cur as int, aend as int) == cbor::spec_enc_uint(2) + (cbor::spec_hdr(
            cbor::MAJOR_MAP,
            arguments@.len() as u64,
        ) + spec_enc_args_from(arguments@, 0)));
        cur = aend;
        remaining = remaining - 1;
    }
    if remaining != 0 {
        return Err(CborError::Invalid);
    }
    let e = ManyError { code, message, arguments };
    assert(n == spec_error_map_len(e));
    proof {
        if e.arguments@.len() == 0 {
            assert(b@.subrange(msg_end as int, cur as int) =~= Seq::<u8>::empty());
        }
        lemma_compose_error(
            b@,
            pos as int,
            hdr_end as int,
            k0_end as int,
            code_end as int,
            msg_end as int,
            cur as int,
            e,
            n,
        );
        assert forall|e2: ManyError|
            (spec_error_wf(e2) && cbor::spec_prefix_at(b@, pos as int, #[trigger] spec_enc_error(
                e2,
            ))) implies (e.code == e2.code && spec_msg_view(e.message) == spec_msg_view(e2.message)
            && spec_args_views(e.arguments@) == spec_args_views(e2.arguments@) && cur == pos
            + spec_enc_error(e2).len()) by {
            if e2.arguments@.len() == 0 {
                assert(e.arguments@.len() == 0);
                assert(spec_args_views(e.arguments@) =~= spec_args_views(e2.arguments@));
            } else {
                assert(spec_args_wf(e2.arguments@));
            }
            lemma_enc_error_congruence(e, e2);
        }
    }
    Ok((e, cur))
}

/// Composes the per-entry byte ranges of a decoded error into the whole
/// canonical encoding.
#[verifier::spinoff_prover]
#[verifier::rlimit(100)]
proof fn lemma_compose_error(
    bv: Seq<u8>,
    pos: int,
    hdr_end: int,
    k0_end: int,
    code_end: int,
    msg_end: int,
    cur: int,
    e: ManyError,
    n: u64,
)
    requires
        0 <= pos <= hdr_end <= k0_end <= code_end <= msg_end <= cur <= bv.len(),
        n == spec_error_map_len(e),
        bv.subrange(pos, hdr_end) == cbor::spec_hdr(cbor::MAJOR_MAP, n),
        bv.subrange(hdr_end, k0_end) == cbor::spec_enc_uint(0),
        bv.subrange(k0_end, code_end) == cbor::spec_enc_int(e.code),
        bv.subrange(code_end, msg_end) == (match e.message {
            Some(m) => cbor::spec_enc_uint(1) + cbor::spec_enc_text(m@),
            None => Seq::<u8>::empty(),
        }),
        bv.subrange(msg_end, cur) == (if e.arguments@.len() > 0 {
            cbor::spec_enc_uint(2) + (cbor::spec_hdr(cbor::MAJOR_MAP, e.arguments@.len() as u64)
                + spec_enc_args_from(e.arguments@, 0))
        } else {
            Seq::<u8>::empty()
        }),
    ensures
        bv.subrange(pos, cur) == spec_enc_error(e),
{
    broadcast use crate::cbor::lemma_concat_assoc_bytes;

    cbor::lemma_subrange_concat(bv, pos, hdr_end, k0_end);
    cbor::lemma_subrange_concat(bv, pos, k0_end, code_end);
    cbor::lemma_subrange_concat(bv, pos, code_end, msg_end);
    cbor::lemma_subrange_concat(bv, pos, msg_end, cur);
    assert(bv.subrange(pos, cur) =~= spec_enc_error(e));
}

/// Appending one entry extends the concatenated argument encoding by that
/// entry's encoding.
proof fn lemma_enc_args_push(args: Seq<(String, String)>, e: (String, String))
    ensures
        spec_enc_args_from(args.push(e), 0) == spec_enc_args_from(args, 0) + spec_enc_arg(e),
    decreases args.len(),
{
    let args2 = args.push(e);
    if args.len() == 0 {
        assert(args2[0] == e);
        assert(spec_enc_args_from(args2, 1) =~= Seq::<u8>::empty());
        assert(spec_enc_args_from(args2, 0) =~= spec_enc_args_from(args, 0) + spec_enc_arg(e));
    } else {
        lemma_enc_args_push(args.drop_first(), e);
        assert(args.drop_first().push(e) =~= args2.drop_first());
        assert(spec_enc_args_from(args2, 0) == spec_enc_arg(args2[0]) + spec_enc_args_from(
            args2.drop_first(),
            0,
        )) by {
            lemma_enc_args_from_drop_first(args2);
        }
        assert(spec_enc_args_from(args, 0) == spec_enc_arg(args[0]) + spec_enc_args_from(
            args.drop_first(),
            0,
        )) by {
            lemma_enc_args_from_drop_first(args);
        }
        assert(args2[0] == args[0]);
        assert(spec_enc_args_from(args2, 0) =~= spec_enc_args_from(args, 0) + spec_enc_arg(e));
    }
}

/// The concatenated encoding of a non-empty entry sequence is its head's
/// encoding followed by the encoding of its tail.
proof fn lemma_enc_args_from_drop_first(args: Seq<(String, String)>)
    requires
        args.len() > 0,
    ensures
        spec_enc_args_from(args, 0) == spec_enc_arg(args[0]) + spec_enc_args_from(
            args.drop_first(),
            0,
        ),
    decreases args.len(),
{
    lemma_enc_args_from_shift(args, 1);
}

/// Shifting the start index by one on the tail matches dropping the head.
proof fn lemma_enc_args_from_shift(args: Seq<(String, String)>, i: int)
    requires
        1 <= i <= args.len(),
    ensures
        spec_enc_args_from(args, i) == spec_enc_args_from(args.drop_first(), i - 1),
    decreases args.len() - i,
{
    if i == args.len() {
        assert(spec_enc_args_from(args, i) =~= spec_enc_args_from(args.drop_first(), i - 1));
    } else {
        lemma_enc_args_from_shift(args, i + 1);
        assert(args.drop_first()[i - 1] == args[i]);
        assert(spec_enc_args_from(args, i) =~= spec_enc_args_from(args.drop_first(), i - 1));
    }
}

/// Two argument lists of the same length whose entry encodings start at the
/// same position coincide entry by entry.
pub proof fn lemma_args_prefix_unique(
    b: Seq<u8>,
    pos: int,
    a1: Seq<(String, String)>,
    a2: Seq<(String, String)>,
    i: int,
)
    requires
        spec_args_wf(a1),
        spec_args_wf(a2),
        a1.len() == a2.len(),
        0 <= i <= a1.len(),
        cbor::spec_prefix_at(b, pos, spec_enc_args_from(a1, i)),
        cbor::spec_prefix_at(b, pos, spec_enc_args_from(a2, i)),
    ensures
        forall|j: int|
            i <= j < a1.len() ==> (#[trigger] a1[j]).0@ == a2[j].0@ && a1[j].1@ == a2[j].1@,
    decreases a1.len() - i,
{
    if i < a1.len() {
        cbor::lemma_prefix_split(b, pos, spec_enc_arg(a1[i]), spec_enc_args_from(a1, i + 1));
        cbor::lemma_prefix_split(b, pos, spec_enc_arg(a2[i]), spec_enc_args_from(a2, i + 1));
        cbor::lemma_prefix_split(
            b,
            pos,
            cbor::spec_enc_text(a1[i].0@),
            cbor::spec_enc_text(a1[i].1@),
        );
        cbor::lemma_prefix_split(
            b,
            pos,
            cbor::spec_enc_text(a2[i].0@),
            cbor::spec_enc_text(a2[i].1@),
        );
        cbor::lemma_text_prefix_unique(b, pos, a1[i].0@, a2[i].0@);
        cbor::lemma_text_prefix_unique(
            b,
            pos + cbor::spec_enc_text(a1[i].0@).len(),
            a1[i].1@,
            a2[i].1@,
        );
        assert(spec_enc_arg(a1[i]) == spec_enc_arg(a2[i]));
        lemma_args_prefix_unique(b, pos + spec_enc_arg(a1[i]).len(), a1, a2, i + 1);
    }
}

/// Two error encodings starting at the same position describe the same
/// error: the code, message and arguments coincide, so the encodings do.
#[verifier::spinoff_prover]
#[verifier::rlimit(100)]
pub proof fn lemma_error_prefix_unique(b: Seq<u8>, pos: int, e1: ManyError, e2: ManyError)
    requires
        spec_error_wf(e1),
        spec_error_wf(e2),
        cbor::spec_prefix_at(b, pos, spec_enc_error(e1)),
        cbor::spec_prefix_at(b, pos, spec_enc_error(e2)),
    ensures
        e1.code == e2.code,
        spec_msg_view(e1.message) == spec_msg_view(e2.message),
        spec_args_views(e1.arguments@) == spec_args_views(e2.arguments@),
        spec_enc_error(e1) == spec_enc_error(e2),
{
    lemma_error_prefix_decomposition(b, pos, e1);
    lemma_error_prefix_decomposition(b, pos, e2);
    cbor::lemma_hdr_prefix_unique(
        b,
        pos,
        cbor::MAJOR_MAP,
        spec_error_map_len(e1),
        cbor::MAJOR_MAP,
        spec_error_map_len(e2),
    );
    let h = cbor::spec_hdr(cbor::MAJOR_MAP, spec_error_map_len(e1));
    let k0 = cbor::spec_enc_uint(0);
    let p2 = pos + h.len() + k0.len();
    cbor::lemma_int_prefix_unique(b, p2, e1.code, e2.code);
    let p3 = p2 + cbor::spec_enc_int(e1.code).len();
    match (e1.message, e2.message) {
        (Some(m1), Some(m2)) => {
            cbor::lemma_text_prefix_unique(
                b,
                p3 + cbor::spec_enc_uint(1).len(),
                m1@,
                m2@,
            );
        },
        (Some(m1), None) => {
            if e2.arguments@.len() > 0 {
                cbor::lemma_uint_prefix_unique(b, p3, 1, 2);
            }
            assert(false);
        },
        (None, Some(m2)) => {
            if e1.arguments@.len() > 0 {
                cbor::lemma_uint_prefix_unique(b, p3, 2, 1);
            }
            assert(false);
        },
        (None, None) => {},
    }
    let msgseg = (match e1.message {
        Some(m) => cbor::spec_enc_uint(1) + cbor::spec_enc_text(m@),
        None => Seq::<u8>::empty(),
    });
    let msgseg2 = (match e2.message {
        Some(m) => cbor::spec_enc_uint(1) + cbor::spec_enc_text(m@),
        None => Seq::<u8>::empty(),
    });
    assert(msgseg == msgseg2);
    let p4 = p3 + msgseg.len();
    if e1.arguments@.len() > 0 && e2.arguments@.len() > 0 {
        let k2 = cbor::spec_enc_uint(2);
        let ah1 = cbor::spec_hdr(cbor::MAJOR_MAP, e1.arguments@.len() as u64);
        let ah2 = cbor::spec_hdr(cbor::MAJOR_MAP, e2.arguments@.len() as u64);
        cbor::lemma_prefix_split(
            b,
            p4 + k2.len(),
            ah1,
            spec_enc_args_from(e1.arguments@, 0),
        );
        cbor::lemma_prefix_split(
            b,
            p4 + k2.len(),
            ah2,
            spec_enc_args_from(e2.arguments@, 0),
        );
        cbor::lemma_hdr_prefix_unique(
            b,
            p4 + k2.len(),
            cbor::MAJOR_MAP,
            e1.arguments@.len() as u64,
            cbor::MAJOR_MAP,
            e2.arguments@.len() as u64,
        );
        assert(e1.arguments@.len() == e2.arguments@.len());
        lemma_args_prefix_unique(
            b,
            p4 + k2.len() + ah1.len(),
            e1.arguments@,
            e2.arguments@,
            0,
        );
        assert(spec_args_views(e1.arguments@) =~= spec_args_views(e2.arguments@));
    }
    assert(e1.arguments@.len() > 0 <==> e2.arguments@.len() > 0);
    if e1.arguments@.len() == 0 {
        assert(spec_args_views(e1.arguments@) =~= spec_args_views(e2.arguments@));
    }
    lemma_enc_error_congruence(e1, e2);
}

} // verus!
