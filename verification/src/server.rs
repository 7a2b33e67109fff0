//! The backend server: module registry, destination validation, the status
//! report with its codec, and the execution path that turns one signed
//! envelope into one signed response.

use crate::cbor;
use crate::cbor::CborError;
use crate::error;
use crate::error::ManyError;
use crate::events::spec_enc_subs;
use crate::protocol;
use crate::protocol::{RequestMessage, ResponseMessage};
use crate::types::Address;
use vstd::prelude::*;

verus! {

/// The envelope-timestamp window of the server, in seconds.
pub const MANYSERVER_DEFAULT_TIMEOUT: u64 = 300;

/// The set of endpoints a server exposes.
#[derive(Debug)]
pub struct Endpoints(pub Vec<String>);

/// What one module tells the server about itself.
#[derive(Debug)]
pub struct ManyModuleInfo {
    /// The module's attribute id, when it implements an attribute.
    pub attribute: Option<u32>,
    pub name: String,
    pub endpoints: Vec<String>,
}

/// A marker for the registry of modules a server dispatches over.
#[derive(Clone, Debug)]
pub struct ManyModuleList {}

/// The status a server reports about itself.
#[derive(Debug)]
pub struct Status {
    pub version: u8,
    pub name: String,
    pub public_key: Option<Vec<u8>>,
    pub identity: Address,
    pub attributes: Vec<u64>,
    pub server_version: Option<String>,
    pub timeout: Option<u64>,
}

/// The number of entries in an encoded status map.
pub open spec fn spec_status_map_len(s: Status) -> u64 {
    (4 + (if s.public_key is Some {
        1int
    } else {
        0
    }) + (if s.server_version is Some {
        1int
    } else {
        0
    }) + (if s.timeout is Some {
        1int
    } else {
        0
    })) as u64
}

/// The canonical encoding of a status: a map with the protocol version at
/// key 0, the name at key 1, the public key at key 2, the identity at key
/// 3, the attribute ids at key 4, the software version at key 5 and the
/// timeout at key 7; absent optional fields are omitted.
pub open spec fn spec_enc_status(s: Status) -> Seq<u8> {
    cbor::spec_hdr(cbor::MAJOR_MAP, spec_status_map_len(s)) + cbor::spec_enc_uint(0)
        + cbor::spec_enc_uint(s.version as u64) + cbor::spec_enc_uint(1) + cbor::spec_enc_text(
        s.name@,
    ) + (if s.public_key is Some {
        cbor::spec_enc_uint(2) + cbor::spec_enc_bytes(s.public_key->Some_0@)
    } else {
        Seq::<u8>::empty()
    }) + cbor::spec_enc_uint(3) + crate::types::spec_enc_address(s.identity@) + cbor::spec_enc_uint(
        4,
    ) + cbor::spec_hdr(cbor::MAJOR_ARRAY, s.attributes@.len() as u64) + spec_enc_subs(
        s.attributes@,
    ) + (if s.server_version is Some {
        cbor::spec_enc_uint(5) + cbor::spec_enc_text(s.server_version->Some_0@)
    } else {
        Seq::<u8>::empty()
    }) + (if s.timeout is Some {
        cbor::spec_enc_uint(7) + cbor::spec_enc_uint(s.timeout->Some_0)
    } else {
        Seq::<u8>::empty()
    })
}

/// Appending a value extends an unsigned-integer list's encoding.
proof fn lemma_enc_subs_push(s: Seq<u64>, v: u64)
    ensures
        spec_enc_subs(s.push(v)) == spec_enc_subs(s) + cbor::spec_enc_uint(v),
    decreases s.len(),
{
    let s2 = s.push(v);
    if s.len() == 0 {
        assert(s2[0] == v);
        assert(s2.drop_first() =~= Seq::<u64>::empty());
        assert(spec_enc_subs(s2.drop_first()) =~= Seq::<u8>::empty());
        assert(spec_enc_subs(s2) =~= spec_enc_subs(s) + cbor::spec_enc_uint(v));
    } else {
        assert(s2.drop_first() =~= s.drop_first().push(v));
        lemma_enc_subs_push(s.drop_first(), v);
        assert(s2[0] == s[0]);
        assert(spec_enc_subs(s2) =~= spec_enc_subs(s) + cbor::spec_enc_uint(v));
    }
}

/// Appends the encoding of every unsigned integer, in order.
#[verifier::loop_isolation(false)]
fn encode_uint_list(s: &Vec<u64>, out: &mut Vec<u8>)
    ensures
        final(out)@ == old(out)@ + spec_enc_subs(s@),
{
    let n = s.len();
    let mut i: usize = 0;
    while i < n
        invariant
            i <= n,
            out@ == old(out)@ + spec_enc_subs(s@.take(i as int)),
        decreases n - i,
    {
        proof {
            assert(s@.take(i as int + 1) =~= s@.take(i as int).push(s@[i as int]));
            lemma_enc_subs_push(s@.take(i as int), s@[i as int]);
        }
        cbor::encode_uint(s[i], out);
        i = i + 1;
    }
    assert(s@.take(n as int) =~= s@);
}

/// Reads a list of unsigned integers.
#[verifier::loop_isolation(false)]
fn decode_uint_list(b: &Vec<u8>, pos: usize) -> (r: Result<(Vec<u64>, usize), CborError>)
    ensures
        r matches Ok((s, end)) ==> {
            &&& pos < end <= b@.len()
            &&& b@.subrange(pos as int, end as int) == cbor::spec_hdr(
                cbor::MAJOR_ARRAY,
                s@.len() as u64,
            ) + spec_enc_subs(s@)
        },
{
    let (n, hdr_end) = cbor::decode_array_hdr(b, pos)?;
    let mut s: Vec<u64> = Vec::new();
    let mut cur = hdr_end;
    let mut j: u64 = 0;
    while j < n
        invariant
            j <= n,
            j == s@.len(),
            hdr_end <= cur <= b@.len(),
            b@.subrange(hdr_end as int, cur as int) == spec_enc_subs(s@),
        decreases n - j,
    {
        let ghost before = s@;
        let (v, v_end) = cbor::decode_uint(b, cur)?;
        proof {
            lemma_enc_subs_push(before, v);
            cbor::lemma_subrange_concat(b@, hdr_end as int, cur as int, v_end as int);
        }
        s.push(v);
        cur = v_end;
        j = j + 1;
    }
    proof {
        cbor::lemma_subrange_concat(b@, pos as int, hdr_end as int, cur as int);
    }
    Ok((s, cur))
}

impl Status {
    /// Serializes the status to its canonical bytes.
    #[verifier::rlimit(100)]
    #[verifier::spinoff_prover]
    pub fn to_bytes(&self) -> (r: Vec<u8>)
        ensures
            r@ == spec_enc_status(*self),
    {
        let mut out: Vec<u8> = Vec::new();
        let n: u64 = 4 + (if self.public_key.is_some() {
            1u64
        } else {
            0u64
        }) + (if self.server_version.is_some() {
            1u64
        } else {
            0u64
        }) + (if self.timeout.is_some() {
            1u64
        } else {
            0u64
        });
        cbor::encode_hdr(cbor::MAJOR_MAP, n, &mut out);
        cbor::encode_uint(0, &mut out);
        cbor::encode_uint(self.version as u64, &mut out);
        cbor::encode_uint(1, &mut out);
        cbor::encode_text(&self.name, &mut out);
        match &self.public_key {
            Some(pk) => {
                cbor::encode_uint(2, &mut out);
                cbor::encode_bytes(pk, &mut out);
            },
            None => {},
        }
        cbor::encode_uint(3, &mut out);
        crate::types::encode_address(&self.identity, &mut out);
        cbor::encode_uint(4, &mut out);
        cbor::encode_hdr(cbor::MAJOR_ARRAY, self.attributes.len() as u64, &mut out);
        encode_uint_list(&self.attributes, &mut out);
        match &self.server_version {
            Some(sv) => {
                cbor::encode_uint(5, &mut out);
                cbor::encode_text(sv, &mut out);
            },
            None => {},
        }
        match &self.timeout {
            Some(t) => {
                cbor::encode_uint(7, &mut out);
                cbor::encode_uint(*t, &mut out);
            },
            None => {},
        }
        assert(out@ =~= spec_enc_status(*self));
        out
    }

    /// Parses a status from its canonical bytes.
    #[verifier::rlimit(100)]
    #[verifier::spinoff_prover]
    pub fn from_bytes(b: &Vec<u8>) -> (r: Result<Status, CborError>)
        ensures
            r matches Ok(s) ==> b@ == spec_enc_status(s),
    {
        let (n, hdr_end) = cbor::decode_map_hdr(b, 0)?;
        if n < 4 || n > 7 {
            return Err(CborError::Invalid);
        }
        let mut cur = hdr_end;
        let mut remaining = n;
        let (k0, k0_end) = cbor::decode_uint(b, cur)?;
        if k0 != 0 {
            return Err(CborError::Invalid);
        }
        let (version64, v_end) = cbor::decode_uint(b, k0_end)?;
        if version64 > 255 {
            return Err(CborError::Invalid);
        }
        let version = version64 as u8;
        proof {
            cbor::lemma_subrange_concat(b@, cur as int, k0_end as int, v_end as int);
        }
        cur = v_end;
        remaining = remaining - 1;
        let ghost p_version = cur;
        let (name, n_end) = protocol::read_req_text(b, cur, 1)?;
        cur = n_end;
        remaining = remaining - 1;
        let ghost p_name = cur;
        let mut public_key: Option<Vec<u8>> = None;
        match protocol::read_opt_bytes(b, cur, 2, remaining)? {
            Some((v, end)) => {
                public_key = Some(v);
                cur = end;
                remaining = remaining - 1;
            },
            None => {},
        }
        let ghost p_pk = cur;
        if remaining == 0 {
            return Err(CborError::Invalid);
        }
        let (identity, id_end) = protocol::read_req_address(b, cur, 3)?;
        cur = id_end;
        remaining = remaining - 1;
        let ghost p_id = cur;
        if remaining == 0 {
            return Err(CborError::Invalid);
        }
        let (k4, k4_end) = cbor::decode_uint(b, cur)?;
        if k4 != 4 {
            return Err(CborError::Invalid);
        }
        let (attributes, a_end) = decode_uint_list(b, k4_end)?;
        proof {
            cbor::lemma_subrange_concat(b@, cur as int, k4_end as int, a_end as int);
        }
        cur = a_end;
        remaining = remaining - 1;
        let ghost p_attrs = cur;
        let mut server_version: Option<String> = None;
        match protocol::read_opt_text(b, cur, 5, remaining)? {
            Some((v, end)) => {
                server_version = Some(v);
                cur = end;
                remaining = remaining - 1;
            },
            None => {},
        }
        let ghost p_sv = cur;
        let mut timeout: Option<u64> = None;
        match protocol::read_opt_u64(b, cur, 7, remaining)? {
            Some((v, end)) => {
                timeout = Some(v);
                cur = end;
                remaining = remaining - 1;
            },
            None => {},
        }
        if remaining != 0 {
            return Err(CborError::Invalid);
        }
        if cur != b.len() {
            return Err(CborError::Invalid);
        }
        let s = Status { version, name, public_key, identity, attributes, server_version, timeout };
        assert(n == spec_status_map_len(s));
        proof {
            let bv = b@;
            if s.public_key is None {
                assert(bv.subrange(p_name as int, p_pk as int) =~= Seq::<u8>::empty());
            }
            if s.server_version is None {
                assert(bv.subrange(p_attrs as int, p_sv as int) =~= Seq::<u8>::empty());
            }
            if s.timeout is None {
                assert(bv.subrange(p_sv as int, cur as int) =~= Seq::<u8>::empty());
            }
            lemma_compose_status(
                bv,
                hdr_end as int,
                p_version as int,
                p_name as int,
                p_pk as int,
                p_id as int,
                p_attrs as int,
                p_sv as int,
                cur as int,
                s,
                n,
            );
            assert(bv.subrange(0, b@.len() as int) =~= bv);
        }
        Ok(s)
    }
}

/// Composes the per-field byte ranges of a decoded status into the whole
/// canonical encoding.
#[verifier::spinoff_prover]
#[verifier::rlimit(100)]
proof fn lemma_compose_status(
    bv: Seq<u8>,
    hdr_end: int,
    p_version: int,
    p_name: int,
    p_pk: int,
    p_id: int,
    p_attrs: int,
    p_sv: int,
    cur: int,
    s: Status,
    n: u64,
)
    requires
        0 <= hdr_end <= p_version <= p_name <= p_pk <= p_id <= p_attrs <= p_sv <= cur <= bv.len(),
        n == spec_status_map_len(s),
        bv.subrange(0, hdr_end) == cbor::spec_hdr(cbor::MAJOR_MAP, n),
        bv.subrange(hdr_end, p_version) == cbor::spec_enc_uint(0) + cbor::spec_enc_uint(
            s.version as u64,
        ),
        bv.subrange(p_version, p_name) == cbor::spec_enc_uint(1) + cbor::spec_enc_text(s.name@),
        bv.subrange(p_name, p_pk) == (if s.public_key is Some {
            cbor::spec_enc_uint(2) + cbor::spec_enc_bytes(s.public_key->Some_0@)
        } else {
            Seq::<u8>::empty()
        }),
        bv.subrange(p_pk, p_id) == cbor::spec_enc_uint(3) + crate::types::spec_enc_address(
            s.identity@,
        ),
        bv.subrange(p_id, p_attrs) == cbor::spec_enc_uint(4) + (cbor::spec_hdr(
            cbor::MAJOR_ARRAY,
            s.attributes@.len() as u64,
        ) + spec_enc_subs(s.attributes@)),
        bv.subrange(p_attrs, p_sv) == (if s.server_version is Some {
            cbor::spec_enc_uint(5) + cbor::spec_enc_text(s.server_version->Some_0@)
        } else {
            Seq::<u8>::empty()
        }),
        bv.subrange(p_sv, cur) == (if s.timeout is Some {
            cbor::spec_enc_uint(7) + cbor::spec_enc_uint(s.timeout->Some_0)
        } else {
            Seq::<u8>::empty()
        }),
    ensures
        bv.subrange(0, cur) == spec_enc_status(s),
{
    broadcast use crate::cbor::lemma_concat_assoc_bytes;

    cbor::lemma_subrange_concat(bv, 0, hdr_end, p_version);
    cbor::lemma_subrange_concat(bv, 0, p_version, p_name);
    cbor::lemma_subrange_concat(bv, 0, p_name, p_pk);
    cbor::lemma_subrange_concat(bv, 0, p_pk, p_id);
    cbor::lemma_subrange_concat(bv, 0, p_id, p_attrs);
    cbor::lemma_subrange_concat(bv, 0, p_attrs, p_sv);
    cbor::lemma_subrange_concat(bv, 0, p_sv, cur);
    assert(bv.subrange(0, cur) =~= spec_enc_status(s));
}

/// The backend server state: its identity, its registered modules and the
/// admission timeout; a fixed reference time can replace the caller's
/// clock.
pub struct ManyServer {
    pub modules: Vec<ManyModuleInfo>,
    pub identity: Address,
    pub name: String,
    pub version: Option<String>,
    pub timeout: u64,
    /// When set, the server validates message times against this instant
    /// instead of the caller-supplied clock.
    pub time_override: Option<u64>,
}


/// A request that passes the server's admission checks: its timestamp lies
/// within the window around the reference instant and its destination is
/// this server or anonymous.
pub open spec fn spec_execute_time_ok(s: ManyServer, request: RequestMessage, wall_now: u64) -> bool {
    request.timestamp matches Some(t) && protocol::spec_time_in_range(
        t.secs,
        (match s.time_override {
            Some(x) => x,
            None => wall_now,
        }),
        s.timeout,
    )
}

pub open spec fn spec_execute_admitted(s: ManyServer, request: RequestMessage, wall_now: u64) -> bool {
    &&& spec_execute_time_ok(s, request, wall_now)
    &&& (request.to@ == crate::types::spec_anonymous() || request.to@ == s.identity@)
}

/// The character view of an optional text.
pub open spec fn spec_opt_text_view(v: Option<String>) -> Option<Seq<char>> {
    match v {
        Some(s) => Some(s@),
        None => None,
    }
}

/// An endpoint list contains a method name.
pub open spec fn spec_endpoints_contain(endpoints: Seq<String>, method: Seq<char>) -> bool {
    exists|i: int| 0 <= i < endpoints.len() && (#[trigger] endpoints[i])@ == method
}

/// Some registered module serves the method.
pub open spec fn spec_serves(modules: Seq<ManyModuleInfo>, method: Seq<char>) -> bool {
    exists|i: int|
        0 <= i < modules.len() && spec_endpoints_contain(
            (#[trigger] modules[i]).endpoints@,
            method,
        )
}

impl ManyServer {
    /// A bare server with the default timeout.
    pub fn new(name: String, identity: Address) -> (r: ManyServer)
        ensures
            r.name == name,
            r.identity == identity,
            r.timeout == MANYSERVER_DEFAULT_TIMEOUT,
            r.modules@.len() == 0,
            r.version is None,
            r.time_override is None,
    {
        ManyServer {
            modules: Vec::new(),
            identity,
            name,
            version: None,
            timeout: MANYSERVER_DEFAULT_TIMEOUT,
            time_override: None,
        }
    }

    /// A server with the given software version and the base endpoints
    /// registered.
    pub fn simple(name: String, identity: Address, version: Option<String>) -> (r: ManyServer)
        ensures
            r.name == name,
            r.identity == identity,
            r.timeout == MANYSERVER_DEFAULT_TIMEOUT,
            r.version == version,
            r.modules@.len() == 1,
            spec_serves(r.modules@, "status"@),
    {
        let mut server = ManyServer::new(name, identity);
        server.version = version;
        let mut endpoints: Vec<String> = Vec::new();
        endpoints.push(status_endpoint());
        assert(endpoints@[0]@ == "status"@);
        let info = ManyModuleInfo { attribute: Some(0), name: base_module_name(), endpoints };
        let ghost info_g = info;
        let added = server.add_module(info);
        proof {
            assert(added is Ok);
            assert(server.modules@[0] == info_g);
            assert(server.modules@[0].endpoints@[0]@ == "status"@);
            assert(spec_endpoints_contain(server.modules@[0].endpoints@, "status"@));
        }
        server
    }

    /// Changes the admission timeout.
    pub fn set_timeout(&mut self, timeout_in_secs: u64)
        ensures
            final(self).timeout == timeout_in_secs,
            final(self).modules == old(self).modules,
            final(self).identity == old(self).identity,
            final(self).time_override == old(self).time_override,
    {
        self.timeout = timeout_in_secs;
    }

    /// Fixes the instant message times are validated against.
    pub fn set_time(&mut self, now: Option<u64>)
        ensures
            final(self).time_override == now,
            final(self).modules == old(self).modules,
            final(self).timeout == old(self).timeout,
    {
        self.time_override = now;
    }

    /// Registers a module. A module whose attribute or endpoints collide
    /// with an already registered one is refused.
    pub fn add_module(&mut self, module: ManyModuleInfo) -> (r: Result<(), ManyError>)
        ensures
            r is Ok ==> final(self).modules@ == old(self).modules@.push(module),
            old(self).modules@.len() == 0 ==> r is Ok,
            r is Err ==> final(self).modules == old(self).modules,
            final(self).identity == old(self).identity,
            final(self).timeout == old(self).timeout,
            final(self).time_override == old(self).time_override,
            final(self).name == old(self).name,
            final(self).version == old(self).version,
    {
        let n = self.modules.len();
        let mut i: usize = 0;
        while i < n
            invariant
                i <= n,
                n == self.modules@.len(),
            decreases n - i,
        {
            match (&self.modules[i].attribute, &module.attribute) {
                (Some(a), Some(b)) => {
                    if *a == *b {
                        return Err(ManyError::unknown(String::new()));
                    }
                },
                _ => {},
            }
            let en = self.modules[i].endpoints.len();
            let mut j: usize = 0;
            while j < en
                invariant
                    j <= en,
                    i < n,
                    n == self.modules@.len(),
                    en == self.modules@[i as int].endpoints@.len(),
                decreases en - j,
            {
                if contains_string(&module.endpoints, &self.modules[i].endpoints[j]) {
                    return Err(ManyError::unknown(String::new()));
                }
                j = j + 1;
            }
            i = i + 1;
        }
        self.modules.push(module);
        Ok(())
    }

    /// Verifies that a message is for this server: anonymous destinations
    /// and the server's own identity are accepted.
    pub fn validate_id(&self, message: &RequestMessage) -> (r: Result<(), ManyError>)
        ensures
            r is Ok <==> (message.to@ == crate::types::spec_anonymous() || message.to@
                == self.identity@),
            r matches Err(e) ==> e.code == error::CODE_UNKNOWN_DESTINATION,
    {
        if message.to.is_anonymous() || &self.identity == &message.to {
            Ok(())
        } else {
            Err(ManyError::unknown_destination())
        }
    }

    /// The module serving a message's method, when one is registered.
    pub fn find_module(&self, message: &RequestMessage) -> (r: Option<&ManyModuleInfo>)
        ensures
            r is Some <==> spec_serves(self.modules@, message.method@),
    {
        let n = self.modules.len();
        let mut i: usize = 0;
        while i < n
            invariant
                i <= n,
                n == self.modules@.len(),
                forall|k: int|
                    0 <= k < i ==> !spec_endpoints_contain(
                        (#[trigger] self.modules@[k]).endpoints@,
                        message.method@,
                    ),
            decreases n - i,
        {
            if contains_string(&self.modules[i].endpoints, &message.method) {
                assert(spec_serves(self.modules@, message.method@));
                return Some(&self.modules[i]);
            }
            i = i + 1;
        }
        None
    }

    /// The server's status report.
    pub fn status(&self) -> (r: Status)
        ensures
            r.name == self.name,
            r.identity@ == self.identity@,
            r.version == 1,
            r.server_version == self.version,
            r.timeout == Some(self.timeout),
            r.attributes@ == spec_module_attrs(self.modules@),
            r.public_key is None,
    {
        let mut attributes: Vec<u64> = Vec::new();
        let n = self.modules.len();
        let mut i: usize = 0;
        while i < n
            invariant
                i <= n,
                n == self.modules@.len(),
                attributes@ == spec_module_attrs(self.modules@.take(i as int)),
            decreases n - i,
        {
            proof {
                assert(self.modules@.take(i as int + 1).drop_last() =~= self.modules@.take(
                    i as int,
                ));
                assert(self.modules@.take(i as int + 1).last() == self.modules@[i as int]);
            }
            match &self.modules[i].attribute {
                Some(a) => {
                    attributes.push(*a as u64);
                },
                None => {},
            }
            i = i + 1;
        }
        proof {
            assert(self.modules@.take(n as int) =~= self.modules@);
        }
        let sv = match &self.version {
            Some(v) => Some(v.clone()),
            None => None,
        };
        Status {
            version: 1,
            name: self.name.clone(),
            public_key: None,
            identity: self.identity.clone(),
            attributes,
            server_version: sv,
            timeout: Some(self.timeout),
        }
    }

    /// Executes one request: validates its time against the reference
    /// instant (the server's fixed one, or the caller's clock) and its
    /// destination, and dispatches the status endpoint; any other method
    /// is answered with the routing error. Returns the response to sign.
    pub fn execute(&self, request: &RequestMessage, wall_now: u64) -> (r: ResponseMessage)
        ensures
            r.from@ == self.identity@,
            r.id == request.id,
            (r.data matches Err(e) && e.code == error::CODE_TIMESTAMP_OUT_OF_RANGE) ==> !(
            request.timestamp matches Some(t) && protocol::spec_time_in_range(
                t.secs,
                (match self.time_override {
                    Some(x) => x,
                    None => wall_now,
                }),
                self.timeout,
            )),
            (r.data matches Err(e) && e.code == error::CODE_UNKNOWN_DESTINATION) ==> !(
            request.to@ == crate::types::spec_anonymous() || request.to@ == self.identity@),
            self.timeout == 0 ==> (r.data matches Err(e) && e.code
                == error::CODE_TIMESTAMP_OUT_OF_RANGE),
            (self.timeout > 0 && request.timestamp is None) ==> (r.data matches Err(e) && e.code
                == error::CODE_REQUIRED_FIELD_MISSING),
            (request.timestamp matches Some(t) && !spec_execute_time_ok(*self, *request, wall_now))
                ==> (r.data matches Err(e) && e.code == error::CODE_TIMESTAMP_OUT_OF_RANGE),
            (spec_execute_time_ok(*self, *request, wall_now) && !(request.to@
                == crate::types::spec_anonymous() || request.to@ == self.identity@)) ==> (
            r.data matches Err(e) && e.code == error::CODE_UNKNOWN_DESTINATION),
            (spec_execute_admitted(*self, *request, wall_now) && !spec_serves(
                self.modules@,
                request.method@,
            )) ==> (r.data matches Err(e) && e.code == error::CODE_COULD_NOT_ROUTE_MESSAGE),
            (spec_execute_admitted(*self, *request, wall_now) && spec_serves(
                self.modules@,
                request.method@,
            ) && request.method@ == "status"@) ==> (r.data matches Ok(d) && (exists|st: Status|
                {
                    &&& d@ == #[trigger] spec_enc_status(st)
                    &&& st.version == 1
                    &&& st.name@ == self.name@
                    &&& st.identity@ == self.identity@
                    &&& st.attributes@ == spec_module_attrs(self.modules@)
                    &&& st.public_key is None
                    &&& st.timeout == Some(self.timeout)
                    &&& spec_opt_text_view(st.server_version) == spec_opt_text_view(self.version)
                })),
    {
        let now = match &self.time_override {
            Some(t) => *t,
            None => wall_now,
        };
        match protocol::validate_time(request, now, self.timeout) {
            Ok(()) => {},
            Err(e) => {
                return ResponseMessage::error(self.identity.clone(), request.id, e);
            },
        }
        match self.validate_id(request) {
            Ok(()) => {},
            Err(e) => {
                return ResponseMessage::error(self.identity.clone(), request.id, e);
            },
        }
        if self.find_module(request).is_none() {
            return ResponseMessage::error(
                self.identity.clone(),
                request.id,
                ManyError::could_not_route_message(),
            );
        }
        let data: Result<Vec<u8>, ManyError> = if eq_str(&request.method, "status") {
            let st = self.status();
            let ghost st_g = st;
            let bytes = st.to_bytes();
            proof {
                assert(bytes@ == spec_enc_status(st_g));
            }
            Ok(bytes)
        } else {
            Err(ManyError::could_not_route_message())
        };
        ResponseMessage {
            version: None,
            from: self.identity.clone(),
            to: request.from.clone(),
            data,
            timestamp: None,
            id: request.id,
        }
    }
}

/// The attribute ids the registered modules carry, in order.
pub open spec fn spec_module_attrs(modules: Seq<ManyModuleInfo>) -> Seq<u64>
    decreases modules.len(),
{
    if modules.len() == 0 {
        Seq::empty()
    } else {
        match modules.last().attribute {
            Some(a) => spec_module_attrs(modules.drop_last()).push(a as u64),
            None => spec_module_attrs(modules.drop_last()),
        }
    }
}

/// True when the list holds a string equal to `s`.
fn contains_string(list: &Vec<String>, s: &String) -> (r: bool)
    ensures
        r == spec_endpoints_contain(list@, s@),
{
    let n = list.len();
    let mut i: usize = 0;
    while i < n
        invariant
            i <= n,
            n == list@.len(),
            forall|j: int| 0 <= j < i ==> (#[trigger] list@[j])@ != s@,
        decreases n - i,
    {
        if list[i] == *s {
            assert(list@[i as int]@ == s@);
            assert(spec_endpoints_contain(list@, s@));
            return true;
        }
        assert(list@[i as int]@ != s@);
        i = i + 1;
    }
    false
}

/// True when the string equals the literal.
fn eq_str(a: &String, b: &str) -> (r: bool)
    ensures
        r == (a@ == b@),
{
    let bs = b.to_owned();
    *a == bs
}

/// The status endpoint name.
fn status_endpoint() -> (r: String)
    ensures
        r@ == "status"@,
{
    "status".to_owned()
}

/// The base module's name.
fn base_module_name() -> (r: String)
    ensures
        r@ == "base"@,
{
    "base".to_owned()
}

} // verus!
