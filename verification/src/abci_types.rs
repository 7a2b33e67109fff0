//! The values exchanged with the consensus-facing backend endpoints: what a
//! module exposes at initialization, the backend's height and hash report,
//! the block header extract, and the commit report.

use crate::cbor;
use crate::cbor::CborError;
use vstd::prelude::*;

verus! {

/// How one endpoint behaves: a command mutates state, a query does not.
#[derive(Clone, Copy, Debug, PartialEq, Eq, Structural)]
pub struct EndpointInfo {
    pub is_command: bool,
}

/// What a backend module reports at initialization: its endpoints, each
/// with its behavior.
#[derive(Clone, Debug)]
pub struct AbciInit {
    pub endpoints: Vec<(String, EndpointInfo)>,
}

/// The backend's report of its last committed height and root hash.
#[derive(Clone, Debug)]
pub struct AbciInfo {
    pub height: u64,
    pub hash: Vec<u8>,
}

/// The extract of a block header the backend needs: the block time, when
/// the header carried one.
#[derive(Clone, Copy, Debug, PartialEq, Eq, Structural)]
pub struct AbciBlock {
    pub time: Option<u64>,
}

/// The backend's report after a commit: the height below which blocks may
/// be pruned, and the new root hash.
#[derive(Clone, Debug)]
pub struct AbciCommitInfo {
    pub retain_height: u64,
    pub hash: Vec<u8>,
}

/// The canonical encoding of an information report: a map with the height
/// at key 0 and the hash at key 1.
pub open spec fn spec_enc_abci_info(v: AbciInfo) -> Seq<u8> {
    cbor::spec_hdr(cbor::MAJOR_MAP, 2) + cbor::spec_enc_uint(0) + cbor::spec_enc_uint(v.height)
        + cbor::spec_enc_uint(1) + cbor::spec_enc_bytes(v.hash@)
}

impl AbciInfo {
    /// Serializes the report to its canonical bytes.
    pub fn to_bytes(&self) -> (r: Vec<u8>)
        ensures
            r@ == spec_enc_abci_info(*self),
    {
        let mut out: Vec<u8> = Vec::new();
        cbor::encode_hdr(cbor::MAJOR_MAP, 2, &mut out);
        cbor::encode_uint(0, &mut out);
        cbor::encode_uint(self.height, &mut out);
        cbor::encode_uint(1, &mut out);
        cbor::encode_bytes(&self.hash, &mut out);
        assert(out@ =~= spec_enc_abci_info(*self));
        out
    }

    /// Parses a report from its canonical bytes.
    pub fn from_bytes(b: &Vec<u8>) -> (r: Result<AbciInfo, CborError>)
        ensures
            r matches Ok(v) ==> b@ == spec_enc_abci_info(v),
            forall|v2: AbciInfo|
                (v2.hash@.len() <= u64::MAX && b@ == #[trigger] spec_enc_abci_info(v2)) ==> (
                r matches Ok(v) && v.height == v2.height && v.hash@ == v2.hash@),
    {
        proof {
            assert forall|v2: AbciInfo|
                (v2.hash@.len() <= u64::MAX && b@ == #[trigger] spec_enc_abci_info(v2)) implies {
                &&& cbor::spec_prefix_at(b@, 0, cbor::spec_hdr(cbor::MAJOR_MAP, 2))
                &&& cbor::spec_prefix_at(
                    b@,
                    cbor::spec_hdr(cbor::MAJOR_MAP, 2).len() as int,
                    cbor::spec_enc_uint(0),
                )
                &&& cbor::spec_prefix_at(
                    b@,
                    cbor::spec_hdr(cbor::MAJOR_MAP, 2).len() + cbor::spec_enc_uint(0).len() as int,
                    cbor::spec_enc_uint(v2.height),
                )
                &&& cbor::spec_prefix_at(
                    b@,
                    cbor::spec_hdr(cbor::MAJOR_MAP, 2).len() + cbor::spec_enc_uint(0).len()
                        + cbor::spec_enc_uint(v2.height).len() as int,
                    cbor::spec_enc_uint(1),
                )
                &&& cbor::spec_prefix_at(
                    b@,
                    cbor::spec_hdr(cbor::MAJOR_MAP, 2).len() + cbor::spec_enc_uint(0).len()
                        + cbor::spec_enc_uint(v2.height).len() + cbor::spec_enc_uint(
                        1,
                    ).len() as int,
                    cbor::spec_enc_bytes(v2.hash@),
                )
                &&& b@.len() == cbor::spec_hdr(cbor::MAJOR_MAP, 2).len() + cbor::spec_enc_uint(
                    0,
                ).len() + cbor::spec_enc_uint(v2.height).len() + cbor::spec_enc_uint(1).len()
                    + cbor::spec_enc_bytes(v2.hash@).len()
            } by {
                let h = cbor::spec_hdr(cbor::MAJOR_MAP, 2);
                let k0 = cbor::spec_enc_uint(0);
                let hv = cbor::spec_enc_uint(v2.height);
                let k1 = cbor::spec_enc_uint(1);
                let hb = cbor::spec_enc_bytes(v2.hash@);
                assert(b@.subrange(0, b@.len() as int) =~= b@);
                cbor::lemma_prefix_split(b@, 0, (((h + k0) + hv) + k1), hb);
                cbor::lemma_prefix_split(b@, 0, ((h + k0) + hv), k1);
                cbor::lemma_prefix_split(b@, 0, (h + k0), hv);
                cbor::lemma_prefix_split(b@, 0, h, k0);
            }
        }
        let (n, hdr_end) = cbor::decode_map_hdr(b, 0)?;
        if n != 2 {
            return Err(CborError::Invalid);
        }
        let (k0, k0_end) = cbor::decode_uint(b, hdr_end)?;
        if k0 != 0 {
            return Err(CborError::Invalid);
        }
        let (height, h_end) = cbor::decode_uint(b, k0_end)?;
        let (k1, k1_end) = cbor::decode_uint(b, h_end)?;
        if k1 != 1 {
            return Err(CborError::Invalid);
        }
        let (hash, end) = cbor::decode_bytes(b, k1_end)?;
        if end != b.len() {
            return Err(CborError::Invalid);
        }
        let v = AbciInfo { height, hash };
        proof {
            cbor::lemma_subrange_concat(b@, 0, hdr_end as int, k0_end as int);
            cbor::lemma_subrange_concat(b@, 0, k0_end as int, h_end as int);
            cbor::lemma_subrange_concat(b@, 0, h_end as int, k1_end as int);
            cbor::lemma_subrange_concat(b@, 0, k1_end as int, end as int);
            assert(b@.subrange(0, b@.len() as int) =~= b@);
            assert(b@ == spec_enc_abci_info(v));
        }
        Ok(v)
    }
}

/// The canonical encoding of a block extract: a map holding the time at key
/// 0 when present.
pub open spec fn spec_enc_abci_block(v: AbciBlock) -> Seq<u8> {
    match v.time {
        Some(t) => cbor::spec_hdr(cbor::MAJOR_MAP, 1) + cbor::spec_enc_uint(0) + cbor::spec_enc_uint(
            t,
        ),
        None => cbor::spec_hdr(cbor::MAJOR_MAP, 0),
    }
}

impl AbciBlock {
    /// Serializes the extract to its canonical bytes.
    pub fn to_bytes(&self) -> (r: Vec<u8>)
        ensures
            r@ == spec_enc_abci_block(*self),
    {
        let mut out: Vec<u8> = Vec::new();
        match self.time {
            Some(t) => {
                cbor::encode_hdr(cbor::MAJOR_MAP, 1, &mut out);
                cbor::encode_uint(0, &mut out);
                cbor::encode_uint(t, &mut out);
            },
            None => {
                cbor::encode_hdr(cbor::MAJOR_MAP, 0, &mut out);
            },
        }
        assert(out@ =~= spec_enc_abci_block(*self));
        out
    }

    /// Parses an extract from its canonical bytes.
    pub fn from_bytes(b: &Vec<u8>) -> (r: Result<AbciBlock, CborError>)
        ensures
            r matches Ok(v) ==> b@ == spec_enc_abci_block(v),
            forall|v2: AbciBlock|
                b@ == #[trigger] spec_enc_abci_block(v2) ==> (r matches Ok(v) && v.time
                    == v2.time),
    {
        proof {
            assert forall|v2: AbciBlock| b@ == #[trigger] spec_enc_abci_block(v2) implies {
                &&& (v2.time is None ==> (cbor::spec_prefix_at(
                    b@,
                    0,
                    cbor::spec_hdr(cbor::MAJOR_MAP, 0),
                ) && b@.len() == cbor::spec_hdr(cbor::MAJOR_MAP, 0).len()))
                &&& (v2.time matches Some(t) ==> (cbor::spec_prefix_at(
                    b@,
                    0,
                    cbor::spec_hdr(cbor::MAJOR_MAP, 1),
                ) && cbor::spec_prefix_at(
                    b@,
                    cbor::spec_hdr(cbor::MAJOR_MAP, 1).len() as int,
                    cbor::spec_enc_uint(0),
                ) && cbor::spec_prefix_at(
                    b@,
                    cbor::spec_hdr(cbor::MAJOR_MAP, 1).len() + cbor::spec_enc_uint(0).len() as int,
                    cbor::spec_enc_uint(t),
                ) && b@.len() == cbor::spec_hdr(cbor::MAJOR_MAP, 1).len() + cbor::spec_enc_uint(
                    0,
                ).len() + cbor::spec_enc_uint(t).len()))
            } by {
                assert(b@.subrange(0, b@.len() as int) =~= b@);
                match v2.time {
                    Some(t) => {
                        let h = cbor::spec_hdr(cbor::MAJOR_MAP, 1);
                        let k0 = cbor::spec_enc_uint(0);
                        let tv = cbor::spec_enc_uint(t);
                        cbor::lemma_prefix_split(b@, 0, (h + k0), tv);
                        cbor::lemma_prefix_split(b@, 0, h, k0);
                    },
                    None => {},
                }
            }
        }
        let (n, hdr_end) = cbor::decode_map_hdr(b, 0)?;
        if n == 0 {
            if hdr_end != b.len() {
                return Err(CborError::Invalid);
            }
            let v = AbciBlock { time: None };
            assert(b@.subrange(0, b@.len() as int) =~= b@);
            return Ok(v);
        }
        if n != 1 {
            return Err(CborError::Invalid);
        }
        let (k0, k0_end) = cbor::decode_uint(b, hdr_end)?;
        if k0 != 0 {
            return Err(CborError::Invalid);
        }
        let (t, end) = cbor::decode_uint(b, k0_end)?;
        if end != b.len() {
            return Err(CborError::Invalid);
        }
        let v = AbciBlock { time: Some(t) };
        proof {
            cbor::lemma_subrange_concat(b@, 0, hdr_end as int, k0_end as int);
            cbor::lemma_subrange_concat(b@, 0, k0_end as int, end as int);
            assert(b@.subrange(0, b@.len() as int) =~= b@);
            assert(b@ == spec_enc_abci_block(v));
        }
        Ok(v)
    }
}

/// The canonical encoding of a commit report: a map with the retain height
/// at key 0 and the hash at key 1.
pub open spec fn spec_enc_abci_commit_info(v: AbciCommitInfo) -> Seq<u8> {
    cbor::spec_hdr(cbor::MAJOR_MAP, 2) + cbor::spec_enc_uint(0) + cbor::spec_enc_uint(
        v.retain_height,
    ) + cbor::spec_enc_uint(1) + cbor::spec_enc_bytes(v.hash@)
}

impl AbciCommitInfo {
    /// Serializes the report to its canonical bytes.
    pub fn to_bytes(&self) -> (r: Vec<u8>)
        ensures
            r@ == spec_enc_abci_commit_info(*self),
    {
        let mut out: Vec<u8> = Vec::new();
        cbor::encode_hdr(cbor::MAJOR_MAP, 2, &mut out);
        cbor::encode_uint(0, &mut out);
        cbor::encode_uint(self.retain_height, &mut out);
        cbor::encode_uint(1, &mut out);
        cbor::encode_bytes(&self.hash, &mut out);
        assert(out@ =~= spec_enc_abci_commit_info(*self));
        out
    }

    /// Parses a report from its canonical bytes.
    pub fn from_bytes(b: &Vec<u8>) -> (r: Result<AbciCommitInfo, CborError>)
        ensures
            r matches Ok(v) ==> b@ == spec_enc_abci_commit_info(v),
            forall|v2: AbciCommitInfo|
                (v2.hash@.len() <= u64::MAX && b@ == #[trigger] spec_enc_abci_commit_info(v2))
                    ==> (r matches Ok(v) && v.retain_height == v2.retain_height && v.hash@
                    == v2.hash@),
    {
        proof {
            assert forall|v2: AbciCommitInfo|
                (v2.hash@.len() <= u64::MAX && b@ == #[trigger] spec_enc_abci_commit_info(
                    v2,
                )) implies {
                &&& cbor::spec_prefix_at(b@, 0, cbor::spec_hdr(cbor::MAJOR_MAP, 2))
                &&& cbor::spec_prefix_at(
                    b@,
                    cbor::spec_hdr(cbor::MAJOR_MAP, 2).len() as int,
                    cbor::spec_enc_uint(0),
                )
                &&& cbor::spec_prefix_at(
                    b@,
                    cbor::spec_hdr(cbor::MAJOR_MAP, 2).len() + cbor::spec_enc_uint(0).len() as int,
                    cbor::spec_enc_uint(v2.retain_height),
                )
                &&& cbor::spec_prefix_at(
                    b@,
                    cbor::spec_hdr(cbor::MAJOR_MAP, 2).len() + cbor::spec_enc_uint(0).len()
                        + cbor::spec_enc_uint(v2.retain_height).len() as int,
                    cbor::spec_enc_uint(1),
                )
                &&& cbor::spec_prefix_at(
                    b@,
                    cbor::spec_hdr(cbor::MAJOR_MAP, 2).len() + cbor::spec_enc_uint(0).len()
                        + cbor::spec_enc_uint(v2.retain_height).len() + cbor::spec_enc_uint(
                        1,
                    ).len() as int,
                    cbor::spec_enc_bytes(v2.hash@),
                )
                &&& b@.len() == cbor::spec_hdr(cbor::MAJOR_MAP, 2).len() + cbor::spec_enc_uint(
                    0,
                ).len() + cbor::spec_enc_uint(v2.retain_height).len() + cbor::spec_enc_uint(
                    1,
                ).len() + cbor::spec_enc_bytes(v2.hash@).len()
            } by {
                let h = cbor::spec_hdr(cbor::MAJOR_MAP, 2);
                let k0 = cbor::spec_enc_uint(0);
                let hv = cbor::spec_enc_uint(v2.retain_height);
                let k1 = cbor::spec_enc_uint(1);
                let hb = cbor::spec_enc_bytes(v2.hash@);
                assert(b@.subrange(0, b@.len() as int) =~= b@);
                cbor::lemma_prefix_split(b@, 0, (((h + k0) + hv) + k1), hb);
                cbor::lemma_prefix_split(b@, 0, ((h + k0) + hv), k1);
                cbor::lemma_prefix_split(b@, 0, (h + k0), hv);
                cbor::lemma_prefix_split(b@, 0, h, k0);
            }
        }
        let (n, hdr_end) = cbor::decode_map_hdr(b, 0)?;
        if n != 2 {
            return Err(CborError::Invalid);
        }
        let (k0, k0_end) = cbor::decode_uint(b, hdr_end)?;
        if k0 != 0 {
            return Err(CborError::Invalid);
        }
        let (retain_height, h_end) = cbor::decode_uint(b, k0_end)?;
        let (k1, k1_end) = cbor::decode_uint(b, h_end)?;
        if k1 != 1 {
            return Err(CborError::Invalid);
        }
        let (hash, end) = cbor::decode_bytes(b, k1_end)?;
        if end != b.len() {
            return Err(CborError::Invalid);
        }
        let v = AbciCommitInfo { retain_height, hash };
        proof {
            cbor::lemma_subrange_concat(b@, 0, hdr_end as int, k0_end as int);
            cbor::lemma_subrange_concat(b@, 0, k0_end as int, h_end as int);
            cbor::lemma_subrange_concat(b@, 0, h_end as int, k1_end as int);
            cbor::lemma_subrange_concat(b@, 0, k1_end as int, end as int);
            assert(b@.subrange(0, b@.len() as int) =~= b@);
            assert(b@ == spec_enc_abci_commit_info(v));
        }
        Ok(v)
    }
}

} // verus!
