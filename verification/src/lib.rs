//! Core of a deterministic, replicated RPC server family: an ABCI-style
//! bridge between a consensus engine and an application backend, a
//! replay-prevention request validator cache, a height-keyed migration
//! engine, a Merkle-authenticated key-value storage core with an event log,
//! and the tagged, versioned event model with its CBOR codec.

use vstd::prelude::*;

pub mod abci;
pub mod abci_types;
pub mod bytestr;
pub mod cbor;
pub mod cborany;
pub mod config;
pub mod error;
pub mod eventid;
pub mod events;
pub mod kvstore;
pub mod migration;
pub mod protocol;
pub mod server;
pub mod storage;
pub mod types;
pub mod validator;

verus! {

/// Number of bits the block height is shifted by when seeding the event
/// identifier counter at the start of a block. No block may log more than
/// `1 << HEIGHT_EVENTID_SHIFT` events.
pub const HEIGHT_EVENTID_SHIFT: u64 = 32;

} // verus!
