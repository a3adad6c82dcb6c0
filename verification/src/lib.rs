//! Entity/component replication core for a client-server simulated world.
//!
//! The library keeps a server-held authoritative world and client-held
//! projections loosely consistent: it defines the wire messages and their
//! byte-exact codec, the bidirectional identity table that maps
//! authoritative-side entity handles to local ones, the per-component-type
//! sync policies with their authority checks, and the staged loading
//! pipeline that keeps partially populated objects invisible.
//!
//! Network transport, rendering and gameplay rules sit outside: the library
//! works on plain values (handles, kinds, payload bytes) that the
//! surrounding program hands in and takes back.

pub mod authority;
pub mod bytes;
pub mod channel;
pub mod identity;
pub mod loading;
pub mod persistence;
pub mod registry;
pub mod resolve;
pub mod store;
pub mod structure;
pub mod sync;
pub mod wire;
