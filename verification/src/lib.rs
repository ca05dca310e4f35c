//! Entitlement and achievement records for games: embedded offline
//! achievements, bounded discovery and claim wire messages, registries,
//! hyper-dimensional profile vectors and the per-player ledger.

pub mod cbor;
pub mod wire;
pub mod codec;
pub mod json;
pub mod achievement;
pub mod text;
pub mod digest;
pub mod offline;
pub mod claim;
pub mod secure;
pub mod hd;
pub mod table;
pub mod registry;
pub mod node;
pub mod ledger;
pub mod profile;
pub mod secure_claims;
pub mod discovery;
pub mod sdk;
pub mod access;
pub mod identity;
pub mod api;
pub mod anchor;
pub mod network;
pub mod quic;
