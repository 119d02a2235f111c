//! Astrolabe: an attestation registry built from two contracts, a schema
//! registry and an attestation registry, each modelled as a state machine whose
//! operations are proved against a mathematical model of its state.

pub mod host;
pub mod types;
pub mod xdr;
pub mod table;
pub mod schema_registry;
pub mod attestation;
pub mod laws;
