//! Registries of a credential blockchain runtime: claim types, delegation
//! hierarchies, attestations of claims and decentralised identifiers, each a
//! state machine whose transitions are proved against a model of its storage.
//! The registries keep state only: they emit no events.

pub mod bytes;
pub mod table;
pub mod crypto;
pub mod signature;
pub mod error;
pub mod ctype;
pub mod permissions;
pub mod hierarchy;
pub mod delegation;
pub mod attestation;
pub mod did;
pub mod runtime;
pub mod laws;
