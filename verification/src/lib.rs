//! Consensus-critical state and effect layer of a smart-contract execution
//! engine: the versioned registry of system contracts, the write-effect
//! (transform) algebra and its commit into global state, the capability
//! group registry with its global reference cap, and the protocol-version
//! compatibility gate applied before any stored contract runs.

pub mod bytesrepr;
pub mod deploy;
pub mod global_state;
pub mod groups;
pub mod protocol_data;
pub mod registry;
pub mod semver;
pub mod transform;
pub mod u512;
pub mod wasm_costs;
