//! Per-file encryption management for secrets tracked in a repository.
//!
//! The library tracks a set of managed files in a lock manifest, encrypts
//! ("locks") and decrypts ("unlocks") their contents with an authenticated
//! symmetric cipher keyed from a per-service credential, reports staleness,
//! resolves git remote URLs to a hosting service identity, and decides the
//! credential-acquisition and remote-selection flows. All file, network and
//! terminal interaction is left to the surrounding application, which hands
//! the library plain values.

pub mod codec;
pub mod config;
pub mod crypto;
pub mod errors;
pub mod manager;
pub mod manifest;
pub mod remote;

pub use errors::LocketError;
