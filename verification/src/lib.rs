//! Signed-configuration verification and certificate pinning.
//!
//! The library checks an Ed25519 signature over a configuration document
//! against an embedded public key (stored split and XOR-masked), extracts the
//! pinned API endpoint and fingerprint from the configuration, and validates
//! a server certificate by the SHA-256 fingerprint of its SubjectPublicKeyInfo.

pub mod key;
pub mod der;
pub mod text;
pub mod crypto;
pub mod config;
pub mod detect;
pub mod integrity;
pub mod handle;
