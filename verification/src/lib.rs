//! Stable per-machine session identities: a deterministic derivation of
//! alphanumeric session IDs, encryption keys and write passwords from a
//! machine fingerprint, and the choice of that fingerprint from what a machine
//! reports about itself.

pub mod alnum;
pub mod console;
pub mod digest;
pub mod identity;
pub mod mac;
pub mod text;
