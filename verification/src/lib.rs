//! Verified core of a benchmark suite for four cryptographic primitives
//! (Keccak-256, SHA-256, ECDSA over secp256k1, Ed25519): the guest-side
//! workloads and the host-side payload layout, run bookkeeping and reports.

pub mod digest;
pub mod records;
pub mod ecdsa;
pub mod ed25519;
pub mod signature;
pub mod scenario;
pub mod primitive;
pub mod payload;
pub mod report;
pub mod runs;
pub mod hardware;
