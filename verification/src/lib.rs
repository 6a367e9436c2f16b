//! Host-side data preparation for a zero-knowledge virtual machine that
//! verifies Merkle Mountain Range (MMR) append and membership proofs.
//!
//! The library models the VM's segmented, write-once memory, encodes MMR
//! snapshots, last-leaf proofs and beacon block headers into that memory with
//! an exact field layout, and dispatches named hints (bulk input writing and
//! three small arithmetic helpers) against it.

pub mod codec;
pub mod decode;
pub mod error;
pub mod felt;
pub mod hints;
pub mod memory;
pub mod processor;
pub mod types;
