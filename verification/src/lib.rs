//! Batching of client acknowledgements: Merkle inclusion proofs over a batch's
//! payloads, the batch lifecycle, and fault isolation over aggregate BLS
//! signatures.

pub mod batch;
pub mod bls;
pub mod clients;
pub mod fault_isolation;
pub mod hash;
pub mod intake;
pub mod lifecycle;
pub mod merkle;
pub mod signature_tree;
pub mod wire;
