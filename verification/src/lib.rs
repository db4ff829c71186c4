//! Hierarchical off-chain state commitments: sparse Merkle trees folded across
//! client, intermediate and root layers, plus the storage-node engine that
//! persists, verifies and replicates the resulting state objects.

pub mod errors;
pub mod util;
pub mod keyed;
pub mod hashing;
pub mod boc;
pub mod smt;
pub mod zkproof;
pub mod root_contract;
pub mod battery;
pub mod storage_node;
pub mod response;
pub mod distribution;
pub mod converter;
pub mod exporter;
