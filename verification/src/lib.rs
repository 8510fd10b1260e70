//! Computation of a Filecoin piece commitment ("CommP") over a byte stream.
//!
//! The pipeline classifies the declared input length into a canonical padded
//! size, zero-pads the stream up to that size, bit-stuffs it so that every
//! 32-byte window is a valid field element, decodes those windows into domain
//! elements, and builds a binary Merkle tree over them; the root of that tree
//! is the commitment. The tree's backing store is selectable — all in memory,
//! or a hybrid store partitioned at a fixed index threshold — and the choice
//! never changes the commitment.

pub mod commp;
pub mod domain;
pub mod errors;
pub mod leafdec;
pub mod merkle;
pub mod padreader;
pub mod size;
pub mod store;
pub mod stuffreader;

pub use commp::{
    compute_commp, generate_commp_filecoin_proofs, generate_commp_storage_proofs,
    generate_commp_storage_proofs_mem, CommP,
};
pub use errors::CommPError;
pub use store::{IndexedStore, MemStore, MultiStore};
