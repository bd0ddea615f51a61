//! Data-availability matrix construction and publishing, and the block-sync
//! request bookkeeping of a light-client node's network worker.
pub mod cbor;
pub mod data;
pub mod network;
