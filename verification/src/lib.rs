//! Chained-request resolution for a pipelined request/response protocol.
//!
//! A batch of requests may contain fields that are not yet known when the
//! batch is built: a field is either a concrete scalar or a back-reference
//! to an output slot of an earlier request in the same batch. This crate
//! provides the resolution primitives (validation, progressive resolution,
//! completion, index remapping) together with the storage-proof request
//! kind and its wire codec.

pub mod batch;
pub mod codec;
pub mod field;
pub mod mapping;
pub mod storage;
pub mod tables;
