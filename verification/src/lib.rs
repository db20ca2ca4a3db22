//! Reconstruction of a chained, blocked hash table that lives inside the
//! address space of a separate running process.
//!
//! [`utl_ts_hash`] describes the table's record shapes and walks its overflow
//! chain to recover the stored values; [`remote`] models the remote address
//! space those records are read from; [`json_file_builder`] accumulates
//! recovered name/offset pairs per namespace for later serialization.

pub mod json_file_builder;
pub mod remote;
pub mod utl_ts_hash;
