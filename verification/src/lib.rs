//! A persistent record store for containers and the items held inside
//! them: a virtual-memory-backed key-value store of strongly-typed
//! records, a monotonic identifier allocator shared across both record
//! kinds, and the create/read/update operations that keep identifiers
//! unique and cross-references consistent.
pub mod backing;
pub mod codec;
pub mod laws;
pub mod records;
pub mod store;
pub mod text;
