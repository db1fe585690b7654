//! A read-only projection of a hierarchical key/value store as a virtual
//! filesystem tree. The library holds the provider's verified core: the
//! path resolver, the per-enumeration cache with its collation sort and
//! wildcard filter, the session table, and the dispatcher decisions that
//! the host callbacks reduce to. The hosting process supplies what only it
//! can — backing-store reads, host buffers, the callback plumbing — as
//! plain values, and every decision here is specified for each answer those
//! can give.

pub mod dirinfo;
pub mod name;
pub mod path;
pub mod regfs;
pub mod store;

pub use path::is_virtualization_root;
