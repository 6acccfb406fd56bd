//! A content-addressable store: values are serialized to a canonical byte
//! encoding, keyed by the cryptographic digest of that encoding, and kept in a
//! pluggable digest-indexed backend. Composite values may refer to other
//! stored values by digest, so nested structures form a DAG whose subtrees are
//! stored and retrieved incrementally.

pub mod backend;
pub mod content;
pub mod hash;
pub mod lazy;
pub mod shared;
pub mod std_impls;
pub mod store;
