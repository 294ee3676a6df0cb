//! A minimal persistent key/value store.
//!
//! Records live in a single append-only byte image: each record is a
//! fixed-width key digest, a little-endian value length, a tombstone byte and
//! the value payload.  Reading scans forward for the first live record under a
//! digest; deleting flips the tombstone of every live record under a digest;
//! upserting appends a fresh record after tombstoning the old value; and
//! compaction rewrites the image so only the latest live record of each digest
//! remains.  The surrounding process glue (file descriptors, advisory locks,
//! sockets, signals) lives outside this crate and hands byte images in and out.

pub mod codec;
pub mod digest;
pub mod engine;
pub mod laws;
pub mod server;
pub mod store;
