//! A verified model of a small peer-to-peer notes node: a content-addressed
//! blob store, author-attributed documents with latest-writer semantics, and
//! an ALPN router that dispatches inbound sessions to protocol handlers.

pub mod alpn;
pub mod blobs;
pub mod bytes;
pub mod docs;
pub mod errors;
pub mod hashing;
pub mod router;
