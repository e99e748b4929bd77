//! Storage engine for an S3-compatible object gateway.
//!
//! The engine has three pieces: an upload pipeline that re-chunks an inbound
//! byte stream while computing whole-object and per-chunk checksums, a
//! metadata/version engine that records each committed object version in a
//! relational model, and a retrieval pipeline that walks the stored bytes
//! back out as a forward-only stream. HTTP, SQL and backend transport live
//! outside this crate; the modules here hold the decisions and are verified.

pub mod chunker;
pub mod digests;
pub mod error;
pub mod respond;
pub mod retrieval;
pub mod routes;
pub mod store;
