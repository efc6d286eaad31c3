//! Content-resolution and overlay-filesystem engine for a multi-tenant
//! content server.
//!
//! The engine turns per-title directory scans into an immutable registry:
//! layer stores (path -> file maps with an advisory scan cache), index and
//! mod stores, resolved instances (merged overlays, later layer wins), and
//! a content-fingerprint scheme for conditional-fetch negotiation.  All
//! resolution and lookup logic lives here; directory walking, record-file
//! parsing and HTTP transport are left to the surrounding binary, which
//! hands this crate plain values.

pub mod config;
pub mod dict;
pub mod etag;
pub mod mfs;
pub mod paths;
pub mod registry;
pub mod saves;
pub mod sc;
pub mod serve;
pub mod stores;
