//! Domain-keyed origin routing cache.
//!
//! The cache holds an in-memory snapshot of every tenant's routing
//! configuration ([`origin::Origin`]), keyed by domain.  The snapshot is
//! rebuilt as a whole from a batch read of the backing store and installed
//! atomically; lookups on the hot request path never touch the store.
//!
//! [`cache::OriginCache`] is the snapshot itself, with exact contracts over a
//! mathematical map from domain to origin.  [`shared::SharedOriginCache`]
//! wraps a snapshot in a verified reader-writer lock so that many concurrent
//! readers and a refresh task can share it: refresh builds its replacement
//! outside the lock and swaps it in as one complete generation.

pub mod cache;
pub mod error;
pub mod origin;
pub mod shared;
