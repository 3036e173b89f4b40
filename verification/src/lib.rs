//! A verified resource indexer.
//!
//! The library rebuilds a keyed cache of resources (files discovered under
//! configured root paths, enriched with metadata). One run purges the store,
//! assembles a fresh identifier-to-payload mapping from the scanned files,
//! resets the derived data cache, and installs the new mapping in bulk.
//! The scan itself and the recurring timer are I/O and live with the host
//! application; everything the run decides and computes is verified here.

pub mod fingerprint;
pub mod indexer;
pub mod model;
pub mod payload;
pub mod schedule;
pub mod store;
pub mod text;
