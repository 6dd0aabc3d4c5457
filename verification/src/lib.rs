//! Core of a Discrete Global Grid Reference System (DGGRS) query library.
//!
//! A DGGRS partitions the Earth's surface into nested cells called zones.
//! The grid mathematics itself (projection, cell shape, per-scheme indexing)
//! lives in an external, dynamically loaded component; this crate holds the
//! verified logic around it: the dynamic-dispatch resolution rule, the
//! translation of fixed-capacity native result buffers into owned sequences,
//! the geographic bounding-box model and its parser, the zone listing filter,
//! and the zone-set compaction engine.

pub mod bbox;
pub mod cli;
pub mod compact;
pub mod dispatch;
pub mod expand;
pub mod geo;
pub mod laws;
pub mod listing;
pub mod names;
pub mod zone;
