//! Terrain profiling and hexagonal elevation aggregation.
//!
//! The crate models 1-degree-square elevation tiles read from `.hgt`
//! rasters, a tile store that substitutes zero-elevation tombstones for
//! missing ocean tiles, elevation summaries with pluggable compaction
//! strategies, a 7-ary hierarchical cell trie keyed by H3-style cell
//! indices, and the binary formats used to exchange tessellations and
//! serialized tries between the offline pipeline stages.

pub mod cell;
pub mod combine;
pub mod coords;
pub mod disktree;
pub mod elevation;
pub mod errors;
pub mod hextree;
pub mod itm;
pub mod store;
pub mod tile;
