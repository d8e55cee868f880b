//! Error types for tile parsing, the tile store, and the profile layers.

use vstd::prelude::*;

verus! {

/// Errors arising while locating or parsing a `.hgt` elevation tile.
#[derive(Debug, Clone)]
pub enum NasademError {
    /// An I/O failure, described by the caller.
    Io(String),
    /// The file stem does not match the `[NS]dd[EW]ddd` pattern.
    HgtName(String),
    /// The file length matches neither a 1-arcsecond nor a
    /// 3-arcsecond tile.
    HgtLen(u64),
}

/// Errors arising from the tile store and profile construction.
#[derive(Debug, Clone)]
pub enum TerrainError {
    /// A required builder parameter was never supplied.
    Builder(String),
    /// An I/O failure, described by the caller.
    Io(String),
    /// The tile directory holds no `.hgt` files.
    Path(String),
    /// A tile failed to load.
    Nasadem(NasademError),
}

/// Errors arising from point-to-point propagation estimates.
#[derive(Debug, Clone)]
pub enum PropahError {
    /// A required builder parameter was never supplied.
    Builder(String),
    /// The underlying terrain profile failed.
    Terrain(TerrainError),
}

/// Errors of the aggregation pipeline: tessellation streams, cell
/// indices, and serialized tries.
#[derive(Debug, Clone)]
pub enum HexitError {
    /// An I/O failure, described by the caller.
    Io(String),
    /// A 64-bit index does not name a valid cell.
    InvalidCell(u64),
    /// A record stream ended before the promised record count.
    Truncated,
    /// A record stream holds bytes past the promised record count.
    TrailingBytes,
    /// A value's byte length does not match its fixed wire form.
    ValueLen(u64),
    /// A serialized trie is malformed at the given byte offset.
    BadTree(u64),
}

/// Errors of the legacy single-file tile reader.
#[derive(Debug, Clone)]
pub enum HError {
    /// An I/O failure, described by the caller.
    Io(String),
    /// The file stem does not match the `[NS]dd[EW]ddd` pattern.
    HgtName(String),
    /// The file length matches neither a 1-arcsecond nor a
    /// 3-arcsecond tile.
    HgtLen(u64),
}

} // verus!
