//! Decision logic of the tile store.
//!
//! The store caches one tile per integral southwest corner. The I/O
//! itself (directory scans, file reads, mappings) happens at the
//! program's edge; this module fixes what the store decides: which
//! file name belongs to a corner, when a directory counts as holding
//! height files, and how a file-system outcome turns into a tile. A
//! missing file is not an error: it yields a tombstone tile that reads
//! zero everywhere.

use vstd::prelude::*;
use vstd::string::StrSliceExecFns;
use crate::coords::{SwCoord, spec_file_name, file_name};
use crate::errors::{NasademError, TerrainError};
use crate::tile::Tile;

verus! {

/// What the file system reported for a tile's path.
pub enum FileOutcome {
    /// The file was read whole.
    Bytes(Vec<u8>),
    /// The file was memory-mapped.
    Mapped(memmap2::Mmap),
    /// No file exists under the tile's name.
    NotFound,
    /// Some other I/O failure, described by the caller.
    IoError(String),
}

/// Whether a file extension spells `hgt`, ignoring case.
pub open spec fn spec_is_hgt_ext(s: Seq<char>) -> bool {
    &&& s.len() == 3
    &&& (s[0] == 'h' || s[0] == 'H')
    &&& (s[1] == 'g' || s[1] == 'G')
    &&& (s[2] == 't' || s[2] == 'T')
}

/// Whether a file extension names a height file: `hgt` in any case
/// mix.
pub fn is_hgt_extension(ext: &str) -> (r: bool)
    ensures
        r == spec_is_hgt_ext(ext@),
{
    if ext.unicode_len() != 3 {
        return false;
    }
    let c0 = ext.get_char(0);
    let c1 = ext.get_char(1);
    let c2 = ext.get_char(2);
    (c0 == 'h' || c0 == 'H') && (c1 == 'g' || c1 == 'G') && (c2 == 't' || c2 == 'T')
}

/// The tile the store installs for corner `sw` after the file system
/// answered `outcome` for the tile's file name: a parsed tile for
/// bytes or a mapping, a tombstone when no file exists, and an error
/// otherwise.
pub fn tile_from_outcome(sw: SwCoord, stem: &str, outcome: FileOutcome) -> (r: Result<
    Tile,
    TerrainError,
>)
    requires
        -90 <= sw.y <= 90,
        -180 <= sw.x <= 180,
        stem@ == spec_file_name(sw).take(7),
    ensures
        match outcome {
            FileOutcome::NotFound => match r {
                Ok(t) => {
                    &&& t.wf()
                    &&& t.is_tombstone()
                    &&& t.spec_sw_corner() == sw
                    &&& t.spec_resolution() == 3
                    &&& t.spec_cols() == 1201 && t.spec_rows() == 1201
                    &&& forall|i: int| t.spec_sample(i) == 0
                },
                Err(_) => false,
            },
            FileOutcome::Bytes(b) => match r {
                Ok(t) => {
                    &&& t.wf()
                    &&& !t.is_tombstone()
                    &&& t.spec_sw_corner() == sw
                    &&& b@.len() == 2 * t.spec_len()
                    &&& forall|i: int|
                        0 <= i < t.spec_len() ==> t.spec_sample(i) == crate::tile::spec_i16_be(
                            b@[2 * i],
                            b@[2 * i + 1],
                        )
                },
                Err(e) => e is Nasadem && b@.len() != crate::coords::RES_1_ARCSECOND_FILE_LEN
                    && b@.len() != crate::coords::RES_3_ARCSECOND_FILE_LEN,
            },
            FileOutcome::Mapped(m) => match r {
                Ok(t) => {
                    &&& t.wf()
                    &&& !t.is_tombstone()
                    &&& t.spec_sw_corner() == sw
                    &&& crate::tile::mmap_bytes(m).len() == 2 * t.spec_len()
                    &&& forall|i: int|
                        0 <= i < t.spec_len() ==> t.spec_sample(i) == crate::tile::spec_i16_be(
                            crate::tile::mmap_bytes(m)[2 * i],
                            crate::tile::mmap_bytes(m)[2 * i + 1],
                        )
                },
                Err(e) => e is Nasadem && crate::tile::mmap_bytes(m).len()
                    != crate::coords::RES_1_ARCSECOND_FILE_LEN && crate::tile::mmap_bytes(m).len()
                    != crate::coords::RES_3_ARCSECOND_FILE_LEN,
            },
            FileOutcome::IoError(_) => r matches Err(e) && e is Io,
        },
{
    proof {
        crate::coords::lemma_file_name_round_trip(sw);
    }
    match outcome {
        FileOutcome::NotFound => Ok(Tile::tombstone(sw)),
        FileOutcome::Bytes(b) => match Tile::parse(stem, b.as_slice()) {
            Ok(t) => Ok(t),
            Err(e) => Err(TerrainError::Nasadem(e)),
        },
        FileOutcome::Mapped(m) => match Tile::from_mmap(stem, m) {
            Ok(t) => Ok(t),
            Err(e) => Err(TerrainError::Nasadem(e)),
        },
        FileOutcome::IoError(msg) => Err(TerrainError::Io(msg)),
    }
}

/// How tiles are materialized from disk.
#[derive(Debug, Clone, Copy, PartialEq, Eq, Structural)]
pub enum TileMode {
    /// Parse the file and keep the samples in memory.
    InMem,
    /// Memory-map the file's contents.
    MemMap,
}

/// The file name the store looks up for a corner; uppercase form.
/// The store falls back to the lowercase form of the same name when
/// the uppercase path does not exist.
pub fn store_file_name(sw: SwCoord) -> (r: String)
    requires
        -90 <= sw.y <= 90,
        -180 <= sw.x <= 180,
    ensures
        r@ =~= spec_file_name(sw),
{
    file_name(sw)
}

} // verus!
