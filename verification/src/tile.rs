//! One 1-degree-square elevation tile.
//!
//! A tile presents a `cols x rows` grid of signed 16-bit elevation
//! samples with `(0, 0)` at the southwest corner, while the raster file
//! stores rows north-to-south. Samples may live in memory, in a
//! memory-mapped file of big-endian pairs, or nowhere at all: a
//! tombstone tile stands in for a missing file and reads zero
//! everywhere.

use vstd::prelude::*;
use crate::coords::{SwCoord, parse_sw_corner, extract_resolution};
use crate::errors::NasademError;

verus! {

/// The bytes a memory mapping presents; the contents of a
/// [`memmap2::Mmap`] value.
pub uninterp spec fn mmap_bytes(m: memmap2::Mmap) -> Seq<u8>;

#[verifier::external_type_specification]
#[verifier::external_body]
pub struct ExMmap(memmap2::Mmap);

/// Relies on `memmap2::Mmap::len`: the byte length of the mapping.
#[verifier::external_body]
fn mmap_len(m: &memmap2::Mmap) -> (r: usize)
    ensures
        r == mmap_bytes(*m).len(),
{
    m.len()
}

/// Relies on `memmap2::Mmap`'s deref to `[u8]`: the mapping presents
/// the mapped file's bytes.
#[verifier::external_body]
fn mmap_byte(m: &memmap2::Mmap, i: usize) -> (r: u8)
    requires
        i < mmap_bytes(*m).len(),
    ensures
        r == mmap_bytes(*m)[i as int],
{
    m[i]
}

/// The signed 16-bit value stored big-endian as the byte pair
/// `(hi, lo)`.
pub open spec fn spec_i16_be(hi: u8, lo: u8) -> i16 {
    ((hi as u16) * 256 + (lo as u16)) as i16
}

/// Combines a big-endian byte pair into its signed 16-bit value.
pub fn i16_from_be_pair(hi: u8, lo: u8) -> (r: i16)
    ensures
        r == spec_i16_be(hi, lo),
{
    #[verifier::truncate]
    (((hi as u16) * 256 + (lo as u16)) as i16)
}

/// Backing storage for a tile's samples.
pub enum SampleStore {
    /// No storage: every sample reads zero.
    Tombstone,
    /// Samples decoded into memory, in file order.
    InMem(Vec<i16>),
    /// The raw file mapped into memory, big-endian sample pairs.
    MemMap(memmap2::Mmap),
}

/// One 1-degree-square tile of elevation samples.
pub struct Tile {
    /// Southwest corner of the tile: the center of its southwest-most
    /// sample.
    sw_corner: SwCoord,
    /// Arcseconds per sample, 1 or 3.
    resolution: u8,
    /// `(columns, rows)` of the sample grid.
    dimensions: (usize, usize),
    /// The samples, in file order: row-major, north to south.
    samples: SampleStore,
}

impl Tile {
    /// The tile's southwest corner.
    pub closed spec fn spec_sw_corner(self) -> SwCoord {
        self.sw_corner
    }

    /// Arcseconds per sample.
    pub closed spec fn spec_resolution(self) -> u8 {
        self.resolution
    }

    /// `(columns, rows)` of the sample grid.
    pub closed spec fn spec_dimensions(self) -> (usize, usize) {
        self.dimensions
    }

    /// Grid columns.
    pub closed spec fn spec_cols(self) -> int {
        self.dimensions.0 as int
    }

    /// Grid rows.
    pub closed spec fn spec_rows(self) -> int {
        self.dimensions.1 as int
    }

    /// Number of samples in the grid.
    pub closed spec fn spec_len(self) -> int {
        self.spec_cols() * self.spec_rows()
    }

    /// A consistent tile: known resolution, matching dimensions, and
    /// a backing store of exactly the grid's size.
    pub closed spec fn wf(self) -> bool {
        &&& ((self.resolution == 1 && self.dimensions.0 == 3601 && self.dimensions.1 == 3601) || (
        self.resolution == 3 && self.dimensions.0 == 1201 && self.dimensions.1 == 1201))
        &&& match self.samples {
            SampleStore::Tombstone => self.resolution == 3,
            SampleStore::InMem(v) => v@.len() == self.spec_len(),
            SampleStore::MemMap(m) => mmap_bytes(m).len() == 2 * self.spec_len(),
        }
    }

    /// The sample at linear index `idx` in file order.
    pub closed spec fn spec_sample(self, idx: int) -> i16 {
        match self.samples {
            SampleStore::Tombstone => 0i16,
            SampleStore::InMem(v) => v@[idx],
            SampleStore::MemMap(m) => spec_i16_be(
                mmap_bytes(m)[2 * idx],
                mmap_bytes(m)[2 * idx + 1],
            ),
        }
    }

    /// Whether every sample of the tile reads zero regardless of
    /// index: the mark of a tombstone.
    pub closed spec fn is_tombstone(self) -> bool {
        self.samples is Tombstone
    }

    /// Linear file-order index of grid position `(x, y)`, with row 0
    /// the southernmost: the file stores rows north to south.
    pub closed spec fn spec_xy_to_linear(self, x: int, y: int) -> int {
        self.spec_cols() * (self.spec_rows() - 1 - y) + x
    }

    /// Returns a tile decoded into memory from a file's stem and raw
    /// bytes. The stem must match `[NS]dd[EW]ddd` and the byte count
    /// must be exactly that of a 1-arcsecond or 3-arcsecond grid of
    /// big-endian sample pairs.
    pub fn parse(stem: &str, bytes: &[u8]) -> (r: Result<Tile, NasademError>)
        ensures
            match r {
                Ok(t) => {
                    &&& t.wf()
                    &&& !t.is_tombstone()
                    &&& crate::coords::name_matches(stem@)
                    &&& t.spec_sw_corner().x == crate::coords::name_lon(stem@)
                    &&& t.spec_sw_corner().y == crate::coords::name_lat(stem@)
                    &&& bytes@.len() == 2 * t.spec_len()
                    &&& ((t.spec_resolution() == 1 && t.spec_cols() == 3601 && t.spec_rows()
                        == 3601 && bytes@.len() == crate::coords::RES_1_ARCSECOND_FILE_LEN) || (
                    t.spec_resolution() == 3 && t.spec_cols() == 1201 && t.spec_rows() == 1201
                        && bytes@.len() == crate::coords::RES_3_ARCSECOND_FILE_LEN))
                    &&& forall|i: int|
                        0 <= i < t.spec_len() ==> t.spec_sample(i) == spec_i16_be(
                            bytes@[2 * i],
                            bytes@[2 * i + 1],
                        )
                },
                Err(e) => {
                    &&& (e is HgtName <==> !crate::coords::name_matches(stem@))
                    &&& (e is HgtLen ==> bytes@.len() != crate::coords::RES_1_ARCSECOND_FILE_LEN
                        && bytes@.len() != crate::coords::RES_3_ARCSECOND_FILE_LEN)
                    &&& (e is HgtName || e is HgtLen)
                },
            },
    {
        let sw_corner = match parse_sw_corner(stem) {
            Ok(sw) => sw,
            Err(e) => {
                return Err(e);
            },
        };
        let (resolution, dimensions) = match extract_resolution(bytes.len() as u64) {
            Ok(p) => p,
            Err(e) => {
                return Err(e);
            },
        };
        let total: usize = dimensions.0 * dimensions.1;
        let mut samples: Vec<i16> = Vec::new();
        let mut i: usize = 0;
        while i < total
            invariant
                total <= 12967201,
                bytes@.len() == 2 * total,
                0 <= i <= total,
                samples@.len() == i,
                forall|k: int|
                    0 <= k < i ==> samples@[k] == spec_i16_be(bytes@[2 * k], bytes@[2 * k + 1]),
            decreases total - i,
        {
            let hi = bytes[2 * i];
            let lo = bytes[2 * i + 1];
            samples.push(i16_from_be_pair(hi, lo));
            i = i + 1;
        }
        Ok(Tile { sw_corner, resolution, dimensions, samples: SampleStore::InMem(samples) })
    }

    /// Returns a tile backed by a memory mapping of the raw file.
    /// The mapping's byte length must be exactly that of a
    /// 1-arcsecond or 3-arcsecond grid.
    pub fn from_mmap(stem: &str, mmap: memmap2::Mmap) -> (r: Result<Tile, NasademError>)
        ensures
            match r {
                Ok(t) => {
                    &&& t.wf()
                    &&& !t.is_tombstone()
                    &&& crate::coords::name_matches(stem@)
                    &&& t.spec_sw_corner().x == crate::coords::name_lon(stem@)
                    &&& t.spec_sw_corner().y == crate::coords::name_lat(stem@)
                    &&& mmap_bytes(mmap).len() == 2 * t.spec_len()
                    &&& ((t.spec_resolution() == 1 && t.spec_cols() == 3601 && t.spec_rows()
                        == 3601 && mmap_bytes(mmap).len()
                        == crate::coords::RES_1_ARCSECOND_FILE_LEN) || (t.spec_resolution() == 3
                        && t.spec_cols() == 1201 && t.spec_rows() == 1201 && mmap_bytes(mmap).len()
                        == crate::coords::RES_3_ARCSECOND_FILE_LEN))
                    &&& forall|i: int|
                        0 <= i < t.spec_len() ==> t.spec_sample(i) == spec_i16_be(
                            mmap_bytes(mmap)[2 * i],
                            mmap_bytes(mmap)[2 * i + 1],
                        )
                },
                Err(e) => {
                    &&& (e is HgtName <==> !crate::coords::name_matches(stem@))
                    &&& (e is HgtLen ==> mmap_bytes(mmap).len()
                        != crate::coords::RES_1_ARCSECOND_FILE_LEN && mmap_bytes(mmap).len()
                        != crate::coords::RES_3_ARCSECOND_FILE_LEN)
                    &&& (e is HgtName || e is HgtLen)
                },
            },
    {
        let sw_corner = match parse_sw_corner(stem) {
            Ok(sw) => sw,
            Err(e) => {
                return Err(e);
            },
        };
        let len = mmap_len(&mmap);
        let (resolution, dimensions) = match extract_resolution(len as u64) {
            Ok(p) => p,
            Err(e) => {
                return Err(e);
            },
        };
        Ok(Tile { sw_corner, resolution, dimensions, samples: SampleStore::MemMap(mmap) })
    }

    /// Returns a tombstone tile for a missing file: 3-arcsecond
    /// dimensions, zero elevation everywhere.
    pub fn tombstone(sw_corner: SwCoord) -> (r: Tile)
        ensures
            r.wf(),
            r.is_tombstone(),
            r.spec_sw_corner() == sw_corner,
            r.spec_resolution() == 3,
            r.spec_cols() == 1201 && r.spec_rows() == 1201,
            forall|i: int| r.spec_sample(i) == 0,
    {
        Tile {
            sw_corner,
            resolution: 3,
            dimensions: (1201, 1201),
            samples: SampleStore::Tombstone,
        }
    }

    /// The tile's southwest corner.
    pub fn sw_corner(&self) -> (r: SwCoord)
        ensures
            r == self.spec_sw_corner(),
    {
        self.sw_corner
    }

    /// Arcseconds per sample.
    pub fn resolution(&self) -> (r: u8)
        ensures
            r == self.spec_resolution(),
    {
        self.resolution
    }

    /// `(columns, rows)` of the sample grid.
    pub fn dimensions(&self) -> (r: (usize, usize))
        ensures
            r == self.spec_dimensions(),
            r.0 == self.spec_cols() && r.1 == self.spec_rows(),
    {
        self.dimensions
    }

    /// Number of samples in the tile.
    pub fn len(&self) -> (r: usize)
        requires
            self.wf(),
        ensures
            r == self.spec_len(),
    {
        self.dimensions.0 * self.dimensions.1
    }

    /// The sample at linear index `idx` in file order.
    pub fn get_linear(&self, idx: usize) -> (r: i16)
        requires
            self.wf(),
            idx < self.spec_len(),
        ensures
            r == self.spec_sample(idx as int),
    {
        proof {
            assert(self.spec_len() == 3601 * 3601 || self.spec_len() == 1201 * 1201);
        }
        match &self.samples {
            SampleStore::Tombstone => 0,
            SampleStore::InMem(v) => v[idx],
            SampleStore::MemMap(m) => {
                let hi = mmap_byte(m, 2 * idx);
                let lo = mmap_byte(m, 2 * idx + 1);
                i16_from_be_pair(hi, lo)
            },
        }
    }

    /// The sample at grid position `(x, y)`, with `(0, 0)` the
    /// southwest corner.
    pub fn get_xy(&self, x: usize, y: usize) -> (r: i16)
        requires
            self.wf(),
            x < self.spec_cols(),
            y < self.spec_rows(),
        ensures
            r == self.spec_sample(self.spec_xy_to_linear(x as int, y as int)),
    {
        let idx = self.xy_to_linear_index(x, y);
        self.get_linear(idx)
    }

    /// The sample at signed grid position `(x, y)`, or `None` when
    /// the position lies outside the grid.
    pub fn get_xy_checked(&self, x: i64, y: i64) -> (r: Option<i16>)
        requires
            self.wf(),
        ensures
            match r {
                Some(e) => 0 <= x < self.spec_cols() && 0 <= y < self.spec_rows() && e
                    == self.spec_sample(self.spec_xy_to_linear(x as int, y as int)),
                None => !(0 <= x < self.spec_cols() && 0 <= y < self.spec_rows()),
            },
    {
        if 0 <= x && x < self.dimensions.0 as i64 && 0 <= y && y < self.dimensions.1 as i64 {
            Some(self.get_xy(x as usize, y as usize))
        } else {
            None
        }
    }

    /// Linear file-order index of grid position `(x, y)`.
    pub fn xy_to_linear_index(&self, x: usize, y: usize) -> (r: usize)
        requires
            self.wf(),
            x < self.spec_cols(),
            y < self.spec_rows(),
        ensures
            r == self.spec_xy_to_linear(x as int, y as int),
            r < self.spec_len(),
    {
        proof {
            lemma_xy_linear_bound(self.spec_cols(), self.spec_rows(), x as int, y as int);
        }
        self.dimensions.0 * (self.dimensions.1 - 1 - y) + x
    }

    /// Grid position of linear file-order index `idx`; inverse of
    /// [`Tile::xy_to_linear_index`].
    pub fn linear_index_to_xy(&self, idx: usize) -> (r: (usize, usize))
        requires
            self.wf(),
            idx < self.spec_len(),
        ensures
            r.0 < self.spec_cols(),
            r.1 < self.spec_rows(),
            self.spec_xy_to_linear(r.0 as int, r.1 as int) == idx,
    {
        let y_file = idx / self.dimensions.0;
        let x = idx % self.dimensions.0;
        proof {
            lemma_linear_xy_inverse(self.spec_cols(), self.spec_rows(), idx as int);
        }
        (x, self.dimensions.1 - 1 - y_file)
    }

    /// Least sample value in the tile.
    pub fn min_elevation(&self) -> (r: i16)
        requires
            self.wf(),
        ensures
            r == self.spec_min_upto(self.spec_len()),
    {
        let total = self.len();
        let mut min: i16 = i16::MAX;
        let mut i: usize = 0;
        while i < total
            invariant
                self.wf(),
                total == self.spec_len(),
                0 <= i <= total,
                min == self.spec_min_upto(i as int),
            decreases total - i,
        {
            let s = self.get_linear(i);
            if s < min {
                min = s;
            }
            i = i + 1;
        }
        min
    }

    /// Greatest sample value in the tile.
    pub fn max_elevation(&self) -> (r: i16)
        requires
            self.wf(),
        ensures
            r == self.spec_max_upto(self.spec_len()),
    {
        let total = self.len();
        let mut max: i16 = i16::MIN;
        let mut i: usize = 0;
        while i < total
            invariant
                self.wf(),
                total == self.spec_len(),
                0 <= i <= total,
                max == self.spec_max_upto(i as int),
            decreases total - i,
        {
            let s = self.get_linear(i);
            if s > max {
                max = s;
            }
            i = i + 1;
        }
        max
    }

    /// Least sample value among the first `k` samples, starting from
    /// `i16::MAX`.
    pub closed spec fn spec_min_upto(self, k: int) -> i16
        decreases k,
    {
        if k <= 0 {
            i16::MAX
        } else {
            let rest = self.spec_min_upto(k - 1);
            if self.spec_sample(k - 1) < rest {
                self.spec_sample(k - 1)
            } else {
                rest
            }
        }
    }

    /// Greatest sample value among the first `k` samples, starting
    /// from `i16::MIN`.
    pub closed spec fn spec_max_upto(self, k: int) -> i16
        decreases k,
    {
        if k <= 0 {
            i16::MIN
        } else {
            let rest = self.spec_max_upto(k - 1);
            if self.spec_sample(k - 1) > rest {
                self.spec_sample(k - 1)
            } else {
                rest
            }
        }
    }
}


/// The least and greatest sample values among the first `k` samples
/// are themselves samples.
pub proof fn lemma_extremes_attained(t: Tile, k: int)
    requires
        1 <= k,
    ensures
        exists|i: int| 0 <= i < k && t.spec_sample(i) == t.spec_min_upto(k),
        exists|i: int| 0 <= i < k && t.spec_sample(i) == t.spec_max_upto(k),
    decreases k,
{
    if k == 1 {
        assert(t.spec_min_upto(0) == i16::MAX);
        assert(t.spec_max_upto(0) == i16::MIN);
        assert(t.spec_sample(0) == t.spec_min_upto(1));
        assert(t.spec_sample(0) == t.spec_max_upto(1));
    } else {
        lemma_extremes_attained(t, k - 1);
        if t.spec_sample(k - 1) < t.spec_min_upto(k - 1) {
            assert(t.spec_sample(k - 1) == t.spec_min_upto(k));
        } else {
            let i = choose|i: int| 0 <= i < k - 1 && t.spec_sample(i) == t.spec_min_upto(k - 1);
            assert(t.spec_sample(i) == t.spec_min_upto(k));
        }
        if t.spec_sample(k - 1) > t.spec_max_upto(k - 1) {
            assert(t.spec_sample(k - 1) == t.spec_max_upto(k));
        } else {
            let i = choose|i: int| 0 <= i < k - 1 && t.spec_sample(i) == t.spec_max_upto(k - 1);
            assert(t.spec_sample(i) == t.spec_max_upto(k));
        }
    }
}

/// Every sample of a tile lies between the tile's least and greatest
/// sample values.
pub proof fn lemma_sample_bounds(t: Tile, idx: int, k: int)
    requires
        0 <= idx < k,
    ensures
        t.spec_min_upto(k) <= t.spec_sample(idx) <= t.spec_max_upto(k),
    decreases k,
{
    if idx < k - 1 {
        lemma_sample_bounds(t, idx, k - 1);
    }
}

/// The linear index of an in-grid position lies within the grid.
proof fn lemma_xy_linear_bound(cols: int, rows: int, x: int, y: int)
    requires
        cols >= 1,
        rows >= 1,
        0 <= x < cols,
        0 <= y < rows,
    ensures
        0 <= cols * (rows - 1 - y) + x < cols * rows,
{
    let yf = rows - 1 - y;
    assert(0 <= yf < rows);
    assert(cols * yf >= 0) by (nonlinear_arith)
        requires
            cols >= 1,
            yf >= 0,
    ;
    assert(cols * yf + x < cols * rows) by (nonlinear_arith)
        requires
            cols >= 1,
            0 <= x < cols,
            yf < rows,
    ;
}

/// Dividing a linear index by the column count recovers the file row,
/// and the remainder the column.
proof fn lemma_linear_xy_inverse(cols: int, rows: int, idx: int)
    requires
        cols >= 1,
        rows >= 1,
        0 <= idx < cols * rows,
    ensures
        0 <= idx / cols < rows,
        0 <= idx % cols < cols,
        cols * (idx / cols) + idx % cols == idx,
{
    assert(cols * (idx / cols) + idx % cols == idx) by (nonlinear_arith)
        requires
            cols >= 1,
    ;
    assert(idx / cols < rows) by (nonlinear_arith)
        requires
            cols >= 1,
            rows >= 1,
            0 <= idx < cols * rows,
    ;
    assert(idx / cols >= 0) by (nonlinear_arith)
        requires
            cols >= 1,
            idx >= 0,
    ;
}

} // verus!
