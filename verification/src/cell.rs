//! Hierarchical hexagonal cell indices.
//!
//! A cell is a 64-bit index in the standard H3 bit layout: a zero
//! reserved bit, mode 1, a resolution in 0..=15, one of 122 base
//! cells, and fifteen 3-bit digits, of which the first `resolution`
//! select a child at each level and the rest read 7. Only canonical
//! indices of that shape are accepted; each valid cell is then a node
//! of a 7-ary tree rooted at its base cell.

use vstd::prelude::*;
use crate::errors::HexitError;

verus! {

/// The reserved top bit of an index.
pub open spec fn spec_reserved(raw: u64) -> u64 {
    raw >> 63
}

/// The 4-bit mode field of an index; cells have mode 1.
pub open spec fn spec_mode(raw: u64) -> u64 {
    (raw >> 59) & 0xF
}

/// The 3 mode-dependent bits of an index; zero for cells.
pub open spec fn spec_mode_dep(raw: u64) -> u64 {
    (raw >> 56) & 0x7
}

/// The resolution field of an index, 0..=15.
pub open spec fn spec_res(raw: u64) -> u64 {
    (raw >> 52) & 0xF
}

/// The base-cell field of an index; valid bases lie in 0..122.
pub open spec fn spec_base(raw: u64) -> u64 {
    (raw >> 45) & 0x7F
}

/// The 3-bit digit of an index at resolution `r` in 1..=15.
pub open spec fn spec_digit(raw: u64, r: int) -> u64 {
    (raw >> (((15 - r) * 3) as u64)) & 0x7
}

/// A canonical cell index: reserved and mode-dependent bits zero,
/// mode 1, a valid base, digits below 7 through the index's
/// resolution, and digits of exactly 7 past it.
pub open spec fn spec_cell_wf(raw: u64) -> bool {
    &&& spec_reserved(raw) == 0
    &&& spec_mode(raw) == 1
    &&& spec_mode_dep(raw) == 0
    &&& spec_base(raw) < 122
    &&& forall|r: int|
        1 <= r <= 15 ==> ((r <= spec_res(raw) ==> #[trigger] spec_digit(raw, r) < 7) && (r
            > spec_res(raw) ==> spec_digit(raw, r) == 7))
}

/// A cell of the hierarchical hexagonal grid; a validated canonical
/// 64-bit index.
#[derive(Debug, Clone, Copy, PartialEq, Eq, Hash, Structural)]
pub struct Cell {
    raw: u64,
}

impl Cell {
    /// The cell's underlying 64-bit index.
    pub closed spec fn spec_raw(self) -> u64 {
        self.raw
    }

    /// The cell holding a raw 64-bit index; what [`Cell::from_raw`]
    /// returns when the index is canonical.
    pub closed spec fn spec_from_raw(raw: u64) -> Cell {
        Cell { raw }
    }

    /// The cell's parent index at resolution `pres`: the resolution
    /// field rewritten and every digit past `pres` set to 7. At the
    /// cell's own resolution this is the cell itself.
    pub closed spec fn spec_to_parent(self, pres: int) -> Cell {
        if pres == spec_res(self.raw) {
            self
        } else {
            Cell {
                raw: ((self.raw & !(0xFu64 << 52)) | ((pres as u64) << 52)) | (u64::MAX >> ((64 - (
                15 - pres) * 3) as u64)),
            }
        }
    }

    /// Validates a raw 64-bit index as a canonical cell.
    pub fn from_raw(raw: u64) -> (r: Result<Cell, HexitError>)
        ensures
            match r {
                Ok(c) => spec_cell_wf(raw) && c == Cell::spec_from_raw(raw) && c.spec_raw() == raw,
                Err(_) => !spec_cell_wf(raw),
            },
    {
        if (raw >> 63) != 0 {
            proof {
                assert(!spec_cell_wf(raw));
            }
            return Err(HexitError::InvalidCell(raw));
        }
        if ((raw >> 59) & 0xF) != 1 {
            return Err(HexitError::InvalidCell(raw));
        }
        if ((raw >> 56) & 0x7) != 0 {
            return Err(HexitError::InvalidCell(raw));
        }
        if ((raw >> 45) & 0x7F) >= 122 {
            return Err(HexitError::InvalidCell(raw));
        }
        let res: u64 = (raw >> 52) & 0xF;
        proof {
            assert((raw >> 52) & 0xF < 16) by (bit_vector);
        }
        let mut r: u64 = 1;
        while r <= 15
            invariant
                1 <= r <= 16,
                res == spec_res(raw),
                res < 16,
                forall|k: int|
                    1 <= k < r ==> (k <= res ==> #[trigger] spec_digit(raw, k) < 7) && (k > res
                        ==> spec_digit(raw, k) == 7),
            decreases 16 - r,
        {
            let d: u64 = (raw >> ((15 - r) * 3)) & 0x7;
            proof {
                assert((15 - r as int) * 3 == ((15 - r as int) * 3) as u64) by {
                    assert(1 <= r <= 15);
                }
                assert(d == spec_digit(raw, r as int));
            }
            if r <= res {
                if d >= 7 {
                    return Err(HexitError::InvalidCell(raw));
                }
            } else {
                if d != 7 {
                    return Err(HexitError::InvalidCell(raw));
                }
            }
            r = r + 1;
        }
        Ok(Cell { raw })
    }

    /// The raw 64-bit index of the cell.
    pub fn into_raw(&self) -> (r: u64)
        ensures
            r == self.spec_raw(),
    {
        self.raw
    }

    /// The cell's resolution.
    pub fn res(&self) -> (r: u8)
        ensures
            r == spec_res(self.spec_raw()),
            r <= 15,
    {
        proof {
            let raw = self.raw;
            assert((raw >> 52) & 0xF < 16) by (bit_vector);
        }
        ((self.raw >> 52) & 0xF) as u8
    }

    /// The cell's base cell, in 0..122 for a canonical cell.
    pub fn base(&self) -> (r: u8)
        ensures
            r == spec_base(self.spec_raw()),
            r < 128,
    {
        proof {
            let raw = self.raw;
            assert((raw >> 45) & 0x7F < 128) by (bit_vector);
        }
        ((self.raw >> 45) & 0x7F) as u8
    }

    /// The cell's digit at resolution `r` in 1..=15.
    pub fn digit(&self, r: u8) -> (d: u8)
        requires
            1 <= r <= 15,
        ensures
            d == spec_digit(self.spec_raw(), r as int),
            d < 8,
    {
        let sh: u64 = (15 - r as u64) * 3;
        let d: u64 = (self.raw >> sh) & 0x7;
        proof {
            let raw = self.raw;
            assert((raw >> sh) & 0x7 < 8) by (bit_vector);
        }
        d as u8
    }

    /// The cell's parent at resolution `pres`, which must not exceed
    /// the cell's own resolution. The parent is canonical, keeps the
    /// base and the first `pres` digits, and reads 7 in the rest.
    pub fn to_parent(&self, pres: u8) -> (r: Cell)
        requires
            spec_cell_wf(self.spec_raw()),
            pres <= spec_res(self.spec_raw()),
        ensures
            r == self.spec_to_parent(pres as int),
            spec_cell_wf(r.spec_raw()),
            spec_res(r.spec_raw()) == pres,
            spec_base(r.spec_raw()) == spec_base(self.spec_raw()),
            forall|k: int|
                1 <= k <= pres ==> #[trigger] spec_digit(r.spec_raw(), k) == spec_digit(
                    self.spec_raw(),
                    k,
                ),
    {
        proof {
            lemma_to_parent_props(*self, pres as int);
        }
        let res = self.res();
        if pres == res {
            *self
        } else {
            let p = pres as u64;
            let sh: u64 = 64 - (15 - p) * 3;
            let nraw: u64 = ((self.raw & !(0xFu64 << 52)) | (p << 52)) | (u64::MAX >> sh);
            Cell { raw: nraw }
        }
    }
}

/// Properties of the parent construction: it is canonical, sits at
/// the requested resolution, and keeps the base and leading digits.
pub proof fn lemma_to_parent_props(c: Cell, pres: int)
    requires
        spec_cell_wf(c.spec_raw()),
        0 <= pres <= spec_res(c.spec_raw()),
    ensures
        spec_cell_wf(c.spec_to_parent(pres).spec_raw()),
        spec_res(c.spec_to_parent(pres).spec_raw()) == pres,
        spec_base(c.spec_to_parent(pres).spec_raw()) == spec_base(c.spec_raw()),
        forall|k: int|
            1 <= k <= pres ==> #[trigger] spec_digit(c.spec_to_parent(pres).spec_raw(), k)
                == spec_digit(c.spec_raw(), k),
{
    let raw = c.spec_raw();
    let res = spec_res(raw);
    assert((raw >> 52) & 0xF < 16) by (bit_vector);
    if pres == res {
        assert(c.spec_to_parent(pres) == c);
    } else {
        let p = pres as u64;
        let nraw = ((raw & !(0xFu64 << 52)) | (p << 52)) | (u64::MAX >> ((64 - (15 - pres) * 3)
            as u64));
        assert(c.spec_to_parent(pres).spec_raw() == nraw);
        assert(p < 15);
        assert(((64 - (15 - pres) * 3) as u64) == 64 - (15 - p) * 3);
        lemma_parent_bits(raw, p);
        assert forall|k: int| 1 <= k <= p implies #[trigger] spec_digit(nraw, k) == spec_digit(
            raw,
            k,
        ) by {
            let kk = k as u64;
            assert(1 <= kk <= p);
            assert((((15 - k) * 3) as u64) == (15 - kk) * 3);
            lemma_parent_digit_low(raw, p, kk);
        }
        assert forall|k: int| 1 <= k <= 15 && k > p implies #[trigger] spec_digit(nraw, k)
            == 7u64 by {
            let kk = k as u64;
            assert(p < kk <= 15);
            assert((((15 - k) * 3) as u64) == (15 - kk) * 3);
            lemma_parent_digit_high(raw, p, kk);
        }
        assert(spec_cell_wf(nraw));
    }
}

/// Field bits of the parent index: reserved, mode, mode-dependent and
/// base bits are kept, and the resolution field reads `p`.
proof fn lemma_parent_bits(raw: u64, p: u64)
    requires
        p < 15,
    ensures
        (((raw & !(0xFu64 << 52)) | (p << 52)) | (u64::MAX >> ((64 - (15 - p) * 3) as u64))) >> 63 == raw
            >> 63,
        ((((raw & !(0xFu64 << 52)) | (p << 52)) | (u64::MAX >> ((64 - (15 - p) * 3) as u64))) >> 59) & 0xF
            == (raw >> 59) & 0xF,
        ((((raw & !(0xFu64 << 52)) | (p << 52)) | (u64::MAX >> ((64 - (15 - p) * 3) as u64))) >> 56) & 0x7
            == (raw >> 56) & 0x7,
        ((((raw & !(0xFu64 << 52)) | (p << 52)) | (u64::MAX >> ((64 - (15 - p) * 3) as u64))) >> 52) & 0xF
            == p,
        ((((raw & !(0xFu64 << 52)) | (p << 52)) | (u64::MAX >> ((64 - (15 - p) * 3) as u64))) >> 45) & 0x7F
            == (raw >> 45) & 0x7F,
{
    assert((((raw & !(0xFu64 << 52)) | (p << 52)) | (u64::MAX >> ((64 - (15 - p) * 3) as u64))) >> 63 == raw
        >> 63) by (bit_vector)
        requires
            p < 15,
    ;
    assert(((((raw & !(0xFu64 << 52)) | (p << 52)) | (u64::MAX >> ((64 - (15 - p) * 3) as u64))) >> 59) & 0xF
        == (raw >> 59) & 0xF) by (bit_vector)
        requires
            p < 15,
    ;
    assert(((((raw & !(0xFu64 << 52)) | (p << 52)) | (u64::MAX >> ((64 - (15 - p) * 3) as u64))) >> 56) & 0x7
        == (raw >> 56) & 0x7) by (bit_vector)
        requires
            p < 15,
    ;
    assert(((((raw & !(0xFu64 << 52)) | (p << 52)) | (u64::MAX >> ((64 - (15 - p) * 3) as u64))) >> 52) & 0xF
        == p) by (bit_vector)
        requires
            p < 15,
    ;
    assert(((((raw & !(0xFu64 << 52)) | (p << 52)) | (u64::MAX >> ((64 - (15 - p) * 3) as u64))) >> 45) & 0x7F
        == (raw >> 45) & 0x7F) by (bit_vector)
        requires
            p < 15,
    ;
}

/// Digits at or below the parent's resolution are kept.
proof fn lemma_parent_digit_low(raw: u64, p: u64, k: u64)
    requires
        p < 15,
        1 <= k <= p,
    ensures
        ((((raw & !(0xFu64 << 52)) | (p << 52)) | (u64::MAX >> ((64 - (15 - p) * 3) as u64))) >> (((15 - k)
            * 3) as u64)) & 0x7 == (raw >> (((15 - k) * 3) as u64)) & 0x7,
{
    assert(((((raw & !(0xFu64 << 52)) | (p << 52)) | (u64::MAX >> ((64 - (15 - p) * 3) as u64))) >> (((15 - k)
        * 3) as u64)) & 0x7 == (raw >> (((15 - k) * 3) as u64)) & 0x7) by (bit_vector)
        requires
            p < 15,
            1 <= k <= p,
    ;
}

/// Digits past the parent's resolution read 7.
proof fn lemma_parent_digit_high(raw: u64, p: u64, k: u64)
    requires
        p < 15,
        p < k <= 15,
    ensures
        ((((raw & !(0xFu64 << 52)) | (p << 52)) | (u64::MAX >> ((64 - (15 - p) * 3) as u64))) >> (((15 - k)
            * 3) as u64)) & 0x7 == 7u64,
{
    assert(((((raw & !(0xFu64 << 52)) | (p << 52)) | (u64::MAX >> ((64 - (15 - p) * 3) as u64))) >> (((15 - k)
        * 3) as u64)) & 0x7 == 7u64) by (bit_vector)
        requires
            p < 15,
            p < k <= 15,
    ;
}

} // verus!
