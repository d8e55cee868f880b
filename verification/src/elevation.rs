//! Elevation summaries for the aggregation pipeline.
//!
//! An [`Elevation`] carries the minimum, maximum, sum and count of a
//! group of raw elevation samples, and groups combine by taking the
//! least minimum, greatest maximum, and the componentwise sums. A
//! summary reduces to a [`ReducedElevation`] of `(min, avg, max)` once
//! aggregation is complete.

use vstd::prelude::*;
use vstd::bytes::{
    spec_u16_to_le_bytes, spec_u16_from_le_bytes, spec_u32_to_le_bytes, spec_u32_from_le_bytes,
    u16_to_le_bytes, u16_from_le_bytes, u32_to_le_bytes, u32_from_le_bytes,
    lemma_auto_spec_u16_to_from_le_bytes, lemma_auto_spec_u32_to_from_le_bytes,
};
use vstd::slice::slice_subrange;
use vstd::pervasive::arbitrary;
use crate::errors::HexitError;
use crate::hextree::Compactor;

verus! {

/// Summary of a group of raw elevation samples.
#[derive(Debug, Clone, Copy, PartialEq, Eq, Structural)]
pub struct Elevation {
    pub min: i16,
    pub max: i16,
    pub sum: i32,
    pub n: i32,
}

/// Reduction of a summary: minimum, truncated average, maximum.
#[derive(Debug, Clone, Copy, PartialEq, Eq, Structural)]
pub struct ReducedElevation {
    pub min: i16,
    pub avg: i16,
    pub max: i16,
}

/// Least minimum over a group of summaries, starting from `i16::MAX`.
pub open spec fn min_of(s: Seq<Elevation>) -> int
    decreases s.len(),
{
    if s.len() == 0 {
        i16::MAX as int
    } else {
        let rest = min_of(s.drop_last());
        if s.last().min < rest {
            s.last().min as int
        } else {
            rest
        }
    }
}

/// Greatest maximum over a group of summaries, starting from
/// `i16::MIN`.
pub open spec fn max_of(s: Seq<Elevation>) -> int
    decreases s.len(),
{
    if s.len() == 0 {
        i16::MIN as int
    } else {
        let rest = max_of(s.drop_last());
        if s.last().max > rest {
            s.last().max as int
        } else {
            rest
        }
    }
}

/// Sum of the `sum` fields of a group of summaries.
pub open spec fn sum_of(s: Seq<Elevation>) -> int
    decreases s.len(),
{
    if s.len() == 0 {
        0
    } else {
        sum_of(s.drop_last()) + s.last().sum
    }
}

/// Sum of the absolute values of the `sum` fields; every partial sum
/// of the `sum` fields is bounded by it.
pub open spec fn abs_sum_of(s: Seq<Elevation>) -> int
    decreases s.len(),
{
    if s.len() == 0 {
        0
    } else {
        abs_sum_of(s.drop_last()) + crate::coords::abs_int(s.last().sum as int)
    }
}

/// Sum of the `n` fields of a group of summaries.
pub open spec fn n_of(s: Seq<Elevation>) -> int
    decreases s.len(),
{
    if s.len() == 0 {
        0
    } else {
        n_of(s.drop_last()) + s.last().n
    }
}

/// A well-formed summary: a positive count, ordered extremes, and a
/// sum that lies between `n * min` and `n * max`.
pub open spec fn elevation_wf(e: Elevation) -> bool {
    &&& e.n >= 1
    &&& e.min <= e.max
    &&& e.n * (e.min as int) <= e.sum as int <= e.n * (e.max as int)
}

/// The summary of a single raw sample; what [`Elevation::new`]
/// returns.
pub open spec fn spec_single_sample(raw: i16) -> Elevation {
    Elevation { min: raw, max: raw, sum: raw as i32, n: 1 }
}

impl Elevation {
    /// Summary of a single raw sample.
    pub fn new(raw: i16) -> (r: Elevation)
        ensures
            r == spec_single_sample(raw),
            r.min == raw && r.max == raw && r.sum == raw as i32 && r.n == 1,
            elevation_wf(r),
    {
        Elevation { min: raw, max: raw, sum: raw as i32, n: 1 }
    }

    /// Combines a group of summaries into one: least minimum,
    /// greatest maximum, componentwise sums. The sums must fit in
    /// `i32`, which the bounds on the absolute sums guarantee.
    pub fn concat(items: &Vec<Elevation>) -> (r: Elevation)
        requires
            abs_sum_of(items@) <= i32::MAX,
            n_of(items@) <= i32::MAX,
            forall|i: int| 0 <= i < items@.len() ==> (#[trigger] items@[i]).n >= 0,
        ensures
            r.min == min_of(items@),
            r.max == max_of(items@),
            r.sum == sum_of(items@),
            r.n == n_of(items@),
    {
        let mut min: i16 = i16::MAX;
        let mut max: i16 = i16::MIN;
        let mut sum: i32 = 0;
        let mut n: i32 = 0;
        let mut i: usize = 0;
        while i < items.len()
            invariant
                0 <= i <= items@.len(),
                abs_sum_of(items@) <= i32::MAX,
                n_of(items@) <= i32::MAX,
                forall|k: int| 0 <= k < items@.len() ==> (#[trigger] items@[k]).n >= 0,
                min == min_of(items@.take(i as int)),
                max == max_of(items@.take(i as int)),
                sum == sum_of(items@.take(i as int)),
                n == n_of(items@.take(i as int)),
            decreases items@.len() - i,
        {
            proof {
                let s = items@;
                let j = i as int + 1;
                assert(s.take(j).drop_last() =~= s.take(i as int));
                assert(s.take(j).last() == s[i as int]);
                lemma_fold_split(s, j);
                lemma_fold_props(s.take(j));
                lemma_fold_props(s.skip(j));
                assert(forall|k: int|
                    0 <= k < s.take(j).len() ==> (#[trigger] s.take(j)[k]).n >= 0);
                assert(forall|k: int|
                    0 <= k < s.skip(j).len() ==> (#[trigger] s.skip(j)[k]).n >= 0);
            }
            let it = items[i];
            if it.min < min {
                min = it.min;
            }
            if it.max > max {
                max = it.max;
            }
            sum = sum + it.sum;
            n = n + it.n;
            i = i + 1;
        }
        proof {
            assert(items@.take(items@.len() as int) =~= items@);
        }
        Elevation { min, max, sum, n }
    }
}

/// The prefix/suffix split of the summary folds: each additive fold
/// over a whole group equals the fold over a prefix plus the fold
/// over the remaining suffix.
pub proof fn lemma_fold_split(s: Seq<Elevation>, i: int)
    requires
        0 <= i <= s.len(),
    ensures
        sum_of(s) == sum_of(s.take(i)) + sum_of(s.skip(i)),
        abs_sum_of(s) == abs_sum_of(s.take(i)) + abs_sum_of(s.skip(i)),
        n_of(s) == n_of(s.take(i)) + n_of(s.skip(i)),
    decreases s.len() - i,
{
    if i == s.len() {
        assert(s.take(i) =~= s);
        assert(s.skip(i) =~= Seq::<Elevation>::empty());
    } else {
        lemma_fold_split(s.drop_last(), i);
        assert(s.take(i) =~= s.drop_last().take(i));
        assert(s.skip(i).drop_last() =~= s.drop_last().skip(i));
        assert(s.skip(i).last() == s.last());
        assert(s.skip(i).len() > 0);
    }
}

/// Bounds of the summary folds: the fold of absolute sums is
/// nonnegative and bounds each whole-group sum, and the count fold of
/// a group of nonnegative counts is nonnegative.
pub proof fn lemma_fold_props(s: Seq<Elevation>)
    ensures
        abs_sum_of(s) >= 0,
        crate::coords::abs_int(sum_of(s)) <= abs_sum_of(s),
        (forall|k: int| 0 <= k < s.len() ==> (#[trigger] s[k]).n >= 0) ==> n_of(s) >= 0,
    decreases s.len(),
{
    if s.len() > 0 {
        lemma_fold_props(s.drop_last());
        assert(forall|k: int|
            0 <= k < s.drop_last().len() ==> s.drop_last()[k] == #[trigger] s[k]);
    }
}

/// Combining is insensitive to grouping: folding `s1 + s2` combines
/// the folds of `s1` and of `s2`.
pub proof fn lemma_fold_app(s1: Seq<Elevation>, s2: Seq<Elevation>)
    ensures
        min_of(s1 + s2) == if min_of(s1) < min_of(s2) {
            min_of(s1)
        } else {
            min_of(s2)
        },
        max_of(s1 + s2) == if max_of(s1) > max_of(s2) {
            max_of(s1)
        } else {
            max_of(s2)
        },
        sum_of(s1 + s2) == sum_of(s1) + sum_of(s2),
        n_of(s1 + s2) == n_of(s1) + n_of(s2),
    decreases s2.len(),
{
    let t = s1 + s2;
    if s2.len() == 0 {
        assert(t =~= s1);
    } else {
        lemma_fold_app(s1, s2.drop_last());
        assert(t.drop_last() =~= s1 + s2.drop_last());
        assert(t.last() == s2.last());
        assert(min_of(t) == if (t.last().min as int) < min_of(t.drop_last()) {
            t.last().min as int
        } else {
            min_of(t.drop_last())
        });
        assert(max_of(t) == if (t.last().max as int) > max_of(t.drop_last()) {
            t.last().max as int
        } else {
            max_of(t.drop_last())
        });
        assert(min_of(s2) == if (s2.last().min as int) < min_of(s2.drop_last()) {
            s2.last().min as int
        } else {
            min_of(s2.drop_last())
        });
        assert(max_of(s2) == if (s2.last().max as int) > max_of(s2.drop_last()) {
            s2.last().max as int
        } else {
            max_of(s2.drop_last())
        });
    }
}

/// Combining is insensitive to the order of its inputs: folding
/// `s1 + s2` and folding `s2 + s1` give the same summary.
pub proof fn lemma_fold_comm(s1: Seq<Elevation>, s2: Seq<Elevation>)
    ensures
        min_of(s1 + s2) == min_of(s2 + s1),
        max_of(s1 + s2) == max_of(s2 + s1),
        sum_of(s1 + s2) == sum_of(s2 + s1),
        n_of(s1 + s2) == n_of(s2 + s1),
{
    lemma_fold_app(s1, s2);
    lemma_fold_app(s2, s1);
}

/// A combination of well-formed summaries is well-formed.
pub proof fn lemma_concat_wf(s: Seq<Elevation>)
    requires
        s.len() >= 1,
        forall|i: int| 0 <= i < s.len() ==> elevation_wf(#[trigger] s[i]),
    ensures
        n_of(s) >= 1,
        min_of(s) <= max_of(s),
        n_of(s) * min_of(s) <= sum_of(s) <= n_of(s) * max_of(s),
    decreases s.len(),
{
    let last = s.last();
    if s.len() == 1 {
        assert(s[0] == last);
        assert(s.drop_last() =~= Seq::<Elevation>::empty());
        assert(min_of(Seq::<Elevation>::empty()) == i16::MAX as int);
        assert(max_of(Seq::<Elevation>::empty()) == i16::MIN as int);
        assert(sum_of(Seq::<Elevation>::empty()) == 0);
        assert(n_of(Seq::<Elevation>::empty()) == 0);
        assert(n_of(s) == last.n);
        assert(sum_of(s) == last.sum);
        assert(min_of(s) == last.min as int);
        assert(max_of(s) == last.max as int);
        assert(elevation_wf(last));
        assert(n_of(s) * min_of(s) == last.n * (last.min as int));
        assert(n_of(s) * max_of(s) == last.n * (last.max as int));
    } else {
        lemma_concat_wf(s.drop_last());
        let r = s.drop_last();
        let mn = if (last.min as int) < min_of(r) {
            last.min as int
        } else {
            min_of(r)
        };
        let mx = if (last.max as int) > max_of(r) {
            last.max as int
        } else {
            max_of(r)
        };
        assert(n_of(r) * mn <= n_of(r) * min_of(r)) by (nonlinear_arith)
            requires
                n_of(r) >= 0,
                mn <= min_of(r),
        ;
        assert(last.n * mn <= last.n * (last.min as int)) by (nonlinear_arith)
            requires
                last.n >= 0,
                mn <= last.min as int,
        ;
        assert(n_of(r) * max_of(r) <= n_of(r) * mx) by (nonlinear_arith)
            requires
                n_of(r) >= 0,
                max_of(r) <= mx,
        ;
        assert(last.n * (last.max as int) <= last.n * mx) by (nonlinear_arith)
            requires
                last.n >= 0,
                last.max as int <= mx,
        ;
        assert((n_of(r) + last.n) * mn == n_of(r) * mn + last.n * mn) by (nonlinear_arith);
        assert((n_of(r) + last.n) * mx == n_of(r) * mx + last.n * mx) by (nonlinear_arith);
    }
}

/// Truncated (round-toward-zero) quotient, the division Rust's `/`
/// performs on machine integers.
pub open spec fn trunc_div(a: int, b: int) -> int {
    if a >= 0 {
        a / b
    } else {
        -((-a) / b)
    }
}

impl Elevation {
    /// Reduces a well-formed summary to `(min, avg, max)` with
    /// `avg = sum / n`, the truncated quotient. The average of a
    /// well-formed summary always lies between its extremes.
    pub fn reduce(&self) -> (r: ReducedElevation)
        requires
            elevation_wf(*self),
        ensures
            r.min == self.min,
            r.max == self.max,
            r.avg == trunc_div(self.sum as int, self.n as int),
            self.min <= r.avg <= self.max,
    {
        proof {
            lemma_trunc_div_between(self.min as int, self.max as int, self.sum as int, self.n as int);
        }
        let n_u: u64 = self.n as u64;
        let avg: i16 = if self.sum >= 0 {
            let q: u64 = (self.sum as u64) / n_u;
            q as i16
        } else {
            let mag: u64 = (-(self.sum as i64)) as u64;
            let q: u64 = mag / n_u;
            (-(q as i32)) as i16
        };
        ReducedElevation { min: self.min, avg, max: self.max }
    }
}

/// The truncated quotient of a sum of `n` values, each between `lo`
/// and `hi`, lies between `lo` and `hi`.
proof fn lemma_trunc_div_between(lo: int, hi: int, sum: int, n: int)
    requires
        n >= 1,
        lo <= hi,
        n * lo <= sum <= n * hi,
    ensures
        lo <= trunc_div(sum, n) <= hi,
{
    if sum >= 0 {
        assert(lo <= sum / n <= hi) by (nonlinear_arith)
            requires
                n >= 1,
                n * lo <= sum <= n * hi,
                sum >= 0,
        ;
    } else {
        let q = (-sum) / n;
        assert(n * -hi <= -sum <= n * -lo) by (nonlinear_arith)
            requires
                n >= 1,
                n * lo <= sum <= n * hi,
        ;
        assert(-sum >= 0);
        assert(q * n <= -sum < (q + 1) * n) by (nonlinear_arith)
            requires
                n >= 1,
                q == (-sum) / n,
                -sum >= 0,
        ;
        assert(-lo >= q) by (nonlinear_arith)
            requires
                n >= 1,
                q * n <= -sum,
                -sum <= n * -lo,
        ;
        assert(-q >= lo);
        assert(-q <= hi) by (nonlinear_arith)
            requires
                n >= 1,
                -sum < (q + 1) * n,
                n * -hi <= -sum,
        ;
    }
}

/// Little-endian bytes of a signed 16-bit value.
pub open spec fn spec_i16_le(v: i16) -> Seq<u8> {
    spec_u16_to_le_bytes(v as u16)
}

/// Encodes a signed 16-bit value as its two little-endian bytes.
pub fn i16_to_le_vec(v: i16) -> (r: Vec<u8>)
    ensures
        r@ == spec_i16_le(v),
{
    u16_to_le_bytes(v as u16)
}

/// Little-endian bytes of a signed 32-bit value.
pub open spec fn spec_i32_le(v: i32) -> Seq<u8> {
    spec_u32_to_le_bytes(v as u32)
}

/// The 12-byte wire form of a summary: `min`, `max`, `sum`, `n`,
/// each little-endian.
pub open spec fn spec_elevation_bytes(e: Elevation) -> Seq<u8> {
    spec_i16_le(e.min) + spec_i16_le(e.max) + spec_i32_le(e.sum) + spec_i32_le(e.n)
}

/// The summary a 12-byte wire form decodes to.
pub open spec fn spec_elevation_from_bytes(b: Seq<u8>) -> Elevation {
    Elevation {
        min: spec_u16_from_le_bytes(b.subrange(0, 2)) as i16,
        max: spec_u16_from_le_bytes(b.subrange(2, 4)) as i16,
        sum: spec_u32_from_le_bytes(b.subrange(4, 8)) as i32,
        n: spec_u32_from_le_bytes(b.subrange(8, 12)) as i32,
    }
}

impl Elevation {
    /// Encodes the summary to its 12-byte wire form.
    pub fn to_bytes(&self) -> (r: Vec<u8>)
        ensures
            r@ == spec_elevation_bytes(*self),
            r@.len() == 12,
    {
        proof {
            lemma_auto_spec_u16_to_from_le_bytes();
            lemma_auto_spec_u32_to_from_le_bytes();
        }
        let mut out = u16_to_le_bytes(self.min as u16);
        let mut t = u16_to_le_bytes(self.max as u16);
        out.append(&mut t);
        let mut t2 = u32_to_le_bytes(self.sum as u32);
        out.append(&mut t2);
        let mut t3 = u32_to_le_bytes(self.n as u32);
        out.append(&mut t3);
        proof {
            assert(out@ =~= spec_elevation_bytes(*self));
        }
        out
    }

    /// Decodes a summary from its 12-byte wire form; exactly 12 bytes
    /// are accepted.
    pub fn from_bytes(bytes: &[u8]) -> (r: Result<Elevation, HexitError>)
        ensures
            match r {
                Ok(e) => bytes@.len() == 12 && e == spec_elevation_from_bytes(bytes@),
                Err(_) => bytes@.len() != 12,
            },
    {
        if bytes.len() != 12 {
            return Err(HexitError::ValueLen(bytes.len() as u64));
        }
        let min = u16_from_le_bytes(slice_subrange(bytes, 0, 2)) as i16;
        let max = u16_from_le_bytes(slice_subrange(bytes, 2, 4)) as i16;
        let sum = u32_from_le_bytes(slice_subrange(bytes, 4, 8)) as i32;
        let n = u32_from_le_bytes(slice_subrange(bytes, 8, 12)) as i32;
        Ok(Elevation { min, max, sum, n })
    }
}

/// Encoding a summary and decoding the bytes returns the summary.
pub proof fn lemma_elevation_bytes_round_trip(e: Elevation)
    ensures
        spec_elevation_from_bytes(spec_elevation_bytes(e)) == e,
{
    lemma_auto_spec_u16_to_from_le_bytes();
    lemma_auto_spec_u32_to_from_le_bytes();
    let b = spec_elevation_bytes(e);
    assert(b.subrange(0, 2) =~= spec_i16_le(e.min));
    assert(b.subrange(2, 4) =~= spec_i16_le(e.max));
    assert(b.subrange(4, 8) =~= spec_i32_le(e.sum));
    assert(b.subrange(8, 12) =~= spec_i32_le(e.n));
    let mn = e.min;
    let mx = e.max;
    let sm = e.sum;
    let n = e.n;
    assert((mn as u16) as i16 == mn) by (bit_vector);
    assert((mx as u16) as i16 == mx) by (bit_vector);
    assert((sm as u32) as i32 == sm) by (bit_vector);
    assert((n as u32) as i32 == n) by (bit_vector);
}

/// The 6-byte wire form of a reduction: `min`, `avg`, `max`, each
/// little-endian.
pub open spec fn spec_reduced_bytes(e: ReducedElevation) -> Seq<u8> {
    spec_i16_le(e.min) + spec_i16_le(e.avg) + spec_i16_le(e.max)
}

/// The reduction a 6-byte wire form decodes to.
pub open spec fn spec_reduced_from_bytes(b: Seq<u8>) -> ReducedElevation {
    ReducedElevation {
        min: spec_u16_from_le_bytes(b.subrange(0, 2)) as i16,
        avg: spec_u16_from_le_bytes(b.subrange(2, 4)) as i16,
        max: spec_u16_from_le_bytes(b.subrange(4, 6)) as i16,
    }
}

impl ReducedElevation {
    /// Encodes the reduction to its 6-byte wire form.
    pub fn to_bytes(&self) -> (r: Vec<u8>)
        ensures
            r@ == spec_reduced_bytes(*self),
            r@.len() == 6,
    {
        proof {
            lemma_auto_spec_u16_to_from_le_bytes();
        }
        let mut out = u16_to_le_bytes(self.min as u16);
        let mut t = u16_to_le_bytes(self.avg as u16);
        out.append(&mut t);
        let mut t2 = u16_to_le_bytes(self.max as u16);
        out.append(&mut t2);
        proof {
            assert(out@ =~= spec_reduced_bytes(*self));
        }
        out
    }

    /// Decodes a reduction from its 6-byte wire form; exactly 6 bytes
    /// are accepted.
    pub fn from_bytes(bytes: &[u8]) -> (r: Result<ReducedElevation, HexitError>)
        ensures
            match r {
                Ok(e) => bytes@.len() == 6 && e == spec_reduced_from_bytes(bytes@),
                Err(_) => bytes@.len() != 6,
            },
    {
        if bytes.len() != 6 {
            return Err(HexitError::ValueLen(bytes.len() as u64));
        }
        let min = u16_from_le_bytes(slice_subrange(bytes, 0, 2)) as i16;
        let avg = u16_from_le_bytes(slice_subrange(bytes, 2, 4)) as i16;
        let max = u16_from_le_bytes(slice_subrange(bytes, 4, 6)) as i16;
        Ok(ReducedElevation { min, avg, max })
    }
}

/// Encoding a reduction and decoding the bytes returns the reduction.
pub proof fn lemma_reduced_bytes_round_trip(e: ReducedElevation)
    ensures
        spec_reduced_from_bytes(spec_reduced_bytes(e)) == e,
{
    lemma_auto_spec_u16_to_from_le_bytes();
    let b = spec_reduced_bytes(e);
    assert(b.subrange(0, 2) =~= spec_i16_le(e.min));
    assert(b.subrange(2, 4) =~= spec_i16_le(e.avg));
    assert(b.subrange(4, 6) =~= spec_i16_le(e.max));
    let mn = e.min;
    let av = e.avg;
    let mx = e.max;
    assert((mn as u16) as i16 == mn) by (bit_vector);
    assert((av as u16) as i16 == av) by (bit_vector);
    assert((mx as u16) as i16 == mx) by (bit_vector);
}


/// Whether seven child slots are all present.
pub open spec fn all7_some(children: Seq<Option<Elevation>>) -> bool {
    &&& children.len() == 7
    &&& forall|i: int| 0 <= i < 7 ==> (#[trigger] children[i]) is Some
}

/// The summary a present child slot holds.
pub open spec fn opt_elevation(o: Option<Elevation>) -> Elevation {
    match o {
        Some(e) => e,
        None => arbitrary(),
    }
}

/// The values of seven present child slots, in digit order.
pub open spec fn unwrap7(children: Seq<Option<Elevation>>) -> Seq<Elevation> {
    Seq::new(7, |i: int| opt_elevation(children[i]))
}

/// The combination of a group of summaries, when its sums fit the
/// summary's fields.
pub open spec fn spec_combine(es: Seq<Elevation>) -> Option<Elevation> {
    if i32::MIN <= sum_of(es) <= i32::MAX && n_of(es) <= i32::MAX {
        Some(
            Elevation {
                min: min_of(es) as i16,
                max: max_of(es) as i16,
                sum: sum_of(es) as i32,
                n: n_of(es) as i32,
            },
        )
    } else {
        None
    }
}

/// The min and max folds stay within the 16-bit sample range.
pub proof fn lemma_fold_range(s: Seq<Elevation>)
    ensures
        i16::MIN <= min_of(s) <= i16::MAX,
        i16::MIN <= max_of(s) <= i16::MAX,
    decreases s.len(),
{
    if s.len() > 0 {
        lemma_fold_range(s.drop_last());
    }
}

/// Collapses seven summaries into their combination once the walk is
/// at or past a target resolution; used to aggregate a fine
/// tessellation down to a coarser summary per cell.
pub struct ReductionCompactor {
    pub target_resolution: u8,
    pub source_resolution: u8,
}

impl Compactor<Elevation> for ReductionCompactor {
    open spec fn spec_inv(&self, v: Elevation) -> bool {
        elevation_wf(v)
    }

    open spec fn spec_compact(&self, res: u8, children: Seq<Option<Elevation>>) -> Option<
        Elevation,
    > {
        if res < self.target_resolution {
            None
        } else if all7_some(children) {
            spec_combine(unwrap7(children))
        } else {
            None
        }
    }

    proof fn lemma_compact_inv(&self, res: u8, children: Seq<Option<Elevation>>) {
        if res >= self.target_resolution && all7_some(children) {
            let es = unwrap7(children);
            assert(forall|i: int| 0 <= i < 7 ==> elevation_wf(#[trigger] es[i]));
            lemma_concat_wf(es);
            lemma_fold_range(es);
        }
    }

    fn compact(&self, res: u8, children: &Vec<Option<Elevation>>) -> (r: Option<Elevation>) {
        if res < self.target_resolution {
            return None;
        }
        match gather7(children) {
            None => None,
            Some(es) => {
                proof {
                    assert(forall|i: int| 0 <= i < 7 ==> elevation_wf(#[trigger] es@[i]));
                    lemma_concat_wf(es@);
                    lemma_fold_range(es@);
                }
                combine7(&es)
            },
        }
    }
}

/// Collects the seven child summaries, or reports a missing slot.
fn gather7(children: &Vec<Option<Elevation>>) -> (r: Option<Vec<Elevation>>)
    requires
        children@.len() == 7,
    ensures
        match r {
            Some(es) => all7_some(children@) && es@ == unwrap7(children@),
            None => !all7_some(children@),
        },
{
    let mut es: Vec<Elevation> = Vec::new();
    let mut i: usize = 0;
    while i < 7
        invariant
            children@.len() == 7,
            0 <= i <= 7,
            es@.len() == i,
            forall|k: int|
                0 <= k < i ==> (#[trigger] children@[k]) is Some && es@[k] == opt_elevation(
                    children@[k],
                ),
        decreases 7 - i,
    {
        match children[i] {
            Some(e) => es.push(e),
            None => {
                return None;
            },
        }
        i = i + 1;
    }
    proof {
        assert(es@ =~= unwrap7(children@));
    }
    Some(es)
}

/// Combines seven well-formed summaries, refusing the collapse when a
/// sum or count would overflow its field.
fn combine7(es: &Vec<Elevation>) -> (r: Option<Elevation>)
    requires
        es@.len() == 7,
        forall|i: int| 0 <= i < 7 ==> elevation_wf(#[trigger] es@[i]),
    ensures
        r == spec_combine(es@),
{
    let mut mn: i16 = i16::MAX;
    let mut mx: i16 = i16::MIN;
    let mut sm: i64 = 0;
    let mut nn: i64 = 0;
    let mut j: usize = 0;
    while j < 7
        invariant
            es@.len() == 7,
            forall|i: int| 0 <= i < 7 ==> elevation_wf(#[trigger] es@[i]),
            0 <= j <= 7,
            mn == min_of(es@.take(j as int)),
            mx == max_of(es@.take(j as int)),
            sm == sum_of(es@.take(j as int)),
            nn == n_of(es@.take(j as int)),
            -(j as int) * 2147483648 <= sm <= (j as int) * 2147483647,
            0 <= nn <= (j as int) * 2147483647,
        decreases 7 - j,
    {
        proof {
            assert(es@.take(j as int + 1).drop_last() =~= es@.take(j as int));
            assert(es@.take(j as int + 1).last() == es@[j as int]);
        }
        let e = es[j];
        if e.min < mn {
            mn = e.min;
        }
        if e.max > mx {
            mx = e.max;
        }
        sm = sm + e.sum as i64;
        nn = nn + e.n as i64;
        j = j + 1;
    }
    proof {
        assert(es@.take(7) =~= es@);
    }
    if -2147483648 <= sm && sm <= 2147483647 && nn <= 2147483647 {
        Some(Elevation { min: mn, max: mx, sum: sm as i32, n: nn as i32 })
    } else {
        None
    }
}

/// A void summary: one carrying the sentinel minimum sample value.
pub open spec fn is_void(e: Elevation) -> bool {
    e.min == i16::MIN || e.max == i16::MIN
}

/// The subsequence of non-void summaries, in order.
pub open spec fn non_void_of(s: Seq<Elevation>) -> Seq<Elevation>
    decreases s.len(),
{
    if s.len() == 0 {
        Seq::empty()
    } else {
        let rest = non_void_of(s.drop_last());
        if is_void(s.last()) {
            rest
        } else {
            rest.push(s.last())
        }
    }
}

/// Non-void filtering keeps well-formedness of every element.
proof fn lemma_non_void_wf(s: Seq<Elevation>)
    requires
        forall|i: int| 0 <= i < s.len() ==> elevation_wf(#[trigger] s[i]),
    ensures
        forall|i: int| 0 <= i < non_void_of(s).len() ==> elevation_wf(#[trigger] non_void_of(s)[i]),
    decreases s.len(),
{
    if s.len() > 0 {
        assert(forall|i: int|
            0 <= i < s.drop_last().len() ==> elevation_wf(#[trigger] s.drop_last()[i]));
        lemma_non_void_wf(s.drop_last());
        let rest = non_void_of(s.drop_last());
        if !is_void(s.last()) {
            assert(non_void_of(s) == rest.push(s.last()));
            assert(elevation_wf(s.last()));
            assert forall|i: int|
                0 <= i < non_void_of(s).len() implies elevation_wf(
                #[trigger] non_void_of(s)[i],
            ) by {
                if i < rest.len() {
                    assert(non_void_of(s)[i] == rest[i]);
                } else {
                    assert(non_void_of(s)[i] == s.last());
                }
            }
        }
    }
}

/// Collapses seven siblings when their non-void summaries span no
/// more than a tolerance between least minimum and greatest maximum.
pub struct CloseEnoughCompactor {
    /// Greatest difference between the least minimum and the greatest
    /// maximum child elevation that still collapses.
    pub tolerance: i16,
}

impl Compactor<Elevation> for CloseEnoughCompactor {
    open spec fn spec_inv(&self, v: Elevation) -> bool {
        elevation_wf(v)
    }

    open spec fn spec_compact(&self, res: u8, children: Seq<Option<Elevation>>) -> Option<
        Elevation,
    > {
        if all7_some(children) {
            let es = non_void_of(unwrap7(children));
            if es.len() >= 1 && max_of(es) - min_of(es) <= self.tolerance && i32::MIN <= sum_of(es)
                <= i32::MAX && n_of(es) <= i32::MAX {
                Some(
                    Elevation {
                        min: min_of(es) as i16,
                        max: max_of(es) as i16,
                        sum: sum_of(es) as i32,
                        n: n_of(es) as i32,
                    },
                )
            } else {
                None
            }
        } else {
            None
        }
    }

    proof fn lemma_compact_inv(&self, res: u8, children: Seq<Option<Elevation>>) {
        if all7_some(children) {
            let es0 = unwrap7(children);
            assert(forall|i: int| 0 <= i < 7 ==> elevation_wf(#[trigger] es0[i]));
            lemma_non_void_wf(es0);
            let es = non_void_of(es0);
            if es.len() >= 1 {
                lemma_concat_wf(es);
                lemma_fold_range(es);
            }
        }
    }

    fn compact(&self, res: u8, children: &Vec<Option<Elevation>>) -> (r: Option<Elevation>) {
        match gather7(children) {
            None => None,
            Some(es0) => {
                proof {
                    assert(forall|i: int| 0 <= i < 7 ==> elevation_wf(#[trigger] es0@[i]));
                    lemma_non_void_wf(es0@);
                }
                let mut mn: i16 = i16::MAX;
                let mut mx: i16 = i16::MIN;
                let mut sm: i64 = 0;
                let mut nn: i64 = 0;
                let mut cnt: usize = 0;
                let mut j: usize = 0;
                while j < 7
                    invariant
                        es0@.len() == 7,
                        forall|i: int| 0 <= i < 7 ==> elevation_wf(#[trigger] es0@[i]),
                        0 <= j <= 7,
                        cnt <= j,
                        cnt == non_void_of(es0@.take(j as int)).len(),
                        mn == min_of(non_void_of(es0@.take(j as int))),
                        mx == max_of(non_void_of(es0@.take(j as int))),
                        sm == sum_of(non_void_of(es0@.take(j as int))),
                        nn == n_of(non_void_of(es0@.take(j as int))),
                        -(j as int) * 2147483648 <= sm <= (j as int) * 2147483647,
                        0 <= nn <= (j as int) * 2147483647,
                    decreases 7 - j,
                {
                    proof {
                        assert(es0@.take(j as int + 1).drop_last() =~= es0@.take(j as int));
                        assert(es0@.take(j as int + 1).last() == es0@[j as int]);
                        let q = non_void_of(es0@.take(j as int));
                        if !is_void(es0@[j as int]) {
                            assert(q.push(es0@[j as int]).drop_last() =~= q);
                            assert(q.push(es0@[j as int]).last() == es0@[j as int]);
                        }
                    }
                    let e = es0[j];
                    if !(e.min == i16::MIN || e.max == i16::MIN) {
                        if e.min < mn {
                            mn = e.min;
                        }
                        if e.max > mx {
                            mx = e.max;
                        }
                        sm = sm + e.sum as i64;
                        nn = nn + e.n as i64;
                        cnt = cnt + 1;
                    }
                    j = j + 1;
                }
                proof {
                    assert(es0@.take(7) =~= es0@);
                }
                if cnt >= 1 && (mx as i32) - (mn as i32) <= self.tolerance as i32 && -2147483648
                    <= sm && sm <= 2147483647 && nn <= 2147483647 {
                    Some(Elevation { min: mn, max: mx, sum: sm as i32, n: nn as i32 })
                } else {
                    None
                }
            },
        }
    }
}

/// Combining seven summaries of equal counts multiplies the count by
/// seven; the reduction flow therefore carries `7^k` samples per leaf
/// after `k` collapses.
pub proof fn lemma_combine_counts(es: Seq<Elevation>, m: int)
    requires
        es.len() == 7,
        (forall|i: int| 0 <= i < 7 ==> (#[trigger] es[i]).n == m),
    ensures
        (n_of(es) == 7 * m),
{
    let e6 = es.drop_last();
    let e5 = e6.drop_last();
    let e4 = e5.drop_last();
    let e3 = e4.drop_last();
    let e2 = e3.drop_last();
    let e1 = e2.drop_last();
    let e0 = e1.drop_last();
    assert(e0.len() == 0);
    assert(n_of(e0) == 0);
    assert(e1.last() == es[0]);
    assert(e2.last() == es[1]);
    assert(e3.last() == es[2]);
    assert(e4.last() == es[3]);
    assert(e5.last() == es[4]);
    assert(e6.last() == es[5]);
    assert(es.last() == es[6]);
    assert(n_of(e1) == n_of(e0) + es[0].n);
    assert(n_of(e2) == n_of(e1) + es[1].n);
    assert(n_of(e3) == n_of(e2) + es[2].n);
    assert(n_of(e4) == n_of(e3) + es[3].n);
    assert(n_of(e5) == n_of(e4) + es[4].n);
    assert(n_of(e6) == n_of(e5) + es[5].n);
    assert(n_of(es) == n_of(e6) + es[6].n);
}


/// A collapse under the close-enough rule spans at most the tolerance:
/// the produced summary's extremes, the least minimum and greatest
/// maximum over its source children, differ by no more than it.
pub proof fn lemma_close_enough_within_tolerance(
    comp: CloseEnoughCompactor,
    res: u8,
    children: Seq<Option<Elevation>>,
    v: Elevation,
)
    requires
        comp.spec_compact(res, children) == Some(v),
    ensures
        v.max as int - v.min as int <= comp.tolerance,
        v.min as int == min_of(non_void_of(unwrap7(children))),
        v.max as int == max_of(non_void_of(unwrap7(children))),
{
    let es = non_void_of(unwrap7(children));
    lemma_fold_range(es);
}

} // verus!
