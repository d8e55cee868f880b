//! The offline aggregation pipeline's binary exchange format and
//! combination steps.
//!
//! A tessellation stream is a little-endian record list: a 64-bit
//! record count, then one 10-byte record per cell holding the cell's
//! 64-bit index and a 16-bit elevation. Streams travel gzip-compressed
//! between the tessellation and combination stages. Combination
//! inserts every record into an elevation trie, reduces the trie at a
//! target resolution, and serializes the reduction.

use vstd::prelude::*;
use vstd::bytes::{
    spec_u64_to_le_bytes, spec_u64_from_le_bytes, u64_to_le_bytes, u64_from_le_bytes,
    spec_u16_from_le_bytes, spec_u16_to_le_bytes, u16_from_le_bytes,
    lemma_auto_spec_u64_to_from_le_bytes,
    lemma_auto_spec_u16_to_from_le_bytes,
};
use vstd::slice::slice_subrange;
use crate::cell::{Cell, spec_cell_wf};
use crate::elevation::{
    Elevation, ReducedElevation, elevation_wf, spec_i16_le, spec_single_sample, trunc_div,
    ReductionCompactor,
};
use crate::errors::HexitError;
use crate::hextree::{HexTreeMap, NullCompactor, spec_insert_seq, spec_empty_nodes};

verus! {

/// The record bytes of a tessellation stream: each cell's 64-bit
/// index and 16-bit elevation, little-endian, in order.
pub open spec fn spec_records_bytes(rs: Seq<(u64, i16)>) -> Seq<u8>
    decreases rs.len(),
{
    if rs.len() == 0 {
        Seq::empty()
    } else {
        spec_records_bytes(rs.drop_last()) + spec_u64_to_le_bytes(rs.last().0) + spec_i16_le(
            rs.last().1,
        )
    }
}

/// A whole tessellation stream: the record count, then the records.
pub open spec fn spec_stream_bytes(rs: Seq<(u64, i16)>) -> Seq<u8> {
    spec_u64_to_le_bytes(rs.len() as u64) + spec_records_bytes(rs)
}

/// The record bytes have ten bytes per record, and record `i` sits at
/// byte `10 * i`.
pub proof fn lemma_records_bytes_index(rs: Seq<(u64, i16)>, i: int)
    requires
        0 <= i < rs.len(),
    ensures
        spec_records_bytes(rs).len() == 10 * rs.len(),
        spec_records_bytes(rs).subrange(10 * i, 10 * i + 8) == spec_u64_to_le_bytes(rs[i].0),
        spec_records_bytes(rs).subrange(10 * i + 8, 10 * i + 10) == spec_i16_le(rs[i].1),
    decreases rs.len(),
{
    lemma_auto_spec_u64_to_from_le_bytes();
    lemma_auto_spec_u16_to_from_le_bytes();
    lemma_records_bytes_len(rs);
    if i == rs.len() - 1 {
        lemma_records_bytes_len(rs.drop_last());
        assert(spec_records_bytes(rs).subrange(10 * i, 10 * i + 8) =~= spec_u64_to_le_bytes(
            rs[i].0,
        ));
        assert(spec_records_bytes(rs).subrange(10 * i + 8, 10 * i + 10) =~= spec_i16_le(rs[i].1));
    } else {
        lemma_records_bytes_index(rs.drop_last(), i);
        assert(rs.drop_last()[i] == rs[i]);
        assert(spec_records_bytes(rs).subrange(10 * i, 10 * i + 8) =~= spec_records_bytes(
            rs.drop_last(),
        ).subrange(10 * i, 10 * i + 8));
        assert(spec_records_bytes(rs).subrange(10 * i + 8, 10 * i + 10) =~= spec_records_bytes(
            rs.drop_last(),
        ).subrange(10 * i + 8, 10 * i + 10));
    }
}

/// The record bytes have ten bytes per record.
pub proof fn lemma_records_bytes_len(rs: Seq<(u64, i16)>)
    ensures
        spec_records_bytes(rs).len() == 10 * rs.len(),
    decreases rs.len(),
{
    lemma_auto_spec_u64_to_from_le_bytes();
    lemma_auto_spec_u16_to_from_le_bytes();
    if rs.len() > 0 {
        lemma_records_bytes_len(rs.drop_last());
    }
}

/// Encodes a tessellation stream: the record count, then ten bytes
/// per record.
pub fn encode_records(rs: &Vec<(u64, i16)>) -> (r: Vec<u8>)
    ensures
        r@ == spec_stream_bytes(rs@),
{
    proof {
        lemma_auto_spec_u64_to_from_le_bytes();
        lemma_auto_spec_u16_to_from_le_bytes();
        lemma_records_bytes_len(rs@);
    }
    let mut out = u64_to_le_bytes(rs.len() as u64);
    let mut i: usize = 0;
    while i < rs.len()
        invariant
            0 <= i <= rs@.len(),
            out@ == spec_u64_to_le_bytes(rs@.len() as u64) + spec_records_bytes(rs@.take(i as int)),
        decreases rs@.len() - i,
    {
        proof {
            assert(rs@.take(i as int + 1).drop_last() =~= rs@.take(i as int));
            assert(rs@.take(i as int + 1).last() == rs@[i as int]);
        }
        let (cell_id, elev) = rs[i];
        let mut cb = u64_to_le_bytes(cell_id);
        out.append(&mut cb);
        let mut eb = crate::elevation::i16_to_le_vec(elev);
        out.append(&mut eb);
        i = i + 1;
    }
    proof {
        assert(rs@.take(rs@.len() as int) =~= rs@);
    }
    out
}

/// Decodes a tessellation stream. The stream must hold exactly the
/// promised records: a short buffer is reported as truncated, and
/// extra bytes past the promised count are an error.
pub fn decode_records(bytes: &[u8]) -> (r: Result<Vec<(u64, i16)>, HexitError>)
    ensures
        match r {
            Ok(rs) => {
                &&& bytes@.len() == 8 + 10 * rs@.len()
                &&& rs@.len() == spec_u64_from_le_bytes(bytes@.subrange(0, 8))
                &&& forall|i: int|
                    0 <= i < rs@.len() ==> (#[trigger] rs@[i]).0 == spec_u64_from_le_bytes(
                        bytes@.subrange(8 + 10 * i, 16 + 10 * i),
                    ) && rs@[i].1 == spec_u16_from_le_bytes(
                        bytes@.subrange(16 + 10 * i, 18 + 10 * i),
                    ) as i16
            },
            Err(_) => bytes@.len() < 8 || bytes@.len() != 8 + 10 * (spec_u64_from_le_bytes(
                bytes@.subrange(0, 8),
            ) as int),
        },
{
    if bytes.len() < 8 {
        return Err(HexitError::Truncated);
    }
    let count64 = u64_from_le_bytes(slice_subrange(bytes, 0, 8));
    let body_len: usize = bytes.len() - 8;
    if (body_len % 10) != 0 || ((body_len / 10) as u64) != count64 {
        if ((body_len / 10) as u64) < count64 {
            return Err(HexitError::Truncated);
        }
        return Err(HexitError::TrailingBytes);
    }
    let count: usize = body_len / 10;
    let mut rs: Vec<(u64, i16)> = Vec::new();
    let mut i: usize = 0;
    while i < count
        invariant
            bytes@.len() == 8 + 10 * count,
            bytes@.len() <= usize::MAX,
            0 <= i <= count,
            rs@.len() == i,
            forall|k: int|
                0 <= k < i ==> (#[trigger] rs@[k]).0 == spec_u64_from_le_bytes(
                    bytes@.subrange(8 + 10 * k, 16 + 10 * k),
                ) && rs@[k].1 == spec_u16_from_le_bytes(
                    bytes@.subrange(16 + 10 * k, 18 + 10 * k),
                ) as i16,
        decreases count - i,
    {
        let cell_id = u64_from_le_bytes(slice_subrange(bytes, 8 + 10 * i, 16 + 10 * i));
        let eu = u16_from_le_bytes(slice_subrange(bytes, 16 + 10 * i, 18 + 10 * i));
        let elev: i16 = #[verifier::truncate] (eu as i16);
        rs.push((cell_id, elev));
        i = i + 1;
    }
    Ok(rs)
}

/// Decoding an encoded stream returns the records unchanged.
pub proof fn lemma_stream_round_trip(rs: Seq<(u64, i16)>, dec: Seq<(u64, i16)>)
    requires
        rs.len() <= 0xffffffffffffffff,
        spec_stream_bytes(rs).len() == 8 + 10 * dec.len(),
        dec.len() == spec_u64_from_le_bytes(spec_stream_bytes(rs).subrange(0, 8)),
        forall|i: int|
            0 <= i < dec.len() ==> (#[trigger] dec[i]).0 == spec_u64_from_le_bytes(
                spec_stream_bytes(rs).subrange(8 + 10 * i, 16 + 10 * i),
            ) && dec[i].1 == spec_u16_from_le_bytes(
                spec_stream_bytes(rs).subrange(16 + 10 * i, 18 + 10 * i),
            ) as i16,
    ensures
        dec == rs,
{
    lemma_auto_spec_u64_to_from_le_bytes();
    lemma_auto_spec_u16_to_from_le_bytes();
    lemma_records_bytes_len(rs);
    let b = spec_stream_bytes(rs);
    assert(b.subrange(0, 8) =~= spec_u64_to_le_bytes(rs.len() as u64));
    assert(dec.len() == rs.len());
    assert forall|i: int| 0 <= i < rs.len() implies #[trigger] dec[i] == rs[i] by {
        lemma_records_bytes_index(rs, i);
        assert(b.subrange(8 + 10 * i, 16 + 10 * i) =~= spec_records_bytes(rs).subrange(
            10 * i,
            10 * i + 8,
        ));
        assert(b.subrange(16 + 10 * i, 18 + 10 * i) =~= spec_records_bytes(rs).subrange(
            10 * i + 8,
            10 * i + 10,
        ));
        let e = rs[i].1;
        assert(spec_u16_from_le_bytes(spec_i16_le(e)) as i16 == e) by {
            assert(spec_u16_from_le_bytes(spec_u16_to_le_bytes(e as u16)) == e as u16);
            assert((e as u16) as i16 == e) by (bit_vector);
        }
    }
    assert(dec =~= rs);
}

/// The gzip form of a byte string at a compression level; what the
/// deflate encoder produces.
pub uninterp spec fn gzip_of(data: Seq<u8>, level: u32) -> Seq<u8>;

/// What inflating a gzip stream yields: the original bytes, or
/// nothing for a malformed stream.
pub uninterp spec fn gunzip_of(data: Seq<u8>) -> Option<Seq<u8>>;

/// Relies on `flate2::write::GzEncoder`: gzip-compresses the bytes at
/// the given level (0 to 9); inflating the result yields the input
/// again, gzip being lossless.
#[verifier::external_body]
pub fn gzip_compress(data: &[u8], level: u32) -> (r: Vec<u8>)
    requires
        level <= 9,
    ensures
        r@ == gzip_of(data@, level),
        gunzip_of(r@) == Some(data@),
{
    let mut enc = flate2::write::GzEncoder::new(Vec::new(), flate2::Compression::new(level));
    std::io::Write::write_all(&mut enc, data).expect("writing into a Vec cannot fail");
    enc.finish().expect("writing into a Vec cannot fail")
}

/// Relies on `flate2::read::GzDecoder`: inflates a gzip stream,
/// failing exactly on malformed input.
#[verifier::external_body]
pub fn gzip_decompress(data: &[u8]) -> (r: Result<Vec<u8>, HexitError>)
    ensures
        match r {
            Ok(v) => gunzip_of(data@) == Some(v@),
            Err(_) => gunzip_of(data@) is None,
        },
{
    let mut dec = flate2::read::GzDecoder::new(data);
    let mut out = Vec::new();
    match std::io::Read::read_to_end(&mut dec, &mut out) {
        Ok(_) => Ok(out),
        Err(e) => Err(HexitError::Io(e.to_string())),
    }
}

/// Builds a tessellation stream: encodes the records and compresses
/// them. Decompressing and decoding the result recovers the records.
pub fn write_tessellation(rs: &Vec<(u64, i16)>, level: u32) -> (r: Vec<u8>)
    requires
        level <= 9,
    ensures
        r@ == gzip_of(spec_stream_bytes(rs@), level),
        gunzip_of(r@) == Some(spec_stream_bytes(rs@)),
{
    let encoded = encode_records(rs);
    gzip_compress(encoded.as_slice(), level)
}

/// Reads a compressed tessellation stream back into records. Succeeds
/// exactly when the bytes inflate and the inflated stream holds
/// exactly the promised record count.
pub fn read_tessellation(gz: &[u8]) -> (r: Result<Vec<(u64, i16)>, HexitError>)
    ensures
        match r {
            Ok(rs) => gunzip_of(gz@) matches Some(raw) && {
                &&& raw.len() == 8 + 10 * rs@.len()
                &&& rs@.len() == spec_u64_from_le_bytes(raw.subrange(0, 8))
                &&& forall|i: int|
                    0 <= i < rs@.len() ==> (#[trigger] rs@[i]).0 == spec_u64_from_le_bytes(
                        raw.subrange(8 + 10 * i, 16 + 10 * i),
                    ) && rs@[i].1 == spec_u16_from_le_bytes(
                        raw.subrange(16 + 10 * i, 18 + 10 * i),
                    ) as i16
            },
            Err(_) => gunzip_of(gz@) is None || (gunzip_of(gz@) matches Some(raw) && (raw.len() < 8
                || raw.len() != 8 + 10 * (spec_u64_from_le_bytes(raw.subrange(0, 8)) as int))),
        },
{
    let raw = match gzip_decompress(gz) {
        Ok(v) => v,
        Err(e) => {
            return Err(e);
        },
    };
    decode_records(raw.as_slice())
}

/// The cell/value pairs a record sequence stands for in the
/// aggregation trie: each record's canonical cell keyed to the
/// single-sample summary of its elevation.
pub open spec fn spec_record_summaries(rs: Seq<(u64, i16)>) -> Seq<(Cell, Elevation)> {
    rs.map_values(|r: (u64, i16)| (Cell::spec_from_raw(r.0), spec_single_sample(r.1)))
}

/// The cell/value pairs a record sequence stands for in a per-tile
/// tessellation trie: each record's canonical cell keyed to its raw
/// elevation.
pub open spec fn spec_record_cells(rs: Seq<(u64, i16)>) -> Seq<(Cell, i16)> {
    rs.map_values(|r: (u64, i16)| (Cell::spec_from_raw(r.0), r.1))
}

/// Inserts decoded records into an elevation trie, each elevation as
/// a single-sample summary, in record order. Fails on the first
/// record whose 64-bit index is not a canonical cell, leaving the
/// records before it inserted.
pub fn insert_records(
    tree: &mut HexTreeMap<Elevation, ReductionCompactor>,
    rs: &Vec<(u64, i16)>,
) -> (r: Result<(), HexitError>)
    requires
        old(tree).wf(),
    ensures
        final(tree).wf(),
        final(tree).spec_compactor() == old(tree).spec_compactor(),
        match r {
            Ok(()) => (forall|i: int| 0 <= i < rs@.len() ==> spec_cell_wf((#[trigger] rs@[i]).0))
                && final(tree).spec_nodes() == spec_insert_seq(
                old(tree).spec_nodes(),
                old(tree).spec_compactor(),
                spec_record_summaries(rs@),
                rs@.len() as int,
            ),
            Err(e) => e matches HexitError::InvalidCell(raw) && exists|i: int|
                {
                    &&& 0 <= i < rs@.len()
                    &&& (#[trigger] rs@[i]).0 == raw
                    &&& !spec_cell_wf(raw)
                    &&& (forall|k: int| 0 <= k < i ==> spec_cell_wf((#[trigger] rs@[k]).0))
                    &&& final(tree).spec_nodes() == spec_insert_seq(
                        old(tree).spec_nodes(),
                        old(tree).spec_compactor(),
                        spec_record_summaries(rs@),
                        i,
                    )
                },
        },
    {
    let mut i: usize = 0;
    while i < rs.len()
        invariant
            tree.wf(),
            tree.spec_compactor() == old(tree).spec_compactor(),
            0 <= i <= rs@.len(),
            forall|k: int| 0 <= k < i ==> spec_cell_wf((#[trigger] rs@[k]).0),
            tree.spec_nodes() == spec_insert_seq(
                old(tree).spec_nodes(),
                old(tree).spec_compactor(),
                spec_record_summaries(rs@),
                i as int,
            ),
        decreases rs@.len() - i,
    {
        let (cell_id, elev) = rs[i];
        let cell = match Cell::from_raw(cell_id) {
            Ok(c) => c,
            Err(_) => {
                return Err(HexitError::InvalidCell(cell_id));
            },
        };
        proof {
            assert(spec_record_summaries(rs@)[i as int] == (
                Cell::spec_from_raw(rs@[i as int].0),
                spec_single_sample(rs@[i as int].1),
            ));
        }
        tree.insert(cell, Elevation::new(elev));
        i = i + 1;
    }
    Ok(())
}

/// The reduction of the entries at the target resolution: each entry
/// whose cell sits at the target resolution and whose well-formed
/// summary carries exactly the expected sample count reduces to its
/// `(min, avg, max)`.
pub open spec fn spec_reduced_entries(
    es: Seq<(Cell, Elevation)>,
    target: u8,
    expected: int,
) -> Seq<(Cell, ReducedElevation)>
    decreases es.len(),
{
    if es.len() == 0 {
        Seq::empty()
    } else {
        let rest = spec_reduced_entries(es.drop_last(), target, expected);
        let c = es.last().0;
        let e = es.last().1;
        if crate::cell::spec_res(c.spec_raw()) == target && elevation_wf(e) && e.n == expected {
            rest.push(
                (
                    c,
                    ReducedElevation {
                        min: e.min,
                        avg: trunc_div(e.sum as int, e.n as int) as i16,
                        max: e.max,
                    },
                ),
            )
        } else {
            rest
        }
    }
}

/// Reduces an aggregated trie: keeps the cells at the target
/// resolution whose summaries carry the full expected count of
/// `7 ^ (source - target)` samples, reduced to `(min, avg, max)`.
pub fn reduce_hextree(
    tree: &HexTreeMap<Elevation, ReductionCompactor>,
    source_resolution: u8,
    target_resolution: u8,
) -> (r: Vec<(Cell, ReducedElevation)>)
    requires
        tree.wf(),
        target_resolution <= source_resolution <= 15,
    ensures
        r@ == spec_reduced_entries(
            tree.spec_entries(),
            target_resolution,
            spec_pow7((source_resolution - target_resolution) as nat),
        ),
{
    let expected: i64 = pow7((source_resolution - target_resolution) as u8);
    let entries = tree.entries();
    let mut out: Vec<(Cell, ReducedElevation)> = Vec::new();
    let mut i: usize = 0;
    while i < entries.len()
        invariant
            0 <= i <= entries@.len(),
            entries@ == tree.spec_entries(),
            expected == spec_pow7((source_resolution - target_resolution) as nat),
            out@ == spec_reduced_entries(
                entries@.take(i as int),
                target_resolution,
                expected as int,
            ),
        decreases entries@.len() - i,
    {
        proof {
            assert(entries@.take(i as int + 1).drop_last() =~= entries@.take(i as int));
            assert(entries@.take(i as int + 1).last() == entries@[i as int]);
        }
        let (c, e) = entries[i];
        let wf_ok: bool = is_wf_summary(&e);
        if c.res() == target_resolution && wf_ok && (e.n as i64) == expected {
            let red = e.reduce();
            out.push((c, red));
        }
        i = i + 1;
    }
    proof {
        assert(entries@.take(entries@.len() as int) =~= entries@);
    }
    out
}

/// Seven to the `k`-th power.
pub open spec fn spec_pow7(k: nat) -> int
    decreases k,
{
    if k == 0 {
        1
    } else {
        7 * spec_pow7((k - 1) as nat)
    }
}

/// Seven to the `k`-th power, for exponents up to 15.
fn pow7(k: u8) -> (r: i64)
    requires
        k <= 15,
    ensures
        r == spec_pow7(k as nat),
        1 <= r <= 4747561509943,
{
    let mut r: i64 = 1;
    let mut i: u8 = 0;
    while i < k
        invariant
            0 <= i <= k <= 15,
            r == spec_pow7(i as nat),
            1 <= r <= 4747561509943,
        decreases k - i,
    {
        proof {
            lemma_pow7_bound(i as nat);
            lemma_pow7_bound((i + 1) as nat);
        }
        r = r * 7;
        i = i + 1;
    }
    r
}

/// The value of seven to the `k`-th power, written out.
pub open spec fn pow7_val(k: nat) -> int {
    if k == 0 {
        1
    } else if k == 1 {
        7
    } else if k == 2 {
        49
    } else if k == 3 {
        343
    } else if k == 4 {
        2401
    } else if k == 5 {
        16807
    } else if k == 6 {
        117649
    } else if k == 7 {
        823543
    } else if k == 8 {
        5764801
    } else if k == 9 {
        40353607
    } else if k == 10 {
        282475249
    } else if k == 11 {
        1977326743
    } else if k == 12 {
        13841287201
    } else if k == 13 {
        96889010407
    } else if k == 14 {
        678223072849
    } else {
        4747561509943
    }
}

/// Powers of seven up to the fifteenth, evaluated.
proof fn lemma_pow7_bound(k: nat)
    requires
        k <= 15,
    ensures
        spec_pow7(k) == pow7_val(k),
        1 <= spec_pow7(k) <= 4747561509943,
    decreases k,
{
    if k > 0 {
        lemma_pow7_bound((k - 1) as nat)
    }
}

/// Whether a summary is well-formed, checked on concrete values.
fn is_wf_summary(e: &Elevation) -> (r: bool)
    ensures
        r == elevation_wf(*e),
{
    if e.n < 1 {
        return false;
    }
    if e.min > e.max {
        return false;
    }
    let n64: i64 = e.n as i64;
    let mn: i64 = e.min as i64;
    let mx: i64 = e.max as i64;
    proof {
        assert(i64::MIN <= n64 * mn <= i64::MAX) by (nonlinear_arith)
            requires
                1 <= n64 <= 2147483647,
                -32768 <= mn <= 32767,
        ;
        assert(i64::MIN <= n64 * mx <= i64::MAX) by (nonlinear_arith)
            requires
                1 <= n64 <= 2147483647,
                -32768 <= mx <= 32767,
        ;
    }
    let lo: i64 = n64 * mn;
    let hi: i64 = n64 * mx;
    lo <= (e.sum as i64) && (e.sum as i64) <= hi
}

/// Builds the reduced trie from the reduced entries, inserting them
/// in order into a fresh trie, ready for serialization.
pub fn build_reduced_tree(entries: &Vec<(Cell, ReducedElevation)>) -> (r: HexTreeMap<
    ReducedElevation,
    NullCompactor,
>)
    requires
        forall|i: int| 0 <= i < entries@.len() ==> spec_cell_wf((#[trigger] entries@[i]).0.spec_raw()),
    ensures
        r.wf(),
        r.spec_nodes() == spec_insert_seq(
            spec_empty_nodes::<ReducedElevation>(),
            NullCompactor,
            entries@,
            entries@.len() as int,
        ),
{
    let mut tree: HexTreeMap<ReducedElevation, NullCompactor> = HexTreeMap::with_compactor(
        NullCompactor,
    );
    let mut i: usize = 0;
    while i < entries.len()
        invariant
            tree.wf(),
            tree.spec_compactor() == NullCompactor,
            0 <= i <= entries@.len(),
            forall|k: int|
                0 <= k < entries@.len() ==> spec_cell_wf((#[trigger] entries@[k]).0.spec_raw()),
            tree.spec_nodes() == spec_insert_seq(
                spec_empty_nodes::<ReducedElevation>(),
                NullCompactor,
                entries@,
                i as int,
            ),
        decreases entries@.len() - i,
    {
        let (c, v) = entries[i];
        tree.insert(c, v);
        i = i + 1;
    }
    tree
}

/// Builds the per-tile tessellation trie: each record's cell keyed to
/// its raw elevation in record order, duplicate cells collapsing to
/// the last value, ready to stream out in cell order. Succeeds
/// exactly when every record's 64-bit index is a canonical cell, and
/// fails on the first that is not.
pub fn build_tessellation_tree(rs: &Vec<(u64, i16)>) -> (r: Result<
    HexTreeMap<i16, NullCompactor>,
    HexitError,
>)
    ensures
        match r {
            Ok(t) => {
                &&& t.wf()
                &&& (forall|i: int| 0 <= i < rs@.len() ==> spec_cell_wf((#[trigger] rs@[i]).0))
                &&& t.spec_nodes() == spec_insert_seq(
                    spec_empty_nodes::<i16>(),
                    NullCompactor,
                    spec_record_cells(rs@),
                    rs@.len() as int,
                )
            },
            Err(e) => e matches HexitError::InvalidCell(raw) && exists|i: int|
                {
                    &&& 0 <= i < rs@.len()
                    &&& (#[trigger] rs@[i]).0 == raw
                    &&& !spec_cell_wf(raw)
                    &&& (forall|k: int| 0 <= k < i ==> spec_cell_wf((#[trigger] rs@[k]).0))
                },
        },
{
    let mut tree: HexTreeMap<i16, NullCompactor> = HexTreeMap::with_compactor(NullCompactor);
    let mut i: usize = 0;
    while i < rs.len()
        invariant
            tree.wf(),
            tree.spec_compactor() == NullCompactor,
            0 <= i <= rs@.len(),
            forall|k: int| 0 <= k < i ==> spec_cell_wf((#[trigger] rs@[k]).0),
            tree.spec_nodes() == spec_insert_seq(
                spec_empty_nodes::<i16>(),
                NullCompactor,
                spec_record_cells(rs@),
                i as int,
            ),
        decreases rs@.len() - i,
    {
        let (cell_id, elev) = rs[i];
        let cell = match Cell::from_raw(cell_id) {
            Ok(c) => c,
            Err(_) => {
                return Err(HexitError::InvalidCell(cell_id));
            },
        };
        proof {
            assert(spec_record_cells(rs@)[i as int] == (
                Cell::spec_from_raw(rs@[i as int].0),
                rs@[i as int].1,
            ));
        }
        tree.insert(cell, elev);
        i = i + 1;
    }
    Ok(tree)
}

} // verus!
