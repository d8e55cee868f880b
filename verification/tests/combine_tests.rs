use geoprof::cell::Cell;
use geoprof::combine::{
    encode_records, decode_records, write_tessellation, read_tessellation, gzip_decompress,
    insert_records, reduce_hextree, build_reduced_tree, build_tessellation_tree,
};
use geoprof::disktree::{to_disktree, seek};
use geoprof::elevation::ReductionCompactor;
use geoprof::errors::HexitError;
use geoprof::hextree::HexTreeMap;

/// A canonical cell index with the given base and digits.
fn cell_raw(base: u64, digits: &[u64]) -> u64 {
    let res = digits.len() as u64;
    let mut raw: u64 = (1u64 << 59) | (res << 52) | (base << 45);
    for k in 0..15u64 {
        let d: u64 = if (k as usize) < digits.len() { digits[k as usize] } else { 7 };
        raw |= d << ((14 - k) * 3);
    }
    raw
}

#[test]
fn test_record_stream_round_trip() {
    let rs: Vec<(u64, i16)> = vec![(cell_raw(1, &[0]), 5), (cell_raw(1, &[1]), -3), (77, 0)];
    let bytes = encode_records(&rs);
    assert_eq!(bytes.len(), 8 + 10 * rs.len());
    let back = decode_records(&bytes).unwrap();
    assert_eq!(rs, back);
}

#[test]
fn test_record_stream_layout() {
    let rs: Vec<(u64, i16)> = vec![(0x0102030405060708, 1)];
    let bytes = encode_records(&rs);
    assert_eq!(&bytes[0..8], &[1, 0, 0, 0, 0, 0, 0, 0]);
    assert_eq!(&bytes[8..16], &[8, 7, 6, 5, 4, 3, 2, 1]);
    assert_eq!(&bytes[16..18], &[1, 0]);
}

#[test]
fn test_record_stream_truncated() {
    let rs: Vec<(u64, i16)> = vec![(1, 1), (2, 2)];
    let mut bytes = encode_records(&rs);
    bytes.truncate(bytes.len() - 10);
    assert!(matches!(decode_records(&bytes), Err(HexitError::Truncated)));
    assert!(matches!(decode_records(&bytes[0..4]), Err(HexitError::Truncated)));
}

#[test]
fn test_record_stream_trailing_bytes() {
    let rs: Vec<(u64, i16)> = vec![(1, 1)];
    let mut bytes = encode_records(&rs);
    bytes.push(0);
    assert!(matches!(decode_records(&bytes), Err(HexitError::TrailingBytes)));
}

#[test]
fn test_tessellation_gzip_round_trip() {
    let rs: Vec<(u64, i16)> = vec![(cell_raw(9, &[2, 2]), 120), (cell_raw(9, &[2, 3]), 121)];
    let gz = write_tessellation(&rs, 6);
    // A gzip stream starts with the gzip magic, so the compressor
    // really ran.
    assert_eq!(gz[0], 0x1f);
    assert_eq!(gz[1], 0x8b);
    let back = read_tessellation(&gz).unwrap();
    assert_eq!(rs, back);
}

#[test]
fn test_gzip_decompress_rejects_garbage() {
    assert!(gzip_decompress(&[1, 2, 3, 4]).is_err());
}

#[test]
fn test_insert_records_rejects_invalid_cell() {
    let mut tree: HexTreeMap<_, ReductionCompactor> = HexTreeMap::with_compactor(
        ReductionCompactor { target_resolution: 0, source_resolution: 1 },
    );
    let rs: Vec<(u64, i16)> = vec![(cell_raw(1, &[0]), 5), (0, 9)];
    let r = insert_records(&mut tree, &rs);
    assert!(matches!(r, Err(HexitError::InvalidCell(0))));
}

#[test]
fn test_reduction_pipeline() {
    // Seven siblings at resolution 1 collapse into their base cell
    // with the full expected count, and reduce to (min, avg, max).
    let mut tree: HexTreeMap<_, ReductionCompactor> = HexTreeMap::with_compactor(
        ReductionCompactor { target_resolution: 0, source_resolution: 1 },
    );
    let mut rs: Vec<(u64, i16)> = Vec::new();
    for d in 0..7u64 {
        rs.push((cell_raw(8, &[d]), 100 + d as i16));
    }
    insert_records(&mut tree, &rs).unwrap();
    assert_eq!(tree.len(), 1);
    let reduced = reduce_hextree(&tree, 1, 0);
    assert_eq!(reduced.len(), 1);
    let (cell, red) = reduced[0];
    assert_eq!(cell.into_raw(), cell_raw(8, &[]));
    assert_eq!(red.min, 100);
    assert_eq!(red.avg, 103);
    assert_eq!(red.max, 106);

    // The reduced tree serializes, and the cell seeks back.
    let rtree = build_reduced_tree(&reduced);
    let bytes = to_disktree(&rtree);
    let probe = Cell::from_raw(cell_raw(8, &[])).unwrap();
    let (raw, got) = seek(&bytes, probe).unwrap().unwrap();
    assert_eq!(raw, cell_raw(8, &[]));
    assert_eq!(got, red);
}

#[test]
fn test_reduction_skips_partial_summaries() {
    // Six of seven siblings never collapse and are not emitted at the
    // target resolution.
    let mut tree: HexTreeMap<_, ReductionCompactor> = HexTreeMap::with_compactor(
        ReductionCompactor { target_resolution: 0, source_resolution: 1 },
    );
    let mut rs: Vec<(u64, i16)> = Vec::new();
    for d in 0..6u64 {
        rs.push((cell_raw(8, &[d]), 100));
    }
    insert_records(&mut tree, &rs).unwrap();
    assert_eq!(tree.len(), 6);
    let reduced = reduce_hextree(&tree, 1, 0);
    assert_eq!(reduced.len(), 0);
}

#[test]
fn test_combine_order_insensitive() {
    // Combining the same records in different orders yields
    // bit-identical serialized trees.
    let mut rs: Vec<(u64, i16)> = Vec::new();
    for d in 0..7u64 {
        rs.push((cell_raw(8, &[d]), 100 + d as i16));
    }
    for d in 0..5u64 {
        rs.push((cell_raw(9, &[2, d]), 50));
    }
    let mut reversed = rs.clone();
    reversed.reverse();

    let mut t1: HexTreeMap<_, ReductionCompactor> = HexTreeMap::with_compactor(
        ReductionCompactor { target_resolution: 0, source_resolution: 1 },
    );
    insert_records(&mut t1, &rs).unwrap();
    let mut t2: HexTreeMap<_, ReductionCompactor> = HexTreeMap::with_compactor(
        ReductionCompactor { target_resolution: 0, source_resolution: 1 },
    );
    insert_records(&mut t2, &reversed).unwrap();

    let r1 = reduce_hextree(&t1, 1, 0);
    let r2 = reduce_hextree(&t2, 1, 0);
    let b1 = to_disktree(&build_reduced_tree(&r1));
    let b2 = to_disktree(&build_reduced_tree(&r2));
    assert_eq!(b1, b2);
}

#[test]
fn test_tessellation_tree_dedups_cells() {
    let rs: Vec<(u64, i16)> = vec![
        (cell_raw(4, &[1, 1]), 10),
        (cell_raw(4, &[1, 2]), 11),
        (cell_raw(4, &[1, 1]), 12),
    ];
    let tree = build_tessellation_tree(&rs).unwrap();
    // The duplicate cell keeps the last value.
    assert_eq!(tree.len(), 2);
    let probe = geoprof::cell::Cell::from_raw(cell_raw(4, &[1, 1])).unwrap();
    let (_, v) = tree.get(probe).unwrap();
    assert_eq!(v, 12);
    assert!(build_tessellation_tree(&vec![(3, 0)]).is_err());
}
