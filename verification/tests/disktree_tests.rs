use geoprof::cell::Cell;
use geoprof::disktree::{to_disktree, seek, seek_in, entries_in};
use geoprof::elevation::ReducedElevation;
use geoprof::hextree::{HexTreeMap, NullCompactor};

/// A canonical cell index with the given base and digits.
fn cell_raw(base: u64, digits: &[u64]) -> u64 {
    let res = digits.len() as u64;
    let mut raw: u64 = (1u64 << 59) | (res << 52) | (base << 45);
    for k in 0..15u64 {
        let d: u64 = if (k as usize) < digits.len() { digits[k as usize] } else { 7 };
        raw |= d << ((14 - k) * 3);
    }
    raw
}

fn sample_tree() -> (HexTreeMap<ReducedElevation, NullCompactor>, Vec<Cell>) {
    let mut map: HexTreeMap<ReducedElevation, NullCompactor> =
        HexTreeMap::with_compactor(NullCompactor);
    let cells = vec![
        Cell::from_raw(cell_raw(3, &[1, 4])).unwrap(),
        Cell::from_raw(cell_raw(3, &[1, 5])).unwrap(),
        Cell::from_raw(cell_raw(70, &[])).unwrap(),
        Cell::from_raw(cell_raw(121, &[6, 6, 6])).unwrap(),
    ];
    for (i, c) in cells.iter().enumerate() {
        let v: i16 = (i as i16 + 1) * 10;
        map.insert(*c, ReducedElevation { min: v - 1, avg: v, max: v + 1 });
    }
    (map, cells)
}

#[test]
fn test_disktree_round_trip() {
    let (map, cells) = sample_tree();
    let bytes = to_disktree(&map);
    for c in &cells {
        let (raw, red) = seek_in(&bytes, *c, &map).unwrap().unwrap();
        let (tc, tv) = map.get(*c).unwrap();
        assert_eq!(raw, tc.into_raw());
        assert_eq!(red, tv);
    }
}

#[test]
fn test_disktree_seek_matches_seek_in() {
    let (map, cells) = sample_tree();
    let bytes = to_disktree(&map);
    for c in &cells {
        let a = seek(&bytes, *c).unwrap();
        let b = seek_in(&bytes, *c, &map).unwrap();
        assert_eq!(a, b);
    }
}

#[test]
fn test_disktree_seek_missing() {
    let (map, _) = sample_tree();
    let bytes = to_disktree(&map);
    let missing = Cell::from_raw(cell_raw(50, &[0])).unwrap();
    assert_eq!(seek(&bytes, missing).unwrap(), None);
    // A cousin under an occupied base but an empty branch.
    let cousin = Cell::from_raw(cell_raw(3, &[2, 2])).unwrap();
    assert_eq!(seek(&bytes, cousin).unwrap(), None);
}

#[test]
fn test_disktree_seek_finds_compacted_ancestor() {
    let (map, _) = sample_tree();
    let bytes = to_disktree(&map);
    // A child of a stored leaf answers with the stored cell.
    let child = Cell::from_raw(cell_raw(70, &[3])).unwrap();
    let (raw, _) = seek(&bytes, child).unwrap().unwrap();
    assert_eq!(raw, cell_raw(70, &[]));
}

#[test]
fn test_disktree_header_counts_leaves() {
    let (map, _) = sample_tree();
    let bytes = to_disktree(&map);
    let count = u64::from_le_bytes(bytes[0..8].try_into().unwrap());
    assert_eq!(count as usize, map.len());
}

#[test]
fn test_disktree_rejects_garbage() {
    let cell = Cell::from_raw(cell_raw(3, &[1])).unwrap();
    assert!(seek(&[0u8; 10], cell).is_err());
    let garbage: Vec<u8> = vec![0xabu8; 2000];
    assert!(seek(&garbage, cell).is_err());
}

#[test]
fn test_disktree_iterate_matches_tree() {
    let (map, _) = sample_tree();
    let bytes = to_disktree(&map);
    let from_disk = entries_in(&bytes, &map);
    let from_tree: Vec<(u64, geoprof::elevation::ReducedElevation)> =
        map.entries().iter().map(|p| (p.0.into_raw(), p.1)).collect();
    assert_eq!(from_disk, from_tree);
    assert_eq!(from_disk.len(), 4);
}
