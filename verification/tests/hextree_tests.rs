use geoprof::cell::Cell;
use geoprof::elevation::Elevation;
use geoprof::hextree::{HexTreeMap, NullCompactor, EqCompactor};

/// A canonical cell index with the given base and digits; digits past
/// the resolution read 7.
fn cell_raw(base: u64, digits: &[u64]) -> u64 {
    let res = digits.len() as u64;
    let mut raw: u64 = (1u64 << 59) | (res << 52) | (base << 45);
    for k in 0..15u64 {
        let d: u64 = if (k as usize) < digits.len() { digits[k as usize] } else { 7 };
        raw |= d << ((14 - k) * 3);
    }
    raw
}

#[test]
fn test_cell_from_raw_accepts_canonical() {
    let raw = cell_raw(0, &[2, 0]);
    let cell = Cell::from_raw(raw).unwrap();
    assert_eq!(cell.into_raw(), raw);
    assert_eq!(cell.res(), 2);
    assert_eq!(cell.base(), 0);
    assert_eq!(cell.digit(1), 2);
    assert_eq!(cell.digit(2), 0);
    assert_eq!(cell.digit(3), 7);
}

#[test]
fn test_cell_from_raw_rejects_invalid() {
    // Wrong mode.
    assert!(Cell::from_raw(0).is_err());
    // Base out of range.
    assert!(Cell::from_raw(cell_raw(122, &[])).is_err());
    // A digit of 7 within the resolution.
    assert!(Cell::from_raw(cell_raw(5, &[7])).is_err());
    // A trailing digit that is not 7.
    let mut raw = cell_raw(5, &[1]);
    raw &= !(7u64 << 39);
    assert!(Cell::from_raw(raw).is_err());
    // Reserved bit set.
    assert!(Cell::from_raw(cell_raw(5, &[1]) | (1u64 << 63)).is_err());
}

#[test]
fn test_cell_to_parent() {
    let cell = Cell::from_raw(cell_raw(9, &[1, 2, 3])).unwrap();
    let parent = cell.to_parent(1);
    assert_eq!(parent.res(), 1);
    assert_eq!(parent.base(), 9);
    assert_eq!(parent.digit(1), 1);
    assert_eq!(parent.digit(2), 7);
    assert_eq!(parent.into_raw(), cell_raw(9, &[1]));
    assert_eq!(cell.to_parent(3).into_raw(), cell.into_raw());
}

#[test]
fn test_insert_then_get() {
    let mut map: HexTreeMap<i16, NullCompactor> = HexTreeMap::with_compactor(NullCompactor);
    let cell = Cell::from_raw(cell_raw(3, &[1, 4])).unwrap();
    map.insert(cell, 51);
    let (found, v) = map.get(cell).unwrap();
    assert_eq!(found.into_raw(), cell.into_raw());
    assert_eq!(v, 51);
    assert_eq!(map.len(), 1);
}

#[test]
fn test_get_missing_is_none() {
    let map: HexTreeMap<i16, NullCompactor> = HexTreeMap::with_compactor(NullCompactor);
    let cell = Cell::from_raw(cell_raw(3, &[1, 4])).unwrap();
    assert!(map.get(cell).is_none());
}

#[test]
fn test_get_through_compacted_ancestor() {
    let mut map: HexTreeMap<i16, NullCompactor> = HexTreeMap::with_compactor(NullCompactor);
    let parent = Cell::from_raw(cell_raw(3, &[1])).unwrap();
    map.insert(parent, 9);
    // A child of the stored cell answers with the stored ancestor.
    let child = Cell::from_raw(cell_raw(3, &[1, 4])).unwrap();
    let (found, v) = map.get(child).unwrap();
    assert_eq!(found.into_raw(), parent.into_raw());
    assert_eq!(v, 9);
}

#[test]
fn test_eq_compactor_collapses_equal_siblings() {
    let mut map: HexTreeMap<i16, EqCompactor> = HexTreeMap::with_compactor(EqCompactor);
    for d in 0..7u64 {
        let cell = Cell::from_raw(cell_raw(3, &[d])).unwrap();
        map.insert(cell, 42);
    }
    // Seven equal siblings collapse into the base cell.
    assert_eq!(map.len(), 1);
    let probe = Cell::from_raw(cell_raw(3, &[5])).unwrap();
    let (found, v) = map.get(probe).unwrap();
    assert_eq!(found.into_raw(), cell_raw(3, &[]));
    assert_eq!(v, 42);
}

#[test]
fn test_eq_compactor_keeps_unequal_siblings() {
    let mut map: HexTreeMap<i16, EqCompactor> = HexTreeMap::with_compactor(EqCompactor);
    for d in 0..7u64 {
        let cell = Cell::from_raw(cell_raw(3, &[d])).unwrap();
        map.insert(cell, d as i16);
    }
    assert_eq!(map.len(), 7);
    let probe = Cell::from_raw(cell_raw(3, &[5])).unwrap();
    let (found, v) = map.get(probe).unwrap();
    assert_eq!(found.into_raw(), probe.into_raw());
    assert_eq!(v, 5);
}

#[test]
fn test_eq_compactor_elevations() {
    let mut map: HexTreeMap<Elevation, EqCompactor> = HexTreeMap::with_compactor(EqCompactor);
    for d in 0..7u64 {
        let cell = Cell::from_raw(cell_raw(3, &[d])).unwrap();
        map.insert(cell, Elevation::new(100));
    }
    assert_eq!(map.len(), 1);
}

#[test]
fn test_entries_in_digit_order() {
    let mut map: HexTreeMap<i16, NullCompactor> = HexTreeMap::with_compactor(NullCompactor);
    let c2 = Cell::from_raw(cell_raw(3, &[2])).unwrap();
    let c0 = Cell::from_raw(cell_raw(3, &[0])).unwrap();
    let c5 = Cell::from_raw(cell_raw(3, &[5])).unwrap();
    map.insert(c5, 5);
    map.insert(c0, 0);
    map.insert(c2, 2);
    let entries = map.entries();
    let raws: Vec<u64> = entries.iter().map(|p| p.0.into_raw()).collect();
    assert_eq!(raws, vec![c0.into_raw(), c2.into_raw(), c5.into_raw()]);
}

#[test]
fn test_insert_overwrites_at_same_cell() {
    let mut map: HexTreeMap<i16, NullCompactor> = HexTreeMap::with_compactor(NullCompactor);
    let cell = Cell::from_raw(cell_raw(3, &[1, 4])).unwrap();
    map.insert(cell, 1);
    map.insert(cell, 2);
    assert_eq!(map.len(), 1);
    let (_, v) = map.get(cell).unwrap();
    assert_eq!(v, 2);
}
