use geoprof::coords::SwCoord;
use geoprof::errors::TerrainError;
use geoprof::store::{tile_from_outcome, store_file_name, is_hgt_extension, FileOutcome};
use geoprof::tile::Tile;

/// Raw bytes of a 3-arcsecond tile whose sample at linear index `i`
/// is `i` modulo 32768, big-endian.
fn three_arcsecond_bytes() -> Vec<u8> {
    let total: usize = 1201 * 1201;
    let mut bytes: Vec<u8> = Vec::with_capacity(total * 2);
    for i in 0..total {
        let v: i16 = (i % 32768) as i16;
        let be = v.to_be_bytes();
        bytes.push(be[0]);
        bytes.push(be[1]);
    }
    bytes
}

#[test]
fn lib_test_tile_open() {
    let bytes = three_arcsecond_bytes();
    Tile::parse("N44W072", &bytes).unwrap();
}

#[test]
fn nasadem_test_tile_open() {
    let bytes = three_arcsecond_bytes();
    let tile = Tile::parse("N44W072", &bytes).unwrap();
    assert_eq!(tile.resolution(), 3);
    assert_eq!(tile.dimensions(), (1201, 1201));
    assert_eq!(tile.sw_corner(), SwCoord { x: -72, y: 44 });
}

#[test]
fn lib_test_tile_index() {
    let bytes = three_arcsecond_bytes();
    let tile = Tile::parse("N44W072", &bytes).unwrap();
    let mut idx: usize = 0;
    for row in (0..1201usize).rev() {
        for col in 0..1201usize {
            let expected: i16 = (idx % 32768) as i16;
            assert_eq!(expected, tile.get_xy(col, row));
            idx += 1;
        }
    }
}

#[test]
fn lib_test_tile_index_conversions() {
    let bytes = three_arcsecond_bytes();
    let tile = Tile::parse("N44W072", &bytes).unwrap();
    for row in (0..1201usize).rev() {
        for col in 0..1201usize {
            let d1 = tile.xy_to_linear_index(col, row);
            let roundtrip_2d = tile.linear_index_to_xy(d1);
            assert_eq!((col, row), roundtrip_2d);
        }
    }
}

#[test]
fn test_tile_rejects_wrong_length() {
    let bytes: Vec<u8> = vec![0u8; 100];
    assert!(Tile::parse("N44W072", &bytes).is_err());
}

#[test]
fn test_tile_min_max() {
    let bytes = three_arcsecond_bytes();
    let tile = Tile::parse("N44W072", &bytes).unwrap();
    assert_eq!(tile.min_elevation(), 0);
    assert_eq!(tile.max_elevation(), 32767);
}

#[test]
fn test_tile_get_xy_checked_bounds() {
    let tile = Tile::tombstone(SwCoord { x: -72, y: 44 });
    assert_eq!(tile.get_xy_checked(0, 0), Some(0));
    assert_eq!(tile.get_xy_checked(1200, 1200), Some(0));
    assert_eq!(tile.get_xy_checked(1201, 0), None);
    assert_eq!(tile.get_xy_checked(0, 1201), None);
    assert_eq!(tile.get_xy_checked(-1, 5), None);
    assert_eq!(tile.get_xy_checked(5, -1), None);
}

#[test]
fn tiles_test_missing_tile_returns_0() {
    // Querying the south pole from a store with no matching file
    // yields a tombstone that reads zero.
    let sw = SwCoord { x: 0, y: -90 };
    let stem_name = store_file_name(sw);
    let stem = &stem_name[0..7];
    let tile = tile_from_outcome(sw, stem, FileOutcome::NotFound).unwrap();
    assert_eq!(tile.get_xy(600, 600), 0);
}

#[test]
fn tile_source_test_missing_tile_returns_0() {
    let sw = SwCoord { x: 0, y: -90 };
    let stem_name = store_file_name(sw);
    let stem = &stem_name[0..7];
    let tile = tile_from_outcome(sw, stem, FileOutcome::NotFound).unwrap();
    assert_eq!(tile.get_xy(0, 0), 0);
    assert_eq!(tile.resolution(), 3);
    assert_eq!(tile.sw_corner(), sw);
}

#[test]
fn test_store_loads_bytes() {
    let sw = SwCoord { x: -72, y: 44 };
    let stem_name = store_file_name(sw);
    assert_eq!(stem_name, "N44W072.hgt");
    let stem = &stem_name[0..7];
    let bytes = three_arcsecond_bytes();
    let tile = tile_from_outcome(sw, stem, FileOutcome::Bytes(bytes)).unwrap();
    assert_eq!(tile.sw_corner(), sw);
    assert_eq!(tile.get_xy(0, 1200), 0);
}

#[test]
fn test_store_surfaces_io_errors() {
    let sw = SwCoord { x: -72, y: 44 };
    let stem_name = store_file_name(sw);
    let stem = &stem_name[0..7];
    let r = tile_from_outcome(sw, stem, FileOutcome::IoError(String::from("denied")));
    assert!(matches!(r, Err(TerrainError::Io(_))));
}

#[test]
fn test_is_hgt_extension() {
    assert!(is_hgt_extension("hgt"));
    assert!(is_hgt_extension("HGT"));
    assert!(is_hgt_extension("hGt"));
    assert!(!is_hgt_extension("txt"));
    assert!(!is_hgt_extension("hgtx"));
    assert!(!is_hgt_extension(""));
}
