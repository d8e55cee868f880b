use geoprof::coords::{parse_sw_corner, file_name, extract_resolution, SwCoord};

#[test]
fn lib_test_parse_hgt_name() {
    let sw_corner = parse_sw_corner("N44W072").unwrap();
    assert_eq!(sw_corner, SwCoord { x: -72, y: 44 });
    let resolution = extract_resolution(25934402).unwrap();
    assert_eq!(resolution, (1, (3601, 3601)));
}

#[test]
fn nasadem_test_parse_hgt_name() {
    let sw_corner = parse_sw_corner("N44W072").unwrap();
    assert_eq!(sw_corner, SwCoord { x: -72, y: 44 });
    let resolution = extract_resolution(2884802).unwrap();
    assert_eq!(resolution, (3, (1201, 1201)));
}

#[test]
fn test_parse_rejects_bad_names() {
    assert!(parse_sw_corner("X44W072").is_err());
    assert!(parse_sw_corner("N4W072").is_err());
    assert!(parse_sw_corner("N44Q072").is_err());
    assert!(parse_sw_corner("N44W07a").is_err());
    assert!(parse_sw_corner("").is_err());
    assert!(parse_sw_corner("S90E000").is_ok());
}

#[test]
fn test_extract_resolution_rejects_other_lengths() {
    assert!(extract_resolution(0).is_err());
    assert!(extract_resolution(25934401).is_err());
    assert!(extract_resolution(2884803).is_err());
}

#[test]
fn tiles_test_file_name() {
    let name = file_name(SwCoord { x: 0, y: 0 });
    assert_eq!(name, "N00E000.hgt");

    let name = file_name(SwCoord { x: -1, y: 0 });
    assert_eq!(name, "N00W001.hgt");

    let name = file_name(SwCoord { x: -1, y: -1 });
    assert_eq!(name, "S01W001.hgt");

    let name = file_name(SwCoord { x: 0, y: -1 });
    assert_eq!(name, "S01E000.hgt");
}

#[test]
fn aggregator_test_file_name() {
    let name = file_name(SwCoord { x: -72, y: 44 });
    assert_eq!(name, "N44W072.hgt");
}

#[test]
fn tile_source_test_file_name() {
    let name = file_name(SwCoord { x: -72, y: 44 });
    assert_eq!(name, "N44W072.hgt");
}

#[test]
fn test_file_name_parse_round_trip() {
    let coords = [(-180i16, -90i16), (180, 90), (0, 0), (-72, 44), (7, -3)];
    for (x, y) in coords {
        let name = file_name(SwCoord { x, y });
        let stem = &name[0..7];
        let parsed = parse_sw_corner(stem).unwrap();
        assert_eq!(parsed, SwCoord { x, y });
    }
}
