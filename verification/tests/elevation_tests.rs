use geoprof::elevation::{Elevation, ReducedElevation};

#[test]
fn test_elevation_new() {
    let e = Elevation::new(42);
    assert_eq!(e.min, 42);
    assert_eq!(e.max, 42);
    assert_eq!(e.sum, 42);
    assert_eq!(e.n, 1);

    let e = Elevation::new(-7);
    assert_eq!(e.min, -7);
    assert_eq!(e.max, -7);
    assert_eq!(e.sum, -7);
    assert_eq!(e.n, 1);
}

#[test]
fn test_elevation_concat() {
    let items = vec![Elevation::new(1), Elevation::new(2), Elevation::new(3)];
    let combined = Elevation::concat(&items);
    assert_eq!(combined.min, 1);
    assert_eq!(combined.max, 3);
    assert_eq!(combined.sum, 6);
    assert_eq!(combined.n, 3);
}

#[test]
fn test_elevation_concat_empty_is_neutral() {
    let items: Vec<Elevation> = Vec::new();
    let combined = Elevation::concat(&items);
    assert_eq!(combined.min, i16::MAX);
    assert_eq!(combined.max, i16::MIN);
    assert_eq!(combined.sum, 0);
    assert_eq!(combined.n, 0);
}

#[test]
fn test_elevation_concat_order_insensitive() {
    let a = vec![Elevation::new(5), Elevation::new(-3), Elevation::new(9)];
    let b = vec![Elevation::new(9), Elevation::new(5), Elevation::new(-3)];
    let ca = Elevation::concat(&a);
    let cb = Elevation::concat(&b);
    assert_eq!(ca, cb);
}

#[test]
fn test_reduce_average_between_extremes() {
    let e = Elevation { min: 1, max: 3, sum: 6, n: 3 };
    let r = e.reduce();
    assert_eq!(r.min, 1);
    assert_eq!(r.avg, 2);
    assert_eq!(r.max, 3);
}

#[test]
fn test_reduce_truncates_toward_zero() {
    let e = Elevation { min: -5, max: 0, sum: -7, n: 2 };
    let r = e.reduce();
    assert_eq!(r.avg, -3);
    assert!(r.min <= r.avg && r.avg <= r.max);
}

#[test]
fn test_elevation_bytes_round_trip() {
    let e = Elevation { min: -100, max: 2000, sum: 123456, n: 77 };
    let bytes = e.to_bytes();
    assert_eq!(bytes.len(), 12);
    let back = Elevation::from_bytes(&bytes).unwrap();
    assert_eq!(e, back);
    assert!(Elevation::from_bytes(&bytes[0..11]).is_err());
}

#[test]
fn test_reduced_bytes_round_trip() {
    let r = ReducedElevation { min: -10, avg: 5, max: 30 };
    let bytes = r.to_bytes();
    assert_eq!(bytes.len(), 6);
    let back = ReducedElevation::from_bytes(&bytes).unwrap();
    assert_eq!(r, back);
    assert!(ReducedElevation::from_bytes(&bytes[0..5]).is_err());
}

#[test]
fn test_elevation_bytes_little_endian_layout() {
    let e = Elevation { min: 1, max: 2, sum: 3, n: 4 };
    let bytes = e.to_bytes();
    assert_eq!(&bytes[..], &[1, 0, 2, 0, 3, 0, 0, 0, 4, 0, 0, 0]);
}
