use zipdip::codec::{frame, unframe, FORMAT_VERSION};
use zipdip::geometry::bounding_rect;
use zipdip::zip::parse_zip;
use zipdip::{process_shape, Coord, Polygon, Rect, ZipCodeDb, ZipCodeError, ZipShape};

fn c(lat: f64, lon: f64) -> Coord {
    Coord {
        x: (lon * 1e6).round() as i64,
        y: (lat * 1e6).round() as i64,
    }
}

/// A square with corners `(lat0, lon0)` and `(lat1, lon1)`.
fn square(lat0: f64, lon0: f64, lat1: f64, lon1: f64) -> Polygon {
    Polygon {
        exterior: vec![c(lat0, lon0), c(lat0, lon1), c(lat1, lon1), c(lat1, lon0), c(lat0, lon0)],
        interiors: vec![],
    }
}

fn area(zip: &str, polys: Vec<Polygon>, centroid: Coord) -> ZipShape {
    process_shape(zip, polys, centroid).unwrap()
}

/// San Francisco, New York and Beverly Hills, as squares around their centres.
fn sample() -> Vec<ZipShape> {
    vec![
        area("94102", vec![square(37.77, -122.43, 37.79, -122.41)], c(37.78, -122.42)),
        area("10001", vec![square(40.74, -74.00, 40.76, -73.98)], c(40.75, -73.99)),
        area("90210", vec![square(34.09, -118.42, 34.11, -118.40)], c(34.10, -118.41)),
    ]
}

#[test]
fn exact_lookup_returns_stored_point() {
    let db = ZipCodeDb::from_entries(sample()).unwrap();
    let p = db.zip_to_centroid("94102").unwrap();
    assert!((p.y as f64 / 1e6 - 37.78).abs() < 0.1);
    assert!((p.x as f64 / 1e6 - (-122.42)).abs() < 0.1);
    assert_eq!(db.zip_to_centroid("10001").unwrap(), c(40.75, -73.99));
    assert_eq!(db.zip_to_centroid("90210").unwrap(), c(34.10, -118.41));
    assert!(matches!(db.zip_to_centroid("00000"), Err(ZipCodeError::ZipNotFound(_))));
}

#[test]
fn reverse_lookup_inside_polygon() {
    let db = ZipCodeDb::from_entries(sample()).unwrap();
    let zip = db.lat_lon_to_zip(37_779_300, -122_419_300).unwrap();
    assert!(zip.starts_with("941"));
    assert_eq!(db.lat_lon_to_zip(40_758_900, -73_985_100).unwrap(), "10001");
}

#[test]
fn reverse_lookup_falls_back_to_nearest_centroid() {
    let db = ZipCodeDb::from_entries(sample()).unwrap();
    // Oakland lies in no square; San Francisco's point is the nearest.
    assert_eq!(db.lat_lon_to_zip(37_804_400, -122_271_100).unwrap(), "94102");
    // Philadelphia is nearest to New York.
    assert_eq!(db.lat_lon_to_zip(39_952_600, -75_165_200).unwrap(), "10001");
}

#[test]
fn reverse_lookup_respects_holes() {
    let mut ring = square(0.0, 0.0, 10.0, 10.0);
    ring.interiors.push(square(4.0, 4.0, 6.0, 6.0).exterior);
    let entries = vec![
        area("11111", vec![ring], c(2.0, 2.0)),
        area("22222", vec![square(5.5, 10.5, 6.5, 11.5)], c(6.0, 11.0)),
    ];
    let db = ZipCodeDb::from_entries(entries).unwrap();
    assert_eq!(db.lat_lon_to_zip(1_000_000, 1_000_000).unwrap(), "11111");
    // Inside the hole: no polygon holds it, and 22222's point is nearest.
    assert_eq!(db.lat_lon_to_zip(5_800_000, 5_800_000).unwrap(), "22222");
}

#[test]
fn reverse_lookup_multi_polygon_area() {
    let entries = vec![
        area(
            "33333",
            vec![square(0.0, 0.0, 1.0, 1.0), square(0.0, 3.0, 1.0, 4.0)],
            c(0.5, 2.0),
        ),
        area("44444", vec![square(0.0, 1.5, 1.0, 2.5)], c(0.5, 2.0)),
    ];
    let db = ZipCodeDb::from_entries(entries).unwrap();
    assert_eq!(db.lat_lon_to_zip(500_000, 3_500_000).unwrap(), "33333");
    assert_eq!(db.lat_lon_to_zip(500_000, 2_000_000).unwrap(), "44444");
}

#[test]
fn repeated_queries_agree() {
    let db = ZipCodeDb::from_entries(sample()).unwrap();
    for (lat, lon) in [(37_779_300, -122_419_300), (0, 0), (-45_000_000, 170_000_000)] {
        assert_eq!(db.lat_lon_to_zip(lat, lon).unwrap(), db.lat_lon_to_zip(lat, lon).unwrap());
    }
    assert_eq!(db.zip_to_centroid("90210").unwrap(), db.zip_to_centroid("90210").unwrap());
}

#[test]
fn coordinate_bounds_are_inclusive() {
    let db = ZipCodeDb::from_entries(sample()).unwrap();
    assert!(db.lat_lon_to_zip(90_000_000, 180_000_000).is_ok());
    assert!(db.lat_lon_to_zip(-90_000_000, -180_000_000).is_ok());
    match db.lat_lon_to_zip(90_000_001, 0) {
        Err(ZipCodeError::InvalidCoordinates(lat, lon)) => {
            assert_eq!(lat, 90_000_001);
            assert_eq!(lon, 0);
        }
        other => panic!("unexpected {:?}", other),
    }
    assert!(matches!(
        db.lat_lon_to_zip(0, -180_000_001),
        Err(ZipCodeError::InvalidCoordinates(_, _))
    ));
}

#[test]
fn invalid_zip_carries_input() {
    let db = ZipCodeDb::from_entries(sample()).unwrap();
    match db.zip_to_centroid("9410") {
        Err(ZipCodeError::InvalidZipFormat(s)) => assert_eq!(s, "9410"),
        other => panic!("unexpected {:?}", other),
    }
    assert!(matches!(db.zip_to_centroid("９４１０２"), Err(ZipCodeError::InvalidZipFormat(_))));
    assert!(matches!(db.zip_to_centroid(""), Err(ZipCodeError::InvalidZipFormat(_))));
}

#[test]
fn load_rejects_duplicate_zip() {
    let mut entries = sample();
    entries.push(area("94102", vec![square(1.0, 1.0, 2.0, 2.0)], c(1.5, 1.5)));
    assert!(matches!(ZipCodeDb::from_entries(entries), Err(ZipCodeError::DataLoadError(_))));
}

#[test]
fn load_rejects_malformed_area() {
    let bad_zip = vec![area("9410x", vec![square(1.0, 1.0, 2.0, 2.0)], c(1.5, 1.5))];
    assert!(matches!(ZipCodeDb::from_entries(bad_zip), Err(ZipCodeError::DataLoadError(_))));
    let outside = vec![area("12345", vec![square(1.0, 1.0, 2.0, 2.0)], c(3.0, 3.0))];
    assert!(matches!(ZipCodeDb::from_entries(outside), Err(ZipCodeError::DataLoadError(_))));
    let far = vec![area("12345", vec![square(1.0, 1.0, 2.0, 200.0)], c(1.5, 1.5))];
    assert!(matches!(ZipCodeDb::from_entries(far), Err(ZipCodeError::DataLoadError(_))));
}

#[test]
fn empty_load_behaves_as_empty_database() {
    let db = ZipCodeDb::from_entries(vec![]).unwrap();
    assert!(matches!(db.lat_lon_to_zip(0, 0), Err(ZipCodeError::DataLoadError(_))));
    assert!(matches!(db.zip_to_centroid("94102"), Err(ZipCodeError::ZipNotFound(_))));
}

#[test]
fn bounding_rect_is_tight() {
    let shape = vec![
        Polygon {
            exterior: vec![Coord { x: 3, y: -2 }, Coord { x: 7, y: 5 }, Coord { x: -1, y: 1 }],
            interiors: vec![],
        },
        Polygon { exterior: vec![Coord { x: 4, y: 9 }], interiors: vec![] },
    ];
    let r = bounding_rect(&shape).unwrap();
    assert_eq!(r, Rect { min: Coord { x: -1, y: -2 }, max: Coord { x: 7, y: 9 } });
    assert!(bounding_rect(&vec![]).is_none());
    let hollow = vec![Polygon { exterior: vec![], interiors: vec![] }];
    assert!(bounding_rect(&hollow).is_none());
    assert!(process_shape("12345", hollow, Coord { x: 0, y: 0 }).is_none());
}

#[test]
fn shape_methods() {
    let s = area("12345", vec![square(1.0, 1.0, 2.0, 3.0)], c(1.5, 2.0));
    assert_eq!(s.envelope(), Rect { min: c(1.0, 1.0), max: c(2.0, 3.0) });
    assert_eq!(s.distance_2(c(1.5, 2.0)), 0);
    assert_eq!(s.distance_2(Coord { x: 2_000_003, y: 1_500_004 }), 25);
    assert!(s.contains(c(1.2, 2.5)));
    assert!(!s.contains(c(2.5, 2.5)));
}

#[test]
fn first_containing_picks_first_holder() {
    let db = ZipCodeDb::from_entries(sample()).unwrap();
    let p = c(40.75, -73.99);
    assert_eq!(db.first_containing(&vec![0, 2, 1, 1], p), Some(2));
    assert_eq!(db.first_containing(&vec![0, 2, 7], p), None);
    assert_eq!(db.first_containing(&vec![], p), None);
}

#[test]
fn frame_round_trip() {
    let payload = vec![1u8, 2, 3, 250];
    let bytes = frame(&payload);
    assert_eq!(bytes.len(), payload.len() + 5);
    assert_eq!(bytes[4], FORMAT_VERSION);
    assert_eq!(unframe(&bytes).unwrap(), payload);
    assert_eq!(unframe(&frame(&vec![])).unwrap(), Vec::<u8>::new());
}

#[test]
fn unframe_rejects_foreign_bytes() {
    assert!(matches!(unframe(&vec![1, 2, 3]), Err(ZipCodeError::DataLoadError(_))));
    assert!(matches!(unframe(&vec![0x5a, 0x49, 0x50, 0x45, 1, 0]), Err(ZipCodeError::DataLoadError(_))));
    assert!(matches!(unframe(&vec![0x5a, 0x49, 0x50, 0x44, 2, 0]), Err(ZipCodeError::DataLoadError(_))));
}

type Plain = (String, Vec<(Vec<(i64, i64)>, Vec<Vec<(i64, i64)>>)>, (i64, i64, i64, i64), (i64, i64));

fn to_plain(s: &ZipShape) -> Plain {
    let ring = |r: &Vec<Coord>| r.iter().map(|c| (c.x, c.y)).collect::<Vec<_>>();
    (
        s.zip.clone(),
        s.shape.iter().map(|p| (ring(&p.exterior), p.interiors.iter().map(ring).collect())).collect(),
        (s.bbox.min.x, s.bbox.min.y, s.bbox.max.x, s.bbox.max.y),
        (s.centroid.x, s.centroid.y),
    )
}

fn from_plain(p: Plain) -> ZipShape {
    let ring = |r: Vec<(i64, i64)>| r.into_iter().map(|(x, y)| Coord { x, y }).collect::<Vec<_>>();
    ZipShape {
        zip: p.0,
        shape: p.1.into_iter().map(|(e, h)| Polygon { exterior: ring(e), interiors: h.into_iter().map(ring).collect() }).collect(),
        bbox: Rect { min: Coord { x: p.2 .0, y: p.2 .1 }, max: Coord { x: p.2 .2, y: p.2 .3 } },
        centroid: Coord { x: p.3 .0, y: p.3 .1 },
    }
}

#[test]
fn persisted_round_trip_keeps_answers() {
    let before = ZipCodeDb::from_entries(sample()).unwrap();
    let plain: Vec<Plain> = sample().iter().map(to_plain).collect();
    let payload = bincode::serde::encode_to_vec(&plain, bincode::config::standard()).unwrap();
    let bytes = frame(&payload);
    let inner = unframe(&bytes).unwrap();
    let (decoded, _): (Vec<Plain>, usize) =
        bincode::serde::decode_from_slice(&inner, bincode::config::standard()).unwrap();
    let after = ZipCodeDb::from_entries(decoded.into_iter().map(from_plain).collect()).unwrap();
    for zip in ["94102", "10001", "90210", "12345", "abc"] {
        assert_eq!(format!("{:?}", before.zip_to_centroid(zip)), format!("{:?}", after.zip_to_centroid(zip)));
    }
    for (lat, lon) in [(37_779_300, -122_419_300), (40_758_900, -73_985_100), (0, 0), (95_000_000, 0)] {
        assert_eq!(format!("{:?}", before.lat_lon_to_zip(lat, lon)), format!("{:?}", after.lat_lon_to_zip(lat, lon)));
    }
}

#[test]
fn zip_numbers_keep_leading_zeros() {
    assert_eq!(parse_zip("01001"), Some(1001));
    assert_eq!(parse_zip("94102"), Some(94102));
    assert_eq!(parse_zip("00000"), Some(0));
    assert_eq!(parse_zip("99999"), Some(99999));
    assert_eq!(parse_zip("9410 "), None);
    assert_eq!(parse_zip("941023"), None);
    assert_eq!(parse_zip("٩٤١٠٢"), None);
}

#[test]
fn leading_zero_zip_is_found() {
    let entries = vec![area("01001", vec![square(42.0, -72.7, 42.1, -72.6)], c(42.05, -72.65))];
    let db = ZipCodeDb::from_entries(entries).unwrap();
    assert_eq!(db.zip_to_centroid("01001").unwrap(), c(42.05, -72.65));
    assert!(matches!(db.zip_to_centroid("10010"), Err(ZipCodeError::ZipNotFound(_))));
    assert_eq!(db.lat_lon_to_zip(0, 0).unwrap(), "01001");
}
