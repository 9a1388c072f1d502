use zipdip::{ZipCodeDb, ZipCodeError};

#[test]
fn lib_test_invalid_zip_format() {
    let db = ZipCodeDb::new().unwrap();
    assert!(db.zip_to_centroid("1234").is_err());
    assert!(db.zip_to_centroid("123456").is_err());
    assert!(db.zip_to_centroid("abcde").is_err());
}

#[test]
fn lib_test_invalid_coordinates() {
    let db = ZipCodeDb::new().unwrap();
    assert!(db.lat_lon_to_zip(91_000_000, 0).is_err());
    assert!(db.lat_lon_to_zip(0, 181_000_000).is_err());
    assert!(db.lat_lon_to_zip(-91_000_000, 0).is_err());
}

#[test]
fn integration_test_invalid_zip_format() {
    let db = ZipCodeDb::new().unwrap();

    // Too short
    assert!(matches!(
        db.zip_to_centroid("1234"),
        Err(ZipCodeError::InvalidZipFormat(_))
    ));

    // Too long
    assert!(matches!(
        db.zip_to_centroid("123456"),
        Err(ZipCodeError::InvalidZipFormat(_))
    ));

    // Non-numeric
    assert!(matches!(
        db.zip_to_centroid("abcde"),
        Err(ZipCodeError::InvalidZipFormat(_))
    ));

    // Mixed
    assert!(matches!(
        db.zip_to_centroid("12a45"),
        Err(ZipCodeError::InvalidZipFormat(_))
    ));
}

#[test]
fn integration_test_invalid_coordinates() {
    let db = ZipCodeDb::new().unwrap();

    // Latitude out of range
    assert!(matches!(
        db.lat_lon_to_zip(91_000_000, 0),
        Err(ZipCodeError::InvalidCoordinates(_, _))
    ));

    assert!(matches!(
        db.lat_lon_to_zip(-91_000_000, 0),
        Err(ZipCodeError::InvalidCoordinates(_, _))
    ));

    // Longitude out of range
    assert!(matches!(
        db.lat_lon_to_zip(0, 181_000_000),
        Err(ZipCodeError::InvalidCoordinates(_, _))
    ));

    assert!(matches!(
        db.lat_lon_to_zip(0, -181_000_000),
        Err(ZipCodeError::InvalidCoordinates(_, _))
    ));
}

#[test]
fn test_empty_database() {
    let db = ZipCodeDb::new().unwrap();

    // Valid format but not in database
    assert!(matches!(
        db.zip_to_centroid("94102"),
        Err(ZipCodeError::ZipNotFound(_))
    ));

    // No data for reverse lookup
    assert!(matches!(
        db.lat_lon_to_zip(37_779_300, -122_419_300),
        Err(ZipCodeError::DataLoadError(_))
    ));
}
