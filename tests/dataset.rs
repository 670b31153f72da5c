use classify_client::{load_dataset, parse_record, DatasetError, IpAddress, IpNet};

#[test]
fn reads_a_full_record() {
    let e = parse_record("198.51.100.0/24,CA,QC,Montreal,45500000,-73560000,America/Toronto").unwrap();
    assert_eq!(e.network, IpNet::parse("198.51.100.0/24").unwrap());
    assert_eq!(e.location.country_code.as_deref(), Some("CA"));
    assert_eq!(e.location.region_code.as_deref(), Some("QC"));
    assert_eq!(e.location.city.as_deref(), Some("Montreal"));
    assert_eq!(e.location.latitude, Some(45_500_000));
    assert_eq!(e.location.longitude, Some(-73_560_000));
    assert_eq!(e.location.time_zone.as_deref(), Some("America/Toronto"));
}

#[test]
fn empty_fields_are_absent() {
    let e = parse_record("2001:db8::/32,DE,,,,,").unwrap();
    assert_eq!(e.location.country_code.as_deref(), Some("DE"));
    assert!(e.location.region_code.is_none());
    assert!(e.location.city.is_none());
    assert!(e.location.latitude.is_none());
    assert!(e.location.longitude.is_none());
    assert!(e.location.time_zone.is_none());
}

#[test]
fn malformed_records_are_refused() {
    assert!(parse_record("198.51.100.0/24,CA,QC,Montreal,45500000,-73560000").is_none());
    assert!(parse_record("198.51.100.0/33,CA,,,,,").is_none());
    assert!(parse_record("10.0.0.0/8,CA,,,4.5,,").is_none());
    assert!(parse_record("10.0.0.0/8,CA,,,1234567890,,").is_none());
    assert!(parse_record("10.0.0.0/8,CA,,,-,,").is_none());
    assert!(parse_record("").is_none());
}

#[test]
fn loads_lines_and_reports_the_bad_one() {
    let lines = vec![
        "10.0.0.0/8,US,,,,,".to_string(),
        "10.1.0.0/16,US,CA,San Jose,37330000,-121890000,America/Los_Angeles".to_string(),
    ];
    let idx = load_dataset(&lines).unwrap();
    let hit = idx.lookup(IpAddress::parse("10.1.2.3").unwrap()).unwrap();
    assert_eq!(hit.city.as_deref(), Some("San Jose"));
    assert!(idx.lookup(IpAddress::parse("11.0.0.1").unwrap()).is_none());

    let bad = vec!["10.0.0.0/8,US,,,,,".to_string(), "garbage".to_string()];
    assert_eq!(load_dataset(&bad).err(), Some(DatasetError::BadRecord(1)));
}
