use classify_client::{
    assemble, classify, parse_do_not_track, GeoEntry, GeoError, GeoIndex, IpAddress, IpNet,
    LocationRecord, UtcDateTime,
};

fn record(country: &str, city: &str) -> LocationRecord {
    LocationRecord {
        country_code: Some(country.to_string()),
        region_code: None,
        city: Some(city.to_string()),
        latitude: Some(45_500_000),
        longitude: Some(-73_560_000),
        time_zone: Some("America/Toronto".to_string()),
    }
}

fn index() -> GeoIndex {
    GeoIndex::new(vec![
        GeoEntry { network: IpNet::parse("198.51.100.0/24").unwrap(), location: record("CA", "Montreal") },
        GeoEntry { network: IpNet::parse("198.51.100.0/28").unwrap(), location: record("CA", "Laval") },
        GeoEntry { network: IpNet::parse("2001:db8::/32").unwrap(), location: record("DE", "Berlin") },
    ])
    .unwrap()
}

#[test]
fn lookup_takes_the_most_specific_network() {
    let idx = index();
    let ip = IpAddress::parse("198.51.100.7").unwrap();
    assert_eq!(idx.lookup(ip).unwrap().city.as_deref(), Some("Laval"));
    let ip = IpAddress::parse("198.51.100.200").unwrap();
    assert_eq!(idx.lookup(ip).unwrap().city.as_deref(), Some("Montreal"));
    let ip = IpAddress::parse("2001:db8::5").unwrap();
    assert_eq!(idx.lookup(ip).unwrap().country_code.as_deref(), Some("DE"));
    assert_eq!(idx.len(), 3);
    assert!(idx.is_ready());
    assert!(!GeoIndex::new(Vec::new()).unwrap().is_ready());
}

#[test]
fn unknown_address_gives_empty_location() {
    let idx = index();
    let trusted = vec![IpNet::parse("203.0.113.5").unwrap()];
    let peer = IpAddress::parse("10.0.0.9").unwrap();
    let r = classify(&idx, Some("192.0.2.1, 203.0.113.5"), &trusted, peer, 0, None);
    assert_eq!(r.client_ip, IpAddress::parse("192.0.2.1").unwrap());
    assert!(r.country_code.is_none());
    assert!(r.region_code.is_none());
    assert!(r.city.is_none());
    assert!(r.latitude.is_none());
    assert!(r.longitude.is_none());
    assert!(r.time_zone.is_none());
}

#[test]
fn known_address_is_located() {
    let idx = index();
    let peer = IpAddress::parse("198.51.100.9").unwrap();
    let r = classify(&idx, None, &Vec::new(), peer, 86_400, Some(true));
    assert_eq!(r.client_ip, peer);
    assert_eq!(r.city.as_deref(), Some("Laval"));
    assert_eq!(r.latitude, Some(45_500_000));
    assert_eq!(r.do_not_track, Some(true));
    assert_eq!(
        r.datetime,
        UtcDateTime { year: 1970, month: 1, day: 2, hour: 0, minute: 0, second: 0 }
    );
}

#[test]
fn assemble_without_location() {
    let ip = IpAddress::parse("::1").unwrap();
    let r = assemble(ip, None, 1_700_000_000, Some(false));
    assert_eq!(r.client_ip, ip);
    assert!(r.city.is_none() && r.time_zone.is_none());
    assert_eq!(r.do_not_track, Some(false));
    assert_eq!(
        r.datetime,
        UtcDateTime { year: 2023, month: 11, day: 14, hour: 22, minute: 13, second: 20 }
    );
}

#[test]
fn invalid_network_is_refused() {
    let bad = GeoEntry {
        network: IpNet { addr: IpAddress::parse("1.2.3.4").unwrap(), prefix: 40 },
        location: record("CA", "X"),
    };
    let good = GeoEntry { network: IpNet::parse("1.2.3.0/24").unwrap(), location: record("CA", "Y") };
    assert_eq!(GeoIndex::new(vec![good, bad]).err(), Some(GeoError::InvalidNetwork(1)));
}

#[test]
fn dates_from_unix_seconds() {
    assert_eq!(
        UtcDateTime::from_unix_seconds(0),
        UtcDateTime { year: 1970, month: 1, day: 1, hour: 0, minute: 0, second: 0 }
    );
    assert_eq!(
        UtcDateTime::from_unix_seconds(951_782_400),
        UtcDateTime { year: 2000, month: 2, day: 29, hour: 0, minute: 0, second: 0 }
    );
    assert_eq!(
        UtcDateTime::from_unix_seconds(1_709_251_199),
        UtcDateTime { year: 2024, month: 2, day: 29, hour: 23, minute: 59, second: 59 }
    );
    assert_eq!(
        UtcDateTime::from_unix_seconds(4_107_542_400),
        UtcDateTime { year: 2100, month: 3, day: 1, hour: 0, minute: 0, second: 0 }
    );
}

#[test]
fn do_not_track_header() {
    assert_eq!(parse_do_not_track(Some("1")), Some(true));
    assert_eq!(parse_do_not_track(Some("0")), Some(false));
    assert_eq!(parse_do_not_track(Some("yes")), None);
    assert_eq!(parse_do_not_track(None), None);
}
