use analytics::geoip::{geo_data, AnalyticsGeoData, CountryRecord, GeoIpError, GeoIpReader, IpAddr};
use bytes::Bytes;
use std::sync::Arc;

fn string(text: &str) -> Vec<u8> {
    let mut out = vec![0x40 | text.len() as u8];
    out.extend(text.bytes());
    out
}

fn uint16(value: u16) -> Vec<u8> {
    let mut out = vec![0xa2];
    out.extend(value.to_be_bytes());
    out
}

fn uint32(value: u32) -> Vec<u8> {
    let mut out = vec![0xc4];
    out.extend(value.to_be_bytes());
    out
}

fn uint64(value: u64) -> Vec<u8> {
    let mut out = vec![0x08, 0x02];
    out.extend(value.to_be_bytes());
    out
}

fn map(entries: &[(&str, Vec<u8>)]) -> Vec<u8> {
    let mut out = vec![0xe0 | entries.len() as u8];
    for (key, value) in entries {
        out.extend(string(key));
        out.extend(value);
    }
    out
}

fn record(value: usize) -> [u8; 3] {
    [(value >> 16) as u8, (value >> 8) as u8, value as u8]
}

/// A database in which addresses from 0.0.0.0 to 63.255.255.255 have a country
/// and a continent, those from 64.0.0.0 to 127.255.255.255 are missing, and
/// all others have a continent only.
fn database() -> Vec<u8> {
    let with_country = map(&[
        ("country", map(&[("iso_code", string("SE"))])),
        ("continent", map(&[("code", string("EU"))])),
    ]);
    let without_country = map(&[("continent", map(&[("code", string("AN"))]))]);
    let mut out = Vec::new();
    out.extend(record(1));
    out.extend(record(2 + 16 + with_country.len()));
    out.extend(record(2 + 16));
    out.extend(record(2));
    out.extend([0; 16]);
    out.extend(&with_country);
    out.extend(&without_country);
    out.extend(b"\xab\xcd\xefMaxMind.com");
    out.extend(map(&[
        ("binary_format_major_version", uint16(2)),
        ("binary_format_minor_version", uint16(0)),
        ("build_epoch", uint64(1_700_000_000)),
        ("database_type", string("Test")),
        ("description", map(&[("en", string("Test"))])),
        ("ip_version", uint16(4)),
        ("languages", vec![0x00, 0x04]),
        ("node_count", uint32(2)),
        ("record_size", uint16(24)),
    ]));
    out
}

fn codes(data: Option<AnalyticsGeoData>) -> Option<(Option<String>, Option<String>)> {
    data.map(|d| (d.country.map(|c| c.to_string()), d.continent.map(|c| c.to_string())))
}

#[test]
fn addresses_are_looked_up() {
    let reader = match GeoIpReader::try_from_buffer(Bytes::from(database())) {
        Ok(reader) => reader,
        Err(GeoIpError::InvalidDatabase(error)) => panic!("{}", error),
    };
    assert_eq!(
        codes(reader.lookup_geo_data(IpAddr::V4([8, 8, 8, 8]))),
        Some((Some("SE".to_string()), Some("EU".to_string())))
    );
    assert_eq!(codes(reader.lookup_geo_data(IpAddr::V4([64, 0, 0, 1]))), None);
    assert_eq!(
        codes(reader.lookup_geo_data(IpAddr::V4([200, 1, 2, 3]))),
        Some((None, Some("AN".to_string())))
    );
    // The database is one of version 4 addresses.
    assert_eq!(codes(reader.lookup_geo_data(IpAddr::V6([0; 16]))), None);
}

#[test]
fn clones_read_the_same_database() {
    let reader = GeoIpReader::from_buffer(Bytes::from(database()));
    let copy = reader.clone();
    let addr = IpAddr::V4([8, 8, 8, 8]);
    assert!(reader.lookup_geo_data(addr).is_some());
    assert_eq!(codes(reader.lookup_geo_data(addr)), codes(copy.lookup_geo_data(addr)));
}

#[test]
fn empty_reader_knows_no_address() {
    assert!(GeoIpReader::empty().lookup_geo_data(IpAddr::V4([8, 8, 8, 8])).is_none());
    assert!(GeoIpReader::default().lookup_geo_data(IpAddr::V6([1; 16])).is_none());
}

#[test]
fn bytes_that_are_no_database() {
    assert!(GeoIpReader::try_from_buffer(Bytes::new()).is_err());
    assert!(GeoIpReader::try_from_buffer(Bytes::from_static(b"\xab\xcd\xefMaxMind.com")).is_err());
    let mut truncated = database();
    truncated.truncate(truncated.len() - 3);
    assert!(matches!(
        GeoIpReader::try_from_buffer(Bytes::from(truncated)),
        Err(GeoIpError::InvalidDatabase(_))
    ));
}

#[test]
fn records_become_geographic_data() {
    let found = CountryRecord { iso_code: Some(Arc::from("NO")), continent_code: None };
    let data = geo_data(Ok(Some(found))).unwrap();
    assert_eq!(codes(Some(data.clone())), Some((Some("NO".to_string()), None)));
    assert_eq!(codes(Some(data)), Some((Some("NO".to_string()), None)));
    assert!(geo_data(Ok(None)).is_none());
}
