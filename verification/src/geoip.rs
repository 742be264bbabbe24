//! Where in the world an address is.

use bytes::Bytes;
use maxminddb::{MaxMindDbError, Reader};
use std::sync::Arc;
use vstd::prelude::*;

verus! {

/// The byte container of `bytes`.
#[verifier::external_type_specification]
#[verifier::external_body]
pub struct ExBytes(Bytes);

/// The bytes that a `Bytes` holds.
pub uninterp spec fn bytes_content(bytes: Bytes) -> Seq<u8>;

/// An open database of addresses: a `maxminddb::Reader` over the bytes of the
/// database.
#[verifier::external_body]
#[derive(Debug)]
pub struct Database {
    reader: Reader<Bytes>,
}

/// The bytes of an open database.
pub uninterp spec fn database_content(database: Database) -> Seq<u8>;

/// The error type of `maxminddb`. It is only passed along.
#[verifier::external_type_specification]
#[verifier::external_body]
pub struct ExMaxMindDbError(MaxMindDbError);

/// Whether `Reader::from_source` takes the bytes for a database.
pub uninterp spec fn is_database(content: Seq<u8>) -> bool;

/// What looking up an address in a database gives: `None` for an error, and
/// otherwise the codes of the country and of the continent in the record of
/// the address, if there is a record and as far as it has these codes.
pub uninterp spec fn looked_up(content: Seq<u8>, octets: Seq<u8>) -> Option<
    Option<(Option<Seq<char>>, Option<Seq<char>>)>,
>;

/// Calls `Bytes::clone`, which gives a second handle to the same bytes.
#[verifier::external_body]
fn clone_bytes(bytes: &Bytes) -> (copy: Bytes)
    ensures
        bytes_content(copy) == bytes_content(*bytes),
{
    bytes.clone()
}

/// Calls `Reader::from_source`, which reads and checks the description of the
/// database at the end of the bytes and keeps the bytes. Bytes that it does
/// not take for a database, also because their build time is one that the
/// platform cannot represent, give an error.
#[verifier::external_body]
fn open_database(buffer: Bytes) -> (opened: Result<Database, MaxMindDbError>)
    ensures
        opened is Ok <==> is_database(bytes_content(buffer)),
        opened matches Ok(database) ==> database_content(database) == bytes_content(buffer),
{
    Reader::from_source(buffer).map(|reader| Database { reader })
}

/// Calls `Reader::lookup` and decodes the record that it found, if any, with
/// `LookupResult::decode` as a `geoip2::Country`, of which two codes are kept.
#[verifier::external_body]
fn lookup_country(database: &Database, addr: IpAddr) -> (found: Result<
    Option<CountryRecord>,
    MaxMindDbError,
>)
    ensures
        (match found {
            Ok(Some(record)) => Some(Some(record@)),
            Ok(None) => Some(None),
            Err(_) => None,
        }) == looked_up(database_content(*database), addr@),
{
    let address = match addr {
        IpAddr::V4(octets) => octets.into(),
        IpAddr::V6(octets) => octets.into(),
    };
    let record = database.reader.lookup(address)?.decode::<maxminddb::geoip2::Country>()?;
    Ok(record.map(|record| CountryRecord {
        iso_code: record.country.iso_code.map(Into::into),
        continent_code: record.continent.code.map(Into::into),
    }))
}

/// An address of the internet, in network byte order.
#[derive(Debug, Clone, Copy, PartialEq, Eq)]
pub enum IpAddr {
    V4([u8; 4]),
    V6([u8; 16]),
}

impl View for IpAddr {
    type V = Seq<u8>;

    /// The octets of the address. Their number tells the two kinds apart.
    open spec fn view(&self) -> Seq<u8> {
        match *self {
            IpAddr::V4(octets) => octets@,
            IpAddr::V6(octets) => octets@,
        }
    }
}

/// The text of a code, if there is one.
pub open spec fn code_text(code: Option<Arc<str>>) -> Option<Seq<char>> {
    match code {
        Some(text) => Some((*text)@),
        None => None,
    }
}

/// What is read from the record of an address.
#[derive(Debug)]
pub struct CountryRecord {
    /// The ISO 3166-1 code of the country.
    pub iso_code: Option<Arc<str>>,
    /// The code of the continent.
    pub continent_code: Option<Arc<str>>,
}

impl View for CountryRecord {
    type V = (Option<Seq<char>>, Option<Seq<char>>);

    /// The texts of the country's and of the continent's code.
    open spec fn view(&self) -> (Option<Seq<char>>, Option<Seq<char>>) {
        (code_text(self.iso_code), code_text(self.continent_code))
    }
}

#[derive(Debug)]
pub struct AnalyticsGeoData {
    pub country: Option<Arc<str>>,
    pub continent: Option<Arc<str>>,
}

fn clone_code(code: &Option<Arc<str>>) -> (copy: Option<Arc<str>>)
    ensures
        copy == *code,
{
    match code {
        Some(text) => Some(text.clone()),
        None => None,
    }
}

impl Clone for AnalyticsGeoData {
    fn clone(&self) -> (copy: Self)
        ensures
            copy == *self,
    {
        Self { country: clone_code(&self.country), continent: clone_code(&self.continent) }
    }
}

impl View for AnalyticsGeoData {
    type V = (Option<Seq<char>>, Option<Seq<char>>);

    /// The texts of the country's and of the continent's code.
    open spec fn view(&self) -> (Option<Seq<char>>, Option<Seq<char>>) {
        (code_text(self.country), code_text(self.continent))
    }
}

/// What can go wrong when a database is opened.
#[derive(Debug)]
pub enum GeoIpError {
    /// The bytes are not those of a database.
    InvalidDatabase(MaxMindDbError),
}

/// The geographic data in a looked up record: none if the lookup failed or
/// found nothing.
pub fn geo_data(found: Result<Option<CountryRecord>, MaxMindDbError>) -> (data: Option<
    AnalyticsGeoData,
>)
    ensures
        match found {
            Ok(Some(record)) => data == Some(
                AnalyticsGeoData { country: record.iso_code, continent: record.continent_code },
            ),
            _ => data is None,
        },
{
    match found {
        Ok(Some(record)) => Some(
            AnalyticsGeoData { country: record.iso_code, continent: record.continent_code },
        ),
        _ => None,
    }
}

/// A handle to a database of addresses, or to none.
#[derive(Debug)]
pub struct GeoIpReader {
    reader: Option<Arc<Database>>,
}

impl Clone for GeoIpReader {
    /// Another handle to the same database.
    fn clone(&self) -> (copy: Self)
        ensures
            copy@ == self@,
    {
        match &self.reader {
            Some(database) => Self { reader: Some(database.clone()) },
            None => Self { reader: None },
        }
    }
}

impl Default for GeoIpReader {
    fn default() -> (reader: Self)
        ensures
            reader@ is None,
    {
        Self { reader: None }
    }
}

impl View for GeoIpReader {
    type V = Option<Seq<u8>>;

    /// The bytes of the database, if there is one.
    closed spec fn view(&self) -> Option<Seq<u8>> {
        match self.reader {
            Some(database) => Some(database_content(*database)),
            None => None,
        }
    }
}

impl GeoIpReader {
    /// A reader without a database, which knows no address.
    pub fn empty() -> (reader: Self)
        ensures
            reader@ is None,
    {
        Self::default()
    }

    /// A reader of the database in `buffer`.
    pub fn from_buffer(buffer: Bytes) -> (reader: Self)
        requires
            is_database(bytes_content(buffer)),
        ensures
            reader@ == Some(bytes_content(buffer)),
    {
        let database = open_database(buffer).unwrap();
        Self { reader: Some(Arc::new(database)) }
    }

    /// A reader of the database in `buffer`, if there is one in it.
    pub fn try_from_buffer(buffer: Bytes) -> (opened: Result<Self, GeoIpError>)
        ensures
            opened is Ok <==> is_database(bytes_content(buffer)),
            opened matches Ok(reader) ==> reader@ == Some(bytes_content(buffer)),
    {
        match open_database(clone_bytes(&buffer)) {
            Ok(_) => Ok(Self::from_buffer(buffer)),
            Err(error) => Err(GeoIpError::InvalidDatabase(error)),
        }
    }

    /// The geographic data that the database has of an address.
    pub fn lookup_geo_data(&self, addr: IpAddr) -> (data: Option<AnalyticsGeoData>)
        ensures
            (match data {
                Some(data) => Some(data@),
                None => None,
            }) == match self@ {
                Some(content) => match looked_up(content, addr@) {
                    Some(record) => record,
                    None => None,
                },
                None => None,
            },
    {
        match &self.reader {
            Some(database) => geo_data(lookup_country(database, addr)),
            None => None,
        }
    }
}

} // verus!
