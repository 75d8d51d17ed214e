//! Sentence-type record decoders. Each takes a validated sentence, checks
//! the kind tag and field count, and fills a record whose attributes are each
//! independently present or absent; a guard failure yields the all-absent
//! record, never an error.

use vstd::prelude::*;
use crate::bytes::{COMMA, count_byte, lemma_split_bytes_len, split_bytes, split_on};
use crate::fields::{
    Coord, GpsDate, GpsFixQuality, GpsTime, RmcStatus, parse_nmea_lat, parse_nmea_lon,
    parse_nmea_magvar, spec_fix_quality, spec_gps_date, spec_gps_time, spec_parse_lat,
    spec_parse_lon, spec_parse_magvar, spec_rmc_status,
};
use crate::frame::{NMEA, NmeaType};
use crate::num::{Dec, spec_parse_dec, spec_parse_uint, parse_dec, parse_uint};

verus! {

/// Converting a validated NMEA sentence to a typed record. Decoding never
/// fails outright: a record with every attribute absent stands for a guard
/// or field failure.
pub trait FromNmea: Sized {
    fn from_nmea(data: &NMEA) -> Self;
}

/// What parsing a field as a `u8` yields.
pub open spec fn spec_parse_u8(s: Seq<u8>) -> Option<u8> {
    match spec_parse_uint(s, 255) {
        Some(v) => Some(v as u8),
        None => None,
    }
}

/// What parsing a field as a `u16` yields.
pub open spec fn spec_parse_u16(s: Seq<u8>) -> Option<u16> {
    match spec_parse_uint(s, 65535) {
        Some(v) => Some(v as u16),
        None => None,
    }
}

/// Parses a field as a `u8`.
pub fn parse_u8(s: &[u8]) -> (r: Option<u8>)
    ensures
        r == spec_parse_u8(s@),
{
    match parse_uint(s, 255) {
        Some(v) => Some(v as u8),
        None => None,
    }
}

/// Parses a field as a `u16`.
pub fn parse_u16(s: &[u8]) -> (r: Option<u16>)
    ensures
        r == spec_parse_u16(s@),
{
    match parse_uint(s, 65535) {
        Some(v) => Some(v as u16),
        None => None,
    }
}

/// The data fields of a GGA sentence: fix time, position and fix quality.
#[derive(Clone, Copy, Debug, PartialEq)]
pub struct GPGGA {
    pub time: Option<GpsTime>,
    pub latitude: Option<Coord>,
    pub longitude: Option<Coord>,
    pub quality: Option<GpsFixQuality>,
    pub num_satellites: Option<u8>,
    pub hdop: Option<Dec>,
    pub altitude: Option<Dec>,
    pub geoid_seperation: Option<Dec>,
    pub age: Option<Dec>,
    pub dstation_id: Option<u16>,
}

/// The data fields of a ZDA sentence: UTC time, date and local zone offset.
#[derive(Clone, Copy, Debug, PartialEq)]
pub struct GPZDA {
    pub time: Option<GpsTime>,
    pub date: Option<GpsDate>,
    pub zone_hours: Option<u8>,
    pub zone_minutes: Option<u8>,
}

/// The data fields of an RMC sentence: recommended minimum navigation data.
#[derive(Clone, Copy, Debug, PartialEq)]
pub struct GPRMC {
    pub time: Option<GpsTime>,
    pub rmc_status: Option<RmcStatus>,
    pub latitude: Option<Coord>,
    pub longitude: Option<Coord>,
    pub sog: Option<Dec>,
    pub cog: Option<Dec>,
    pub date: Option<GpsDate>,
    pub magvar: Option<Dec>,
}

/// The GGA record with every attribute absent.
pub open spec fn gga_empty() -> GPGGA {
    GPGGA {
        time: None,
        latitude: None,
        longitude: None,
        quality: None,
        num_satellites: None,
        hdop: None,
        altitude: None,
        geoid_seperation: None,
        age: None,
        dstation_id: None,
    }
}

/// The ZDA record with every attribute absent.
pub open spec fn zda_empty() -> GPZDA {
    GPZDA { time: None, date: None, zone_hours: None, zone_minutes: None }
}

/// The RMC record with every attribute absent.
pub open spec fn rmc_empty() -> GPRMC {
    GPRMC {
        time: None,
        rmc_status: None,
        latitude: None,
        longitude: None,
        sog: None,
        cog: None,
        date: None,
        magvar: None,
    }
}

/// What decoding a GGA sentence yields: the all-absent record unless the
/// kind tag is GGA and the payload has exactly 14 commas; otherwise each
/// attribute is decoded independently from its own field, the two unit-letter
/// fields being skipped.
pub open spec fn spec_decode_gga(ty: NmeaType, p: Seq<u8>) -> GPGGA {
    if count_byte(p, COMMA) != 14 || ty != NmeaType::GPGGA {
        gga_empty()
    } else {
        let f = split_bytes(p, COMMA);
        GPGGA {
            time: spec_gps_time(f[1]),
            latitude: spec_parse_lat(f[2], f[3]),
            longitude: spec_parse_lon(f[4], f[5]),
            quality: Some(spec_fix_quality(f[6])),
            num_satellites: spec_parse_u8(f[7]),
            hdop: spec_parse_dec(f[8]),
            altitude: spec_parse_dec(f[9]),
            geoid_seperation: spec_parse_dec(f[11]),
            age: spec_parse_dec(f[13]),
            dstation_id: spec_parse_u16(f[14]),
        }
    }
}

/// What decoding a ZDA sentence yields: the all-absent record unless the
/// kind tag is ZDA and the payload has exactly 6 commas; the date attribute
/// is present only when day, month and year all decode, and the year is
/// taken as written (four digits), not anchored at 1900.
pub open spec fn spec_decode_zda(ty: NmeaType, p: Seq<u8>) -> GPZDA {
    if count_byte(p, COMMA) != 6 || ty != NmeaType::GPZDA {
        zda_empty()
    } else {
        let f = split_bytes(p, COMMA);
        let day = spec_parse_u8(f[2]);
        let mon = spec_parse_u8(f[3]);
        let year = spec_parse_u16(f[4]);
        GPZDA {
            time: spec_gps_time(f[1]),
            date: match (day, mon, year) {
                (Some(d), Some(mo), Some(y)) => if mo > 12 || d > 31 {
                    None
                } else {
                    Some(GpsDate { mon: mo, day: d, year: y })
                },
                _ => None,
            },
            zone_hours: spec_parse_u8(f[5]),
            zone_minutes: spec_parse_u8(f[6]),
        }
    }
}

/// What decoding an RMC sentence yields: the all-absent record unless the
/// kind tag is RMC and the payload has at least 11 commas; otherwise each
/// attribute is decoded independently from its own field.
pub open spec fn spec_decode_rmc(ty: NmeaType, p: Seq<u8>) -> GPRMC {
    if count_byte(p, COMMA) < 11 || ty != NmeaType::GPRMC {
        rmc_empty()
    } else {
        let f = split_bytes(p, COMMA);
        GPRMC {
            time: spec_gps_time(f[1]),
            rmc_status: spec_rmc_status(f[2]),
            latitude: spec_parse_lat(f[3], f[4]),
            longitude: spec_parse_lon(f[5], f[6]),
            sog: spec_parse_dec(f[7]),
            cog: spec_parse_dec(f[8]),
            date: spec_gps_date(f[9]),
            magvar: spec_parse_magvar(f[10], f[11]),
        }
    }
}

/// Decodes a GGA sentence; a wrong kind tag or comma count yields the
/// all-absent record.
pub fn decode_gga(nmea: &NMEA) -> (r: GPGGA)
    ensures
        r == spec_decode_gga(nmea.sentence_type, nmea.sentence@),
{
    let p: &[u8] = nmea.sentence.as_slice();
    let fields: Vec<Vec<u8>> = split_on(p, COMMA);
    proof {
        lemma_split_bytes_len(p@, COMMA);
    }
    if fields.len() != 15 || !matches!(nmea.sentence_type, NmeaType::GPGGA) {
        return GPGGA {
            time: None,
            latitude: None,
            longitude: None,
            quality: None,
            num_satellites: None,
            hdop: None,
            altitude: None,
            geoid_seperation: None,
            age: None,
            dstation_id: None,
        };
    }
    GPGGA {
        time: GpsTime::parse(fields[1].as_slice()),
        latitude: parse_nmea_lat(fields[2].as_slice(), fields[3].as_slice()),
        longitude: parse_nmea_lon(fields[4].as_slice(), fields[5].as_slice()),
        quality: Some(GpsFixQuality::parse(fields[6].as_slice())),
        num_satellites: parse_u8(fields[7].as_slice()),
        hdop: parse_dec(fields[8].as_slice()),
        altitude: parse_dec(fields[9].as_slice()),
        geoid_seperation: parse_dec(fields[11].as_slice()),
        age: parse_dec(fields[13].as_slice()),
        dstation_id: parse_u16(fields[14].as_slice()),
    }
}

/// Decodes a ZDA sentence; a wrong kind tag or comma count yields the
/// all-absent record.
pub fn decode_zda(nmea: &NMEA) -> (r: GPZDA)
    ensures
        r == spec_decode_zda(nmea.sentence_type, nmea.sentence@),
{
    let p: &[u8] = nmea.sentence.as_slice();
    let fields: Vec<Vec<u8>> = split_on(p, COMMA);
    proof {
        lemma_split_bytes_len(p@, COMMA);
    }
    if fields.len() != 7 || !matches!(nmea.sentence_type, NmeaType::GPZDA) {
        return GPZDA { time: None, date: None, zone_hours: None, zone_minutes: None };
    }
    let day = parse_u8(fields[2].as_slice());
    let mon = parse_u8(fields[3].as_slice());
    let year = parse_u16(fields[4].as_slice());
    let date: Option<GpsDate> = match (day, mon, year) {
        (Some(d), Some(mo), Some(y)) => GpsDate::new(mo, d, y),
        _ => None,
    };
    GPZDA {
        time: GpsTime::parse(fields[1].as_slice()),
        date,
        zone_hours: parse_u8(fields[5].as_slice()),
        zone_minutes: parse_u8(fields[6].as_slice()),
    }
}

/// Decodes an RMC sentence; a wrong kind tag or too few commas yields the
/// all-absent record.
pub fn decode_rmc(nmea: &NMEA) -> (r: GPRMC)
    ensures
        r == spec_decode_rmc(nmea.sentence_type, nmea.sentence@),
{
    let p: &[u8] = nmea.sentence.as_slice();
    let fields: Vec<Vec<u8>> = split_on(p, COMMA);
    proof {
        lemma_split_bytes_len(p@, COMMA);
    }
    if fields.len() < 12 || !matches!(nmea.sentence_type, NmeaType::GPRMC) {
        return GPRMC {
            time: None,
            rmc_status: None,
            latitude: None,
            longitude: None,
            sog: None,
            cog: None,
            date: None,
            magvar: None,
        };
    }
    GPRMC {
        time: GpsTime::parse(fields[1].as_slice()),
        rmc_status: RmcStatus::parse(fields[2].as_slice()),
        latitude: parse_nmea_lat(fields[3].as_slice(), fields[4].as_slice()),
        longitude: parse_nmea_lon(fields[5].as_slice(), fields[6].as_slice()),
        sog: parse_dec(fields[7].as_slice()),
        cog: parse_dec(fields[8].as_slice()),
        date: GpsDate::parse(fields[9].as_slice()),
        magvar: parse_nmea_magvar(fields[10].as_slice(), fields[11].as_slice()),
    }
}

impl FromNmea for GPGGA {
    /// Decodes as `decode_gga` does.
    fn from_nmea(data: &NMEA) -> (r: Self)
        ensures
            r == spec_decode_gga(data.sentence_type, data.sentence@),
    {
        decode_gga(data)
    }
}

impl FromNmea for GPZDA {
    /// Decodes as `decode_zda` does.
    fn from_nmea(data: &NMEA) -> (r: Self)
        ensures
            r == spec_decode_zda(data.sentence_type, data.sentence@),
    {
        decode_zda(data)
    }
}

impl FromNmea for GPRMC {
    /// Decodes as `decode_rmc` does.
    fn from_nmea(data: &NMEA) -> (r: Self)
        ensures
            r == spec_decode_rmc(data.sentence_type, data.sentence@),
    {
        decode_rmc(data)
    }
}

impl Default for GPGGA {
    /// The all-absent GGA record.
    fn default() -> (r: GPGGA)
        ensures
            r == gga_empty(),
    {
        GPGGA {
            time: None,
            latitude: None,
            longitude: None,
            quality: None,
            num_satellites: None,
            hdop: None,
            altitude: None,
            geoid_seperation: None,
            age: None,
            dstation_id: None,
        }
    }
}

impl Default for GPZDA {
    /// The all-absent ZDA record.
    fn default() -> (r: GPZDA)
        ensures
            r == zda_empty(),
    {
        GPZDA { time: None, date: None, zone_hours: None, zone_minutes: None }
    }
}

impl Default for GPRMC {
    /// The all-absent RMC record.
    fn default() -> (r: GPRMC)
        ensures
            r == rmc_empty(),
    {
        GPRMC {
            time: None,
            rmc_status: None,
            latitude: None,
            longitude: None,
            sog: None,
            cog: None,
            date: None,
            magvar: None,
        }
    }
}

} // verus!
