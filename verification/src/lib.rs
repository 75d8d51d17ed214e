//! Decoder for NMEA 0183 text sentences: framing with checksum verification,
//! and field-level decoding of time, date, position and related values into
//! typed records with per-field optionality.

pub mod bytes;
pub mod fields;
pub mod frame;
pub mod num;
pub mod records;

pub use bytes::calc_nmea_checksum;
pub use bytes::nmea_count_fields;
pub use fields::{
    Coord, GpsDate, GpsFixQuality, GpsTime, RmcStatus, parse_nmea_lat, parse_nmea_lon,
    parse_nmea_magvar,
};
pub use frame::{get_nmea_type, NMEA, NmeaError, NmeaType};
pub use num::Dec;
pub use records::{decode_gga, decode_rmc, decode_zda, FromNmea, GPGGA, GPRMC, GPZDA};
