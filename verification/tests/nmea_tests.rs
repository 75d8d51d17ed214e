use nmea::{
    calc_nmea_checksum, decode_gga, decode_rmc, decode_zda, get_nmea_type, nmea_count_fields,
    parse_nmea_lat, parse_nmea_lon, parse_nmea_magvar, Coord, Dec, GpsDate, GpsFixQuality,
    GpsTime, NmeaError, NmeaType, RmcStatus, FromNmea, GPGGA, GPRMC, GPZDA, NMEA,
};

fn dec(neg: bool, mant: u64, scale: usize) -> Dec {
    Dec { neg, mant, scale }
}

#[test]
fn frame_valid_sentence_extracts_payload() {
    let n = NMEA::from_str("$GPRMC,123519,A,4807.038,N,01131.000,E,022.4,084.4,230394,003.1,W*6A")
        .unwrap();
    assert_eq!(
        n.sentence,
        b"GPRMC,123519,A,4807.038,N,01131.000,E,022.4,084.4,230394,003.1,W".to_vec()
    );
    assert_eq!(n.checksum, 0x6A);
    assert_eq!(n.sentence_type, NmeaType::GPRMC);
}

#[test]
fn frame_ignores_surrounding_noise() {
    let n = NMEA::from_str("noise..$GPZDA,201530.00,04,07,2002,00,00*60\r\n").unwrap();
    assert_eq!(n.sentence, b"GPZDA,201530.00,04,07,2002,00,00".to_vec());
    assert_eq!(n.sentence_type, NmeaType::GPZDA);
}

#[test]
fn frame_accepts_lowercase_hex() {
    let n = NMEA::from_str("$GPXTE,A,A,0.67,L,N*6f").unwrap();
    assert_eq!(n.checksum, 0x6F);
    assert_eq!(n.sentence_type, NmeaType::Unknown);
}

#[test]
fn frame_empty_sentence_errors() {
    assert_eq!(NMEA::from_str("").unwrap_err(), NmeaError::EmptySentence);
    assert_eq!(NMEA::from_str("no dollar at all").unwrap_err(), NmeaError::EmptySentence);
    assert_eq!(NMEA::from_str("$*6A").unwrap_err(), NmeaError::EmptySentence);
    assert_eq!(NMEA::from_str("abc$").unwrap_err(), NmeaError::EmptySentence);
}

#[test]
fn frame_invalid_checksum_format_errors() {
    assert_eq!(NMEA::from_str("$HELLO*4").unwrap_err(), NmeaError::InvalidChecksumFormat);
    assert_eq!(NMEA::from_str("$HELLO*").unwrap_err(), NmeaError::InvalidChecksumFormat);
    assert_eq!(NMEA::from_str("$HELLO*ZZ").unwrap_err(), NmeaError::InvalidChecksumFormat);
    assert_eq!(NMEA::from_str("$HELLO*4Z").unwrap_err(), NmeaError::InvalidChecksumFormat);
    assert_eq!(NMEA::from_str("$HELLO").unwrap_err(), NmeaError::InvalidChecksumFormat);
}

#[test]
fn frame_checksum_mismatch_errors() {
    // One checksum digit mutated from the matching value: always
    // ChecksumMismatch, never a different error.
    assert_eq!(NMEA::from_str("$HELLO*43").unwrap_err(), NmeaError::ChecksumMismatch);
    assert_eq!(NMEA::from_str("$HELLO*52").unwrap_err(), NmeaError::ChecksumMismatch);
    assert!(NMEA::from_str("$HELLO*42").is_ok());
}

#[test]
fn nmea_new_collapses_errors() {
    assert!(NMEA::new("$HELLO*42").is_some());
    assert!(NMEA::new("$HELLO*41").is_none());
    assert!(NMEA::new("junk").is_none());
}

#[test]
fn checksum_is_xor_fold_of_payload() {
    // Thirteen commas, all fields empty: the checksum is the exclusive-or of
    // the ASCII bytes of GPGGA and thirteen commas.
    let payload = b"GPGGA,,,,,,,,,,,,,";
    let mut expected: u8 = 0;
    for b in payload.iter() {
        expected ^= b;
    }
    assert_eq!(calc_nmea_checksum(payload), expected);
    assert_eq!(calc_nmea_checksum(payload), 0x7A);
    assert_eq!(calc_nmea_checksum(b""), 0);
    assert!(NMEA::from_str("$GPGGA,,,,,,,,,,,,,*7A").is_ok());
}

#[test]
fn count_fields_counts_commas() {
    assert_eq!(nmea_count_fields(b"a,b,,c"), 3);
    assert_eq!(nmea_count_fields(b""), 0);
    assert_eq!(nmea_count_fields(b"GPGGA,,,,,,,,,,,,,"), 13);
}

#[test]
fn nmea_type_from_identifier() {
    assert_eq!(get_nmea_type(b"GPGGA,1,2"), NmeaType::GPGGA);
    assert_eq!(get_nmea_type(b"GPRMC"), NmeaType::GPRMC);
    assert_eq!(get_nmea_type(b"GPZDA,x"), NmeaType::GPZDA);
    assert_eq!(get_nmea_type(b"GPXTE,A"), NmeaType::Unknown);
    assert_eq!(get_nmea_type(b""), NmeaType::Unknown);
    assert_eq!(get_nmea_type(b"GPGGAX,1"), NmeaType::Unknown);
}

#[test]
fn latitude_decoding() {
    let c = parse_nmea_lat(b"4807.038", b"N").unwrap();
    assert_eq!(c, Coord { neg: false, deg: dec(false, 48, 0), min: dec(false, 7038, 3) });
    // 48 degrees and 7.038 minutes: 48 + 7.038/60, about 48.1173 degrees.
    let s = parse_nmea_lat(b"4807.038", b"S").unwrap();
    assert_eq!(s, Coord { neg: true, deg: dec(false, 48, 0), min: dec(false, 7038, 3) });
    assert_eq!(parse_nmea_lat(b"4807.038", b"X"), None);
    assert_eq!(parse_nmea_lat(b"48ab.038", b"N"), None);
    assert_eq!(parse_nmea_lat(b"", b"N"), None);
}

#[test]
fn longitude_decoding() {
    let c = parse_nmea_lon(b"01131.000", b"E").unwrap();
    assert_eq!(c, Coord { neg: false, deg: dec(false, 11, 0), min: dec(false, 31000, 3) });
    // 11 degrees and 31 minutes: 11 + 31/60, about 11.5167 degrees.
    let w = parse_nmea_lon(b"01131.000", b"W").unwrap();
    assert_eq!(w, Coord { neg: true, deg: dec(false, 11, 0), min: dec(false, 31000, 3) });
    assert_eq!(parse_nmea_lon(b"01131.000", b"N"), None);
}

#[test]
fn magvar_decoding() {
    assert_eq!(parse_nmea_magvar(b"3.1", b"E"), Some(dec(false, 31, 1)));
    assert_eq!(parse_nmea_magvar(b"003.1", b"W"), Some(dec(true, 31, 1)));
    assert_eq!(parse_nmea_magvar(b"-2.5", b"W"), Some(dec(false, 25, 1)));
    assert_eq!(parse_nmea_magvar(b"3.1", b"X"), None);
    assert_eq!(parse_nmea_magvar(b"", b"E"), None);
    assert_eq!(parse_nmea_magvar(b"1.2.3", b"E"), None);
    assert_eq!(parse_nmea_magvar(b".5", b"E"), Some(dec(false, 5, 1)));
    assert_eq!(parse_nmea_magvar(b"4.", b"E"), Some(dec(false, 4, 0)));
}

#[test]
fn time_decoding() {
    assert_eq!(
        GpsTime::parse(b"123519"),
        Some(GpsTime { h: 12, m: 35, s: dec(false, 19, 0) })
    );
    assert_eq!(
        GpsTime::parse(b"235959.99"),
        Some(GpsTime { h: 23, m: 59, s: dec(false, 5999, 2) })
    );
    // Hour 24 is out of range.
    assert_eq!(GpsTime::parse(b"245959"), None);
    // Minute 60 and second 60 are out of range.
    assert_eq!(GpsTime::parse(b"126059"), None);
    assert_eq!(GpsTime::parse(b"123560.0"), None);
    assert_eq!(GpsTime::parse(b"1235"), None);
    assert_eq!(GpsTime::parse(b""), None);
    assert_eq!(GpsTime::parse(b"12a519"), None);
}

#[test]
fn date_decoding() {
    assert_eq!(GpsDate::parse(b"230394"), Some(GpsDate { mon: 3, day: 23, year: 1994 }));
    // Month 13 and day 32 are rejected.
    assert_eq!(GpsDate::parse(b"231394"), None);
    assert_eq!(GpsDate::parse(b"320394"), None);
    assert_eq!(GpsDate::parse(b"2303"), None);
    // Day 30 in February is accepted: no calendar-length check.
    assert_eq!(GpsDate::parse(b"300294"), Some(GpsDate { mon: 2, day: 30, year: 1994 }));
}

#[test]
fn gps_date_new_bounds() {
    assert_eq!(GpsDate::new(12, 31, 2024), Some(GpsDate { mon: 12, day: 31, year: 2024 }));
    assert_eq!(GpsDate::new(13, 1, 2024), None);
    assert_eq!(GpsDate::new(1, 32, 2024), None);
}

#[test]
fn rmc_status_decoding() {
    assert_eq!(RmcStatus::parse(b"A"), Some(RmcStatus::Active));
    assert_eq!(RmcStatus::parse(b"V"), Some(RmcStatus::Void));
    assert_eq!(RmcStatus::parse(b"X"), None);
    assert_eq!(RmcStatus::parse(b""), None);
    assert_eq!(RmcStatus::parse(b"AV"), None);
}

#[test]
fn fix_quality_decoding() {
    assert_eq!(GpsFixQuality::parse(b"0"), GpsFixQuality::InvalidFix);
    assert_eq!(GpsFixQuality::parse(b"1"), GpsFixQuality::GPSFix);
    assert_eq!(GpsFixQuality::parse(b"2"), GpsFixQuality::DGPSFix);
    assert_eq!(GpsFixQuality::parse(b"4"), GpsFixQuality::RTKFixed);
    assert_eq!(GpsFixQuality::parse(b"5"), GpsFixQuality::RTKFloat);
    assert_eq!(GpsFixQuality::parse(b"3"), GpsFixQuality::Unknown);
    assert_eq!(GpsFixQuality::parse(b"9"), GpsFixQuality::Unknown);
    assert_eq!(GpsFixQuality::parse(b""), GpsFixQuality::Unknown);
    assert_eq!(GpsFixQuality::parse(b"x"), GpsFixQuality::Unknown);
    assert_eq!(GpsFixQuality::parse(b"-1"), GpsFixQuality::Unknown);
    assert_eq!(GpsFixQuality::parse(b"+1"), GpsFixQuality::GPSFix);
    assert_eq!(GpsFixQuality::parse(b"-0"), GpsFixQuality::InvalidFix);
}

#[test]
fn gga_wrong_comma_count_is_all_absent() {
    // Twelve commas instead of fourteen: every attribute absent, despite the
    // otherwise valid content.
    let n = NMEA::from_str("$GPGGA,123519,4807.038,N,01131.000,E,1,08,0.9,545.4,M,46.9,M*47")
        .unwrap();
    assert_eq!(n.sentence_type, NmeaType::GPGGA);
    let r = decode_gga(&n);
    assert_eq!(r, GPGGA::default());
    // A non-GGA sentence is likewise all absent.
    let z = NMEA::from_str("$GPZDA,201530.00,04,07,2002,00,00*60").unwrap();
    assert_eq!(decode_gga(&z), GPGGA::default());
}

#[test]
fn gga_full_decoding() {
    let n = NMEA::from_str("$GPGGA,123519,4807.038,N,01131.000,E,1,08,0.9,545.4,M,46.9,M,,*47")
        .unwrap();
    let r = decode_gga(&n);
    assert_eq!(r.time, Some(GpsTime { h: 12, m: 35, s: dec(false, 19, 0) }));
    assert_eq!(
        r.latitude,
        Some(Coord { neg: false, deg: dec(false, 48, 0), min: dec(false, 7038, 3) })
    );
    assert_eq!(
        r.longitude,
        Some(Coord { neg: false, deg: dec(false, 11, 0), min: dec(false, 31000, 3) })
    );
    assert_eq!(r.quality, Some(GpsFixQuality::GPSFix));
    assert_eq!(r.num_satellites, Some(8));
    assert_eq!(r.hdop, Some(dec(false, 9, 1)));
    assert_eq!(r.altitude, Some(dec(false, 5454, 1)));
    assert_eq!(r.geoid_seperation, Some(dec(false, 469, 1)));
    // The two trailing differential fields are empty: absent.
    assert_eq!(r.age, None);
    assert_eq!(r.dstation_id, None);
}

#[test]
fn zda_decoding() {
    let n = NMEA::from_str("$GPZDA,201530.00,04,07,2002,00,00*60").unwrap();
    let r = decode_zda(&n);
    assert_eq!(r.time, Some(GpsTime { h: 20, m: 15, s: dec(false, 3000, 2) }));
    assert_eq!(r.date, Some(GpsDate { mon: 7, day: 4, year: 2002 }));
    assert_eq!(r.zone_hours, Some(0));
    assert_eq!(r.zone_minutes, Some(0));
}

#[test]
fn zda_date_absent_when_year_missing() {
    // Day and month decode but the year does not: the combined date attribute
    // is absent while the rest of the record still decodes.
    let n = NMEA::from_str("$GPZDA,201530.00,04,07,,00,00*60").unwrap();
    let r = decode_zda(&n);
    assert_eq!(r.time, Some(GpsTime { h: 20, m: 15, s: dec(false, 3000, 2) }));
    assert_eq!(r.date, None);
    assert_eq!(r.zone_hours, Some(0));
}

#[test]
fn rmc_too_few_fields_is_all_absent() {
    let n = NMEA::from_str("$GPRMC,123519,A,4807.038,N,01131.000,E,022.4,084.4,230394,003.1*11")
        .unwrap();
    assert_eq!(decode_rmc(&n), GPRMC::default());
}

#[test]
fn rmc_end_to_end() {
    let n = NMEA::from_str("$GPRMC,123519,A,4807.038,N,01131.000,E,022.4,084.4,230394,003.1,W*6A")
        .unwrap();
    assert_eq!(n.sentence_type, NmeaType::GPRMC);
    let r = decode_rmc(&n);
    assert_eq!(r.time, Some(GpsTime { h: 12, m: 35, s: dec(false, 19, 0) }));
    assert_eq!(r.rmc_status, Some(RmcStatus::Active));
    // About 48.1173 degrees north.
    assert_eq!(
        r.latitude,
        Some(Coord { neg: false, deg: dec(false, 48, 0), min: dec(false, 7038, 3) })
    );
    // About 11.5167 degrees east.
    assert_eq!(
        r.longitude,
        Some(Coord { neg: false, deg: dec(false, 11, 0), min: dec(false, 31000, 3) })
    );
    assert_eq!(r.sog, Some(dec(false, 224, 1)));
    assert_eq!(r.cog, Some(dec(false, 844, 1)));
    assert_eq!(r.date, Some(GpsDate { mon: 3, day: 23, year: 1994 }));
    // 3.1 degrees west: negative.
    assert_eq!(r.magvar, Some(dec(true, 31, 1)));
}

#[test]
fn from_nmea_trait_matches_free_decoders() {
    let n = NMEA::from_str("$GPRMC,123519,A,4807.038,N,01131.000,E,022.4,084.4,230394,003.1,W*6A")
        .unwrap();
    assert_eq!(GPRMC::from_nmea(&n), decode_rmc(&n));
    assert_eq!(GPGGA::from_nmea(&n), GPGGA::default());
    assert_eq!(GPZDA::from_nmea(&n), GPZDA::default());
}

#[test]
fn decoders_never_fail_on_validated_input() {
    // Direct construction with mismatched tag: every decoder degrades to the
    // all-absent record.
    let n = NMEA {
        sentence: b"GPGGA,1,2".to_vec(),
        checksum: 0,
        sentence_type: NmeaType::GPGGA,
    };
    assert_eq!(decode_gga(&n), GPGGA::default());
    assert_eq!(decode_zda(&n), GPZDA::default());
    assert_eq!(decode_rmc(&n), GPRMC::default());
}

#[test]
fn time_negative_seconds_absent() {
    // A negative seconds field is out of the 0..60 range.
    assert_eq!(GpsTime::parse(b"1235-9"), None);
}

#[test]
fn year_anchored_at_1900() {
    // Two-digit source years always add 1900: 24 becomes 1924, not 2024.
    assert_eq!(GpsDate::parse(b"230324"), Some(GpsDate { mon: 3, day: 23, year: 1924 }));
}
