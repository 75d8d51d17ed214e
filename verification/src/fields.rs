//! Field-level decoders: time of day, date, latitude, longitude, magnetic
//! variation, fix quality and RMC status. Each is a pure function from field
//! text to an optional typed value; malformed text yields absence, never a
//! hard failure.

use vstd::prelude::*;
use crate::bytes::MINUS;
use crate::bytes::PLUS;
use crate::num::{
    Dec, all_digits, digits_val, lemma_pow10_mono, parse_dec, parse_digits, parse_uint, pow10,
    spec_parse_dec, spec_parse_digits, spec_parse_uint,
};

verus! {

/// ASCII `N`.
pub const NORTH: u8 = 78;

/// ASCII `S`.
pub const SOUTH: u8 = 83;

/// ASCII `E`.
pub const EAST: u8 = 69;

/// ASCII `W`.
pub const WEST: u8 = 87;

/// ASCII `A`.
pub const LETTER_A: u8 = 65;

/// ASCII `V`.
pub const LETTER_V: u8 = 86;

/// The first `n` bytes of `s`, or all of `s` when it is shorter.
pub open spec fn take_upto(s: Seq<u8>, n: int) -> Seq<u8> {
    if s.len() <= n {
        s
    } else {
        s.take(n)
    }
}

/// `s` without its first `n` bytes; empty when `s` is no longer than `n`.
pub open spec fn skip_upto(s: Seq<u8>, n: int) -> Seq<u8> {
    if s.len() <= n {
        Seq::empty()
    } else {
        s.skip(n)
    }
}

/// The first `n` bytes of `s`, or all of `s` when it is shorter.
pub fn head_upto(s: &[u8], n: usize) -> (r: &[u8])
    ensures
        r@ == take_upto(s@, n as int),
{
    let e: usize = if s.len() < n {
        s.len()
    } else {
        n
    };
    let r: &[u8] = vstd::slice::slice_subrange(s, 0, e);
    proof {
        assert(r@ =~= take_upto(s@, n as int));
    }
    r
}

/// `s` without its first `n` bytes; empty when `s` is no longer than `n`.
pub fn tail_from(s: &[u8], n: usize) -> (r: &[u8])
    ensures
        r@ == skip_upto(s@, n as int),
{
    let e: usize = if s.len() < n {
        s.len()
    } else {
        n
    };
    let r: &[u8] = vstd::slice::slice_subrange(s, e, s.len());
    proof {
        assert(r@ =~= skip_upto(s@, n as int));
    }
    r
}

/// Whether `s` is exactly the one byte `c`.
fn is_single(s: &[u8], c: u8) -> (r: bool)
    ensures
        r == (s@ == seq![c]),
{
    if s.len() == 1 && s[0] == c {
        proof {
            assert(s@ =~= seq![c]);
        }
        true
    } else {
        proof {
            if s@ == seq![c] {
                assert(s@.len() == 1);
                assert(s@[0] == c);
            }
        }
        false
    }
}

/// A time of day: hours, minutes, and exact fractional seconds.
#[derive(Clone, Copy, Debug, PartialEq, Eq, Structural)]
pub struct GpsTime {
    /// Hours, 0 through 23.
    pub h: u8,
    /// Minutes, 0 through 59.
    pub m: u8,
    /// Seconds, at least 0 and below 60.
    pub s: Dec,
}

/// A date. Day and month are bounded at construction; the day is not checked
/// against the month's length.
#[derive(Clone, Copy, Debug, PartialEq, Eq, Structural)]
pub struct GpsDate {
    /// Month, 1 through 12 (0 is not rejected).
    pub mon: u8,
    /// Day of month, 1 through 31 (0 is not rejected).
    pub day: u8,
    /// Full year.
    pub year: u16,
}

/// A latitude or longitude, kept in its sexagesimal wire form: the value in
/// decimal degrees is `deg + min / 60`, negated when `neg` holds (southern or
/// western hemisphere).
#[derive(Clone, Copy, Debug, PartialEq, Eq, Structural)]
pub struct Coord {
    /// Whether the hemisphere letter negates the value (`S` or `W`).
    pub neg: bool,
    /// The whole degrees, as written.
    pub deg: Dec,
    /// The minutes, as written.
    pub min: Dec,
}

/// The status field of an RMC sentence. There is no catch-all: any code
/// other than `A` or `V` is a decode failure.
#[derive(Clone, Copy, Debug, PartialEq, Eq, Structural)]
pub enum RmcStatus {
    Active,
    Void,
}

/// The quality of a GPS fix, from the small integer code of a GGA sentence;
/// unrecognized codes are `Unknown`, never a failure.
#[derive(Clone, Copy, Debug, PartialEq, Eq, Structural)]
pub enum GpsFixQuality {
    InvalidFix,
    GPSFix,
    DGPSFix,
    RTKFixed,
    RTKFloat,
    Unknown,
}

/// Whether the decimal value is below sixty: its mantissa is smaller than
/// sixty at the mantissa's own scale.
pub open spec fn dec_below_sixty(d: Dec) -> bool {
    (d.mant as nat) < 60 * pow10(d.scale as nat)
}

/// Decides `dec_below_sixty`.
fn check_below_sixty(d: &Dec) -> (r: bool)
    ensures
        r == dec_below_sixty(*d),
{
    let e: usize = if d.scale > 20 {
        20
    } else {
        d.scale
    };
    let mut p: u128 = 1;
    let mut k: usize = 0;
    while k < e
        invariant
            0 <= k <= e <= 20,
            p == pow10(k as nat),
        decreases e - k,
    {
        proof {
            lemma_pow10_mono(k as nat + 1, 20);
            lemma_pow10_mono(0, 20);
            assert(pow10(20) == 100000000000000000000) by {
                reveal_with_fuel(pow10, 21);
            }
        }
        p = p * 10;
        k = k + 1;
    }
    proof {
        lemma_pow10_mono(e as nat, 20);
        assert(pow10(20) == 100000000000000000000) by {
            reveal_with_fuel(pow10, 21);
        }
    }
    if d.scale > 20 {
        proof {
            lemma_pow10_mono(20, d.scale as nat);
        }
        true
    } else {
        (d.mant as u128) < 60 * p
    }
}

/// What decoding a time-of-day field yields: the first two characters as
/// hours, the next two as minutes, the remainder as decimal seconds; absent
/// when any part fails to parse, or when hours exceed 23, minutes exceed 59,
/// or seconds are negative or 60 and above.
pub open spec fn spec_gps_time(t: Seq<u8>) -> Option<GpsTime> {
    let h = spec_parse_uint(take_upto(t, 2), 255);
    let m = spec_parse_uint(take_upto(skip_upto(t, 2), 2), 255);
    let sec = spec_parse_dec(skip_upto(t, 4));
    match (h, m, sec) {
        (Some(h), Some(m), Some(sec)) => if h <= 23 && m <= 59 && !sec.is_strictly_neg()
            && dec_below_sixty(sec) {
            Some(GpsTime { h: h as u8, m: m as u8, s: sec })
        } else {
            None
        },
        _ => None,
    }
}

/// What decoding a DDMMYY date field yields: the first two characters as
/// day, the next two as month, the remainder as a year counted from 1900;
/// absent when a part fails to parse, when month exceeds 12 or day exceeds
/// 31, or when the source year does not fit once 1900 is added.
pub open spec fn spec_gps_date(t: Seq<u8>) -> Option<GpsDate> {
    let day = spec_parse_uint(take_upto(t, 2), 255);
    let mon = spec_parse_uint(take_upto(skip_upto(t, 2), 2), 255);
    let year = spec_parse_uint(skip_upto(t, 4), 65535);
    match (day, mon, year) {
        (Some(d), Some(mo), Some(y)) => if mo <= 12 && d <= 31 && y + 1900 <= 65535 {
            Some(GpsDate { mon: mo as u8, day: d as u8, year: (y + 1900) as u16 })
        } else {
            None
        },
        _ => None,
    }
}

/// What decoding a latitude value and hemisphere yields: the first two
/// characters as degrees, the remainder as minutes, negated for `S`; absent
/// when a number fails to parse or the hemisphere is neither `N` nor `S`.
pub open spec fn spec_parse_lat(v: Seq<u8>, dir: Seq<u8>) -> Option<Coord> {
    let deg = spec_parse_dec(take_upto(v, 2));
    let min = spec_parse_dec(skip_upto(v, 2));
    match (deg, min) {
        (Some(dg), Some(mn)) => if dir == seq![NORTH] {
            Some(Coord { neg: false, deg: dg, min: mn })
        } else if dir == seq![SOUTH] {
            Some(Coord { neg: true, deg: dg, min: mn })
        } else {
            None
        },
        _ => None,
    }
}

/// What decoding a longitude value and hemisphere yields: as for latitude,
/// but degrees take three characters and the hemispheres are `E` and `W`.
pub open spec fn spec_parse_lon(v: Seq<u8>, dir: Seq<u8>) -> Option<Coord> {
    let deg = spec_parse_dec(take_upto(v, 3));
    let min = spec_parse_dec(skip_upto(v, 3));
    match (deg, min) {
        (Some(dg), Some(mn)) => if dir == seq![EAST] {
            Some(Coord { neg: false, deg: dg, min: mn })
        } else if dir == seq![WEST] {
            Some(Coord { neg: true, deg: dg, min: mn })
        } else {
            None
        },
        _ => None,
    }
}

/// What decoding a magnetic-variation value and hemisphere yields: the value
/// as written for `E`, negated for `W`; absent when the number fails to
/// parse or the hemisphere is neither.
pub open spec fn spec_parse_magvar(v: Seq<u8>, dir: Seq<u8>) -> Option<Dec> {
    match spec_parse_dec(v) {
        Some(m) => if dir == seq![EAST] {
            Some(m)
        } else if dir == seq![WEST] {
            Some(m.spec_negate())
        } else {
            None
        },
        None => None,
    }
}

/// The body of integer text: what follows one optional `+` or `-`.
pub open spec fn int_body(s: Seq<u8>) -> Seq<u8> {
    if s.len() > 0 && (s[0] == MINUS || s[0] == PLUS) {
        s.drop_first()
    } else {
        s
    }
}

/// Text that a signed-integer parse accepts: an optional sign, then at least
/// one digit and nothing else.
pub open spec fn is_int_text(s: Seq<u8>) -> bool {
    int_body(s).len() > 0 && all_digits(int_body(s))
}

/// What decoding a fix-quality code yields: the named qualities for 0, 1, 2,
/// 4 and 5, and `Unknown` for every other integer and for text that is no
/// integer at all.
pub open spec fn spec_fix_quality(t: Seq<u8>) -> GpsFixQuality {
    if !is_int_text(t) {
        GpsFixQuality::Unknown
    } else {
        let neg = t[0] == MINUS;
        let v = digits_val(int_body(t));
        if neg && v > 0 {
            GpsFixQuality::Unknown
        } else if v == 0 {
            GpsFixQuality::InvalidFix
        } else if v == 1 {
            GpsFixQuality::GPSFix
        } else if v == 2 {
            GpsFixQuality::DGPSFix
        } else if v == 4 {
            GpsFixQuality::RTKFixed
        } else if v == 5 {
            GpsFixQuality::RTKFloat
        } else {
            GpsFixQuality::Unknown
        }
    }
}

/// What decoding an RMC status code yields: `A` is Active, `V` is Void, and
/// anything else is absent.
pub open spec fn spec_rmc_status(t: Seq<u8>) -> Option<RmcStatus> {
    if t == seq![LETTER_A] {
        Some(RmcStatus::Active)
    } else if t == seq![LETTER_V] {
        Some(RmcStatus::Void)
    } else {
        None
    }
}

impl GpsTime {
    /// Decodes a time-of-day field such as `123519` or `235959.99`.
    pub fn parse(t: &[u8]) -> (r: Option<GpsTime>)
        ensures
            r == spec_gps_time(t@),
    {
        let h = parse_uint(head_upto(t, 2), 255);
        let m = parse_uint(head_upto(tail_from(t, 2), 2), 255);
        let sec = parse_dec(tail_from(t, 4));
        match (h, m, sec) {
            (Some(h), Some(m), Some(sec)) => {
                if h <= 23 && m <= 59 && !(sec.neg && sec.mant > 0) && check_below_sixty(&sec) {
                    Some(GpsTime { h: h as u8, m: m as u8, s: sec })
                } else {
                    None
                }
            },
            _ => None,
        }
    }
}

impl GpsDate {
    /// Builds a date, absent when month exceeds 12 or day exceeds 31.
    pub fn new(mon: u8, day: u8, year: u16) -> (r: Option<GpsDate>)
        ensures
            r == (if mon > 12 || day > 31 {
                None::<GpsDate>
            } else {
                Some(GpsDate { mon, day, year })
            }),
    {
        if mon > 12 || day > 31 {
            None
        } else {
            Some(GpsDate { mon, day, year })
        }
    }

    /// Decodes a DDMMYY date field such as `230394`, anchoring the two-digit
    /// year at 1900.
    pub fn parse(t: &[u8]) -> (r: Option<GpsDate>)
        ensures
            r == spec_gps_date(t@),
    {
        let day = parse_uint(head_upto(t, 2), 255);
        let mon = parse_uint(head_upto(tail_from(t, 2), 2), 255);
        let year = parse_uint(tail_from(t, 4), 65535);
        match (day, mon, year) {
            (Some(d), Some(mo), Some(y)) => {
                if mo <= 12 && d <= 31 && y <= 65535 - 1900 {
                    Some(GpsDate { mon: mo as u8, day: d as u8, year: (y + 1900) as u16 })
                } else {
                    None
                }
            },
            _ => None,
        }
    }
}

impl RmcStatus {
    /// Decodes an RMC status code: `A` or `V`.
    pub fn parse(t: &[u8]) -> (r: Option<RmcStatus>)
        ensures
            r == spec_rmc_status(t@),
    {
        if is_single(t, LETTER_A) {
            Some(RmcStatus::Active)
        } else if is_single(t, LETTER_V) {
            Some(RmcStatus::Void)
        } else {
            None
        }
    }
}

impl GpsFixQuality {
    /// Decodes a fix-quality code; anything but 0, 1, 2, 4 or 5 is `Unknown`.
    pub fn parse(t: &[u8]) -> (r: GpsFixQuality)
        ensures
            r == spec_fix_quality(t@),
    {
        let n: usize = t.len();
        let neg: bool = n > 0 && t[0] == MINUS;
        let start: usize = if n > 0 && (t[0] == MINUS || t[0] == PLUS) {
            1
        } else {
            0
        };
        let body: &[u8] = tail_from(t, start);
        proof {
            assert(body@ =~= int_body(t@));
        }
        match parse_digits(body, 5) {
            None => GpsFixQuality::Unknown,
            Some(v) => {
                if neg && v > 0 {
                    GpsFixQuality::Unknown
                } else if v == 0 {
                    GpsFixQuality::InvalidFix
                } else if v == 1 {
                    GpsFixQuality::GPSFix
                } else if v == 2 {
                    GpsFixQuality::DGPSFix
                } else if v == 4 {
                    GpsFixQuality::RTKFixed
                } else if v == 5 {
                    GpsFixQuality::RTKFloat
                } else {
                    GpsFixQuality::Unknown
                }
            },
        }
    }
}

/// Decodes a latitude value and hemisphere letter into its exact sexagesimal
/// parts: two degree characters, then minutes; `N` positive, `S` negative.
pub fn parse_nmea_lat(latval: &[u8], dir: &[u8]) -> (r: Option<Coord>)
    ensures
        r == spec_parse_lat(latval@, dir@),
{
    let deg = parse_dec(head_upto(latval, 2));
    let min = parse_dec(tail_from(latval, 2));
    match (deg, min) {
        (Some(dg), Some(mn)) => {
            if is_single(dir, NORTH) {
                Some(Coord { neg: false, deg: dg, min: mn })
            } else if is_single(dir, SOUTH) {
                Some(Coord { neg: true, deg: dg, min: mn })
            } else {
                None
            }
        },
        _ => None,
    }
}

/// Decodes a longitude value and hemisphere letter into its exact
/// sexagesimal parts: three degree characters, then minutes; `E` positive,
/// `W` negative.
pub fn parse_nmea_lon(lonval: &[u8], dir: &[u8]) -> (r: Option<Coord>)
    ensures
        r == spec_parse_lon(lonval@, dir@),
{
    let deg = parse_dec(head_upto(lonval, 3));
    let min = parse_dec(tail_from(lonval, 3));
    match (deg, min) {
        (Some(dg), Some(mn)) => {
            if is_single(dir, EAST) {
                Some(Coord { neg: false, deg: dg, min: mn })
            } else if is_single(dir, WEST) {
                Some(Coord { neg: true, deg: dg, min: mn })
            } else {
                None
            }
        },
        _ => None,
    }
}

/// Decodes a magnetic-variation value and hemisphere letter: `E` keeps the
/// sign as written, `W` negates it.
pub fn parse_nmea_magvar(magvar_val: &[u8], dir: &[u8]) -> (r: Option<Dec>)
    ensures
        r == spec_parse_magvar(magvar_val@, dir@),
{
    match parse_dec(magvar_val) {
        Some(m) => {
            if is_single(dir, EAST) {
                Some(m)
            } else if is_single(dir, WEST) {
                Some(m.negate())
            } else {
                None
            }
        },
        None => None,
    }
}

} // verus!
