//! Sentence framing and validation: extracting the payload between `$` and
//! `*`, decoding and verifying the two-hex-digit checksum, and classifying
//! the talker identifier. A framed sentence exists only with a verified
//! checksum.

use vstd::prelude::*;
use vstd::string::StrSliceExecFns;
use vstd::string::StringSliceAdditionalSpecFns;
use crate::bytes::{
    COMMA, DOLLAR, STAR, bytes_eq, calc_nmea_checksum, find_byte, find_first, lemma_find_byte,
    lemma_find_byte_at, xor_fold,
};
use crate::num::is_digit;

verus! {

/// The kind of an NMEA sentence, told by its five-character talker and
/// sentence identifier; identifiers outside the decoded set are `Unknown`.
#[derive(Clone, Copy, Debug, PartialEq, Eq, Structural)]
pub enum NmeaType {
    GPGGA,
    GPRMC,
    GPZDA,
    Unknown,
}

/// Why framing rejected its input; a rejected sentence must not be trusted
/// and no record decoder runs on it.
#[derive(Clone, Copy, Debug, PartialEq, Eq, Structural)]
pub enum NmeaError {
    /// No text between the opening `$` and the closing `*` (or no `$` at all).
    EmptySentence,
    /// Fewer than two characters after `*`, or not valid hexadecimal digits.
    InvalidChecksumFormat,
    /// The recomputed checksum differs from the declared one.
    ChecksumMismatch,
}

/// A validated NMEA sentence: the payload between `$` and `*`, the verified
/// checksum byte, and the classified sentence kind.
#[derive(Debug)]
pub struct NMEA {
    /// The payload text, stripped of `$`, `*` and the checksum.
    pub sentence: Vec<u8>,
    /// The single checksum byte that the payload was verified against.
    pub checksum: u8,
    /// The kind read off the payload's leading identifier.
    pub sentence_type: NmeaType,
}

/// An ASCII hexadecimal digit.
pub open spec fn is_hex_digit(b: u8) -> bool {
    is_digit(b) || (97 <= b && b <= 102) || (65 <= b && b <= 70)
}

/// The value of a hexadecimal digit, upper or lower case.
pub open spec fn hex_val(b: u8) -> u8 {
    if is_digit(b) {
        (b - 48) as u8
    } else if 97 <= b && b <= 102 {
        (b - 87) as u8
    } else if 65 <= b && b <= 70 {
        (b - 55) as u8
    } else {
        0
    }
}

/// The payload of `s`: the bytes strictly between the first `$` and the
/// first `*` after it; all bytes after `$` when no `*` follows; empty when
/// there is no `$`.
pub open spec fn payload_of(s: Seq<u8>) -> Seq<u8> {
    match find_byte(s, DOLLAR) {
        None => Seq::empty(),
        Some(i) => if 0 <= i < s.len() {
            let rest = s.subrange(i + 1, s.len() as int);
            match find_byte(rest, STAR) {
                None => rest,
                Some(j) => if 0 <= j <= rest.len() {
                    rest.take(j)
                } else {
                    rest
                },
            }
        } else {
            Seq::empty()
        },
    }
}

/// The bytes after the `*` that closes the payload; empty when no such `*`
/// exists. The first two are the declared checksum.
pub open spec fn checksum_text_of(s: Seq<u8>) -> Seq<u8> {
    match find_byte(s, DOLLAR) {
        None => Seq::empty(),
        Some(i) => if 0 <= i < s.len() {
            let rest = s.subrange(i + 1, s.len() as int);
            match find_byte(rest, STAR) {
                None => Seq::empty(),
                Some(j) => if 0 <= j < rest.len() {
                    rest.subrange(j + 1, rest.len() as int)
                } else {
                    Seq::empty()
                },
            }
        } else {
            Seq::empty()
        },
    }
}

/// The checksum a sentence declares: its two hex digits after `*` decoded as
/// one base-16 byte, or `None` when fewer than two characters follow the `*`
/// or either is not a hex digit.
pub open spec fn claimed_checksum(s: Seq<u8>) -> Option<u8> {
    let t = checksum_text_of(s);
    if t.len() >= 2 && is_hex_digit(t[0]) && is_hex_digit(t[1]) {
        Some((hex_val(t[0]) * 16 + hex_val(t[1])) as u8)
    } else {
        None
    }
}

/// ASCII `GPGGA`.
pub open spec fn gpgga_id() -> Seq<u8> {
    seq![71u8, 80u8, 71u8, 71u8, 65u8]
}

/// ASCII `GPRMC`.
pub open spec fn gprmc_id() -> Seq<u8> {
    seq![71u8, 80u8, 82u8, 77u8, 67u8]
}

/// ASCII `GPZDA`.
pub open spec fn gpzda_id() -> Seq<u8> {
    seq![71u8, 80u8, 90u8, 68u8, 65u8]
}

/// The kind tag of a payload: its text up to the first comma, matched
/// against the recognized identifiers; anything else is `Unknown`.
pub open spec fn kind_of(p: Seq<u8>) -> NmeaType {
    let id = match find_byte(p, COMMA) {
        None => p,
        Some(i) => if 0 <= i <= p.len() {
            p.take(i)
        } else {
            p
        },
    };
    if id == gpgga_id() {
        NmeaType::GPGGA
    } else if id == gprmc_id() {
        NmeaType::GPRMC
    } else if id == gpzda_id() {
        NmeaType::GPZDA
    } else {
        NmeaType::Unknown
    }
}

/// What framing `s` yields: the payload, the verified checksum and the kind,
/// or the one failure the input earns. An empty payload is `EmptySentence`;
/// then a missing or malformed checksum is `InvalidChecksumFormat`; then a
/// checksum that does not equal the exclusive-or of the payload bytes is
/// `ChecksumMismatch`.
pub open spec fn frame_result(s: Seq<u8>) -> Result<(Seq<u8>, u8, NmeaType), NmeaError> {
    let p = payload_of(s);
    if p.len() == 0 {
        Err(NmeaError::EmptySentence)
    } else {
        match claimed_checksum(s) {
            None => Err(NmeaError::InvalidChecksumFormat),
            Some(cs) => if xor_fold(p) != cs {
                Err(NmeaError::ChecksumMismatch)
            } else {
                Ok((p, cs, kind_of(p)))
            },
        }
    }
}

/// The value of one hexadecimal digit byte, or `None` for any other byte.
pub fn hex_digit_val(b: u8) -> (r: Option<u8>)
    ensures
        r == (if is_hex_digit(b) {
            Some(hex_val(b))
        } else {
            None::<u8>
        }),
        r matches Some(v) ==> v <= 15,
{
    if 48 <= b && b <= 57 {
        Some(b - 48)
    } else if 97 <= b && b <= 102 {
        Some(b - 87)
    } else if 65 <= b && b <= 70 {
        Some(b - 55)
    } else {
        None
    }
}

/// Classifies a payload by its leading identifier, the text before the first
/// comma; an unrecognized identifier is `Unknown`, never a failure.
pub fn get_nmea_type(nmea: &[u8]) -> (r: NmeaType)
    ensures
        r == kind_of(nmea@),
{
    proof {
        lemma_find_byte(nmea@, COMMA);
    }
    let id: &[u8] = match find_first(nmea, COMMA) {
        None => nmea,
        Some(i) => vstd::slice::slice_subrange(nmea, 0, i),
    };
    let gga: [u8; 5] = [71, 80, 71, 71, 65];
    let rmc: [u8; 5] = [71, 80, 82, 77, 67];
    let zda: [u8; 5] = [71, 80, 90, 68, 65];
    proof {
        assert(gga@ =~= gpgga_id());
        assert(rmc@ =~= gprmc_id());
        assert(zda@ =~= gpzda_id());
    }
    if bytes_eq(id, &gga) {
        NmeaType::GPGGA
    } else if bytes_eq(id, &rmc) {
        NmeaType::GPRMC
    } else if bytes_eq(id, &zda) {
        NmeaType::GPZDA
    } else {
        NmeaType::Unknown
    }
}

impl NMEA {
    /// A well-formed validated sentence: nonempty payload whose verified
    /// checksum and kind tag are the ones the payload itself determines.
    /// Existence through the framer implies validity.
    pub open spec fn wf(self) -> bool {
        &&& self.sentence@.len() > 0
        &&& self.checksum == xor_fold(self.sentence@)
        &&& self.sentence_type == kind_of(self.sentence@)
    }

    /// Frames and validates one candidate sentence given as raw bytes;
    /// arbitrary noise may surround the sentence.
    pub fn from_bytes(s: &[u8]) -> (r: Result<NMEA, NmeaError>)
        ensures
            match frame_result(s@) {
                Ok(f) => r matches Ok(n) && n.sentence@ == f.0 && n.checksum == f.1
                    && n.sentence_type == f.2,
                Err(e) => r matches Err(e2) && e2 == e,
            },
            r matches Ok(n) ==> n.wf(),
    {
        let n: usize = s.len();
        proof {
            lemma_find_byte(s@, DOLLAR);
        }
        let oi: Option<usize> = find_first(s, DOLLAR);
        match oi {
            None => Err(NmeaError::EmptySentence),
            Some(i) => {
                let rest: &[u8] = vstd::slice::slice_subrange(s, i + 1, n);
                let m: usize = rest.len();
                proof {
                    lemma_find_byte(rest@, STAR);
                }
                let oj: Option<usize> = find_first(rest, STAR);
                match oj {
                    None => {
                        if m == 0 {
                            Err(NmeaError::EmptySentence)
                        } else {
                            Err(NmeaError::InvalidChecksumFormat)
                        }
                    },
                    Some(j) => {
                        let payload: &[u8] = vstd::slice::slice_subrange(rest, 0, j);
                        let tail: &[u8] = vstd::slice::slice_subrange(rest, j + 1, m);
                        proof {
                            assert(payload@ =~= payload_of(s@));
                            assert(tail@ =~= checksum_text_of(s@));
                        }
                        if payload.len() == 0 {
                            return Err(NmeaError::EmptySentence);
                        }
                        if tail.len() < 2 {
                            return Err(NmeaError::InvalidChecksumFormat);
                        }
                        let h1: Option<u8> = hex_digit_val(tail[0]);
                        let h2: Option<u8> = hex_digit_val(tail[1]);
                        let cs: u8 = match (h1, h2) {
                            (Some(a), Some(c)) => a * 16 + c,
                            _ => {
                                return Err(NmeaError::InvalidChecksumFormat);
                            },
                        };
                        let computed: u8 = calc_nmea_checksum(payload);
                        if computed != cs {
                            return Err(NmeaError::ChecksumMismatch);
                        }
                        let kind: NmeaType = get_nmea_type(payload);
                        Ok(
                            NMEA {
                                sentence: vstd::slice::slice_to_vec(payload),
                                checksum: cs,
                                sentence_type: kind,
                            },
                        )
                    },
                }
            },
        }
    }

    /// Frames and validates one candidate sentence given as text.
    pub fn from_str(s: &str) -> (r: Result<NMEA, NmeaError>)
        ensures
            match frame_result(s.spec_bytes()) {
                Ok(f) => r matches Ok(n) && n.sentence@ == f.0 && n.checksum == f.1
                    && n.sentence_type == f.2,
                Err(e) => r matches Err(e2) && e2 == e,
            },
            r matches Ok(n) ==> n.wf(),
    {
        let v: Vec<u8> = s.as_bytes_vec();
        NMEA::from_bytes(v.as_slice())
    }

    /// Frames and validates one candidate sentence, with the failure reasons
    /// collapsed to absence.
    pub fn new(s: &str) -> (r: Option<NMEA>)
        ensures
            match frame_result(s.spec_bytes()) {
                Ok(f) => r matches Some(n) && n.sentence@ == f.0 && n.checksum == f.1
                    && n.sentence_type == f.2 && n.wf(),
                Err(_) => r is None,
            },
    {
        match NMEA::from_str(s) {
            Ok(n) => Some(n),
            Err(_) => None,
        }
    }
}

/// The absolute index in `s` of the `*` that closes the payload: the first
/// `*` after the first `$`.
pub open spec fn star_ix(s: Seq<u8>) -> Option<int> {
    match find_byte(s, DOLLAR) {
        None => None,
        Some(i) => if 0 <= i < s.len() {
            match find_byte(s.subrange(i + 1, s.len() as int), STAR) {
                None => None,
                Some(j) => Some(i + 1 + j),
            }
        } else {
            None
        },
    }
}

/// Mutating either checksum hex digit of a sentence that framed successfully,
/// to a hex digit under which the declared checksum no longer matches, makes
/// framing fail with `ChecksumMismatch` and with no other error.
pub proof fn lemma_checksum_digit_mutation(s: Seq<u8>, k: int, c: u8)
    requires
        frame_result(s) is Ok,
        star_ix(s) matches Some(t) && (k == t + 1 || k == t + 2),
        is_hex_digit(c),
        claimed_checksum(s.update(k, c)) != Some(xor_fold(payload_of(s))),
    ensures
        frame_result(s.update(k, c)) == Err::<(Seq<u8>, u8, NmeaType), _>(
            NmeaError::ChecksumMismatch,
        ),
{
    lemma_find_byte(s, DOLLAR);
    let i = find_byte(s, DOLLAR)->Some_0;
    let rest = s.subrange(i + 1, s.len() as int);
    lemma_find_byte(rest, STAR);
    let j = find_byte(rest, STAR)->Some_0;
    let t = i + 1 + j;
    let tail = checksum_text_of(s);
    assert(tail == rest.subrange(j + 1, rest.len() as int));
    assert(tail.len() >= 2);
    assert(k < s.len());
    let s2 = s.update(k, c);
    assert(s2[i] == DOLLAR);
    lemma_find_byte_at(s2, DOLLAR, i);
    let rest2 = s2.subrange(i + 1, s.len() as int);
    assert(rest2 =~= rest.update(k - i - 1, c));
    lemma_find_byte_at(rest2, STAR, j);
    assert(payload_of(s2) =~= payload_of(s));
    assert(checksum_text_of(s2) =~= tail.update(k - t - 1, c));
    let tail2 = checksum_text_of(s2);
    assert(is_hex_digit(tail2[0]) && is_hex_digit(tail2[1]));
    assert(claimed_checksum(s2) is Some);
}

/// Framing succeeds on every sentence whose payload is nonempty and whose
/// declared checksum is two hex digits matching the exclusive-or of the
/// payload bytes; the framed payload is exactly the text strictly between
/// the first `$` and the first `*` after it.
pub proof fn lemma_frame_success(s: Seq<u8>)
    requires
        payload_of(s).len() > 0,
        checksum_text_of(s).len() >= 2,
        is_hex_digit(checksum_text_of(s)[0]),
        is_hex_digit(checksum_text_of(s)[1]),
        hex_val(checksum_text_of(s)[0]) * 16 + hex_val(checksum_text_of(s)[1]) == xor_fold(
            payload_of(s),
        ),
    ensures
        frame_result(s) == Ok::<_, NmeaError>(
            (payload_of(s), xor_fold(payload_of(s)), kind_of(payload_of(s))),
        ),
{
}

} // verus!
