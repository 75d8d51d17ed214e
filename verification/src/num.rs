//! Decoding of numeric text fields: unsigned integers as `parse::<uN>` reads
//! them (optional leading `+`, then decimal digits), and plain decimal numbers,
//! which the library keeps exact as a sign, a mantissa and a scale instead of
//! rounding them into floating point.

use vstd::prelude::*;
use crate::bytes::{
    DOT, MINUS, PLUS, count_byte, find_byte, lemma_count_byte_append, lemma_find_byte,
    lemma_find_byte_at, lemma_find_byte_none,
};

verus! {

/// An ASCII decimal digit, `0` through `9`.
pub open spec fn is_digit(b: u8) -> bool {
    48 <= b && b <= 57
}

/// The value of a sequence of digit bytes, most significant first.
pub open spec fn digits_val(s: Seq<u8>) -> nat
    decreases s.len(),
{
    if s.len() == 0 {
        0
    } else {
        digits_val(s.drop_last()) * 10 + (s.last() - 48) as nat
    }
}

/// Every byte of `s` is a digit.
pub open spec fn all_digits(s: Seq<u8>) -> bool {
    forall|i: int| 0 <= i < s.len() ==> is_digit(s[i])
}

/// `s` with one leading `+` removed, if present: the sign handling of
/// `parse` for unsigned integers.
pub open spec fn strip_plus(s: Seq<u8>) -> Seq<u8> {
    if s.len() > 0 && s[0] == PLUS {
        s.drop_first()
    } else {
        s
    }
}

/// Text that an unsigned-integer parse accepts: an optional `+`, then at
/// least one digit and nothing else.
pub open spec fn is_uint_text(s: Seq<u8>) -> bool {
    strip_plus(s).len() > 0 && all_digits(strip_plus(s))
}

/// The value of unsigned-integer text.
pub open spec fn uint_text_val(s: Seq<u8>) -> nat {
    digits_val(strip_plus(s))
}

/// What parsing `s` as an unsigned integer no greater than `max` yields:
/// the value when the text is well formed and in range, absent otherwise.
pub open spec fn spec_parse_uint(s: Seq<u8>, max: nat) -> Option<u64> {
    if is_uint_text(s) && uint_text_val(s) <= max {
        Some(uint_text_val(s) as u64)
    } else {
        None
    }
}

/// Ten to the `n`th power.
pub open spec fn pow10(n: nat) -> nat
    decreases n,
{
    if n == 0 {
        1
    } else {
        10 * pow10((n - 1) as nat)
    }
}

/// Powers of ten grow with the exponent.
pub proof fn lemma_pow10_mono(a: nat, b: nat)
    requires
        a <= b,
    ensures
        0 < pow10(a) <= pow10(b),
    decreases b,
{
    if b > 0 {
        if a == b {
            lemma_pow10_mono(0, (b - 1) as nat);
        } else {
            lemma_pow10_mono(a, (b - 1) as nat);
        }
    }
}

/// What parsing `s` as bare digits yields: the value when `s` is one or more
/// digits and nothing else, and the value is at most `max`; absent otherwise.
pub open spec fn spec_parse_digits(s: Seq<u8>, max: nat) -> Option<u64> {
    if s.len() > 0 && all_digits(s) && digits_val(s) <= max {
        Some(digits_val(s) as u64)
    } else {
        None
    }
}

/// Parses `s` as a run of decimal digits, absent when `s` is empty, holds a
/// non-digit, or exceeds `max`.
pub fn parse_digits(s: &[u8], max: u64) -> (r: Option<u64>)
    ensures
        r == spec_parse_digits(s@, max as nat),
{
    let n: usize = s.len();
    if n == 0 {
        return None;
    }
    let mut i: usize = 0;
    let mut acc: u64 = 0;
    while i < n
        invariant
            0 <= i <= n,
            n == s@.len(),
            all_digits(s@.take(i as int)),
            acc == digits_val(s@.take(i as int)),
            acc <= max,
        decreases n - i,
    {
        let b: u8 = s[i];
        proof {
            assert(s@.take(i + 1).drop_last() =~= s@.take(i as int));
        }
        if !(48 <= b && b <= 57) {
            proof {
                assert(!is_digit(s@[i as int]));
                assert(!all_digits(s@));
            }
            return None;
        }
        let d: u64 = (b - 48) as u64;
        let wide: u128 = acc as u128 * 10 + d as u128;
        if wide > max as u128 {
            proof {
                assert(digits_val(s@.take(i + 1)) == acc * 10 + d);
                lemma_digits_val_take_le(s@, i + 1, n as int);
                assert(s@.take(n as int) =~= s@);
                assert(digits_val(s@) > max);
            }
            return None;
        }
        acc = wide as u64;
        i = i + 1;
    }
    proof {
        assert(s@.take(n as int) =~= s@);
    }
    Some(acc)
}

/// The value of a digit prefix never exceeds the value of a longer prefix.
pub proof fn lemma_digits_val_take_le(s: Seq<u8>, i: int, j: int)
    requires
        0 <= i <= j <= s.len(),
    ensures
        digits_val(s.take(i)) <= digits_val(s.take(j)),
    decreases j - i,
{
    if i < j {
        lemma_digits_val_take_le(s, i, j - 1);
        assert(s.take(j).drop_last() =~= s.take(j - 1));
    }
}

/// Parses `s` as an unsigned decimal integer, absent when the text is not an
/// optional `+` followed by digits only, or when the value exceeds `max`.
pub fn parse_uint(s: &[u8], max: u64) -> (r: Option<u64>)
    ensures
        r == spec_parse_uint(s@, max as nat),
{
    let n: usize = s.len();
    let start: usize = if n > 0 && s[0] == PLUS {
        1
    } else {
        0
    };
    let ghost t = strip_plus(s@);
    proof {
        assert(t =~= s@.skip(start as int));
    }
    if start == n {
        return None;
    }
    let mut i: usize = start;
    let mut acc: u64 = 0;
    while i < n
        invariant
            start <= i <= n,
            n == s@.len(),
            t == strip_plus(s@),
            t == s@.skip(start as int),
            t.len() == n - start,
            all_digits(t.take(i - start)),
            acc == digits_val(t.take(i - start)),
            acc <= max,
        decreases n - i,
    {
        let b: u8 = s[i];
        proof {
            assert(t[i - start] == s@[i as int]);
            assert(t.take(i - start + 1).drop_last() =~= t.take(i - start));
        }
        if !(48 <= b && b <= 57) {
            proof {
                assert(!is_digit(t[i - start]));
                assert(!all_digits(t));
            }
            return None;
        }
        let d: u64 = (b - 48) as u64;
        let wide: u128 = acc as u128 * 10 + d as u128;
        if wide > max as u128 {
            proof {
                assert(digits_val(t.take(i - start + 1)) == acc * 10 + d);
                lemma_digits_val_take_le(t, i - start + 1, t.len() as int);
                assert(t.take(t.len() as int) =~= t);
                assert(digits_val(t) > max);
            }
            return None;
        }
        acc = wide as u64;
        i = i + 1;
    }
    proof {
        assert(t.take(t.len() as int) =~= t);
    }
    Some(acc)
}

/// A plain decimal number, kept exactly as it was written: the value is
/// `mant / 10^scale`, negated when `neg` holds. `3.25` is mantissa `325` at
/// scale `2`; the representation preserves the written digits, so `3.10` and
/// `3.1` differ in scale though they name the same quantity.
#[derive(Clone, Copy, Debug, PartialEq, Eq, Structural)]
pub struct Dec {
    /// Whether the number was written with a leading minus sign.
    pub neg: bool,
    /// The digits of the number with the decimal point removed.
    pub mant: u64,
    /// How many of the mantissa's digits lie behind the decimal point.
    pub scale: usize,
}

impl Dec {
    /// A strictly negative value: a minus sign on a nonzero mantissa.
    pub open spec fn is_strictly_neg(self) -> bool {
        self.neg && self.mant > 0
    }

    /// The same value with the opposite sign.
    pub open spec fn spec_negate(self) -> Dec {
        Dec { neg: !self.neg, mant: self.mant, scale: self.scale }
    }

    /// The same value with the opposite sign.
    pub fn negate(self) -> (r: Dec)
        ensures
            r == self.spec_negate(),
    {
        Dec { neg: !self.neg, mant: self.mant, scale: self.scale }
    }
}

/// `s` with every decimal point removed, keeping the digits in order.
pub open spec fn drop_dots(s: Seq<u8>) -> Seq<u8>
    decreases s.len(),
{
    if s.len() == 0 {
        Seq::empty()
    } else if s.last() == DOT {
        drop_dots(s.drop_last())
    } else {
        drop_dots(s.drop_last()).push(s.last())
    }
}

/// The unsigned body of a decimal literal: only digits and at most one
/// decimal point, with at least one digit.
pub open spec fn dec_body_ok(t: Seq<u8>) -> bool {
    &&& forall|i: int| 0 <= i < t.len() ==> (is_digit(t[i]) || t[i] == DOT)
    &&& count_byte(t, DOT) <= 1
    &&& drop_dots(t).len() > 0
}

/// How many digits of the body stand behind the decimal point.
pub open spec fn frac_len(t: Seq<u8>) -> nat {
    match find_byte(t, DOT) {
        None => 0,
        Some(i) => if 0 <= i < t.len() {
            (t.len() - i - 1) as nat
        } else {
            0
        },
    }
}

/// The sign of a decimal literal: written with `-`, or unsigned (`+` counts
/// as unsigned).
pub open spec fn dec_text_neg(s: Seq<u8>) -> bool {
    s.len() > 0 && s[0] == MINUS
}

/// The body of a decimal literal: the text after an optional single `+` or `-`.
pub open spec fn dec_text_body(s: Seq<u8>) -> Seq<u8> {
    if s.len() > 0 && (s[0] == MINUS || s[0] == PLUS) {
        s.drop_first()
    } else {
        s
    }
}

/// What parsing `s` as a plain decimal number yields: an optional sign, then
/// digits with at most one decimal point among them; absent on any other
/// text, and on a mantissa too large for its representation.
pub open spec fn spec_parse_dec(s: Seq<u8>) -> Option<Dec> {
    let t = dec_text_body(s);
    if dec_body_ok(t) && digits_val(drop_dots(t)) <= u64::MAX {
        Some(
            Dec {
                neg: dec_text_neg(s),
                mant: digits_val(drop_dots(t)) as u64,
                scale: frac_len(t) as usize,
            },
        )
    } else {
        None
    }
}

/// The digits of a longer body prefix are worth at least those of a shorter one.
proof fn lemma_drop_dots_take_le(t: Seq<u8>, i: int, j: int)
    requires
        0 <= i <= j <= t.len(),
    ensures
        digits_val(drop_dots(t.take(i))) <= digits_val(drop_dots(t.take(j))),
        drop_dots(t.take(i)).len() <= drop_dots(t.take(j)).len(),
    decreases j - i,
{
    if i < j {
        lemma_drop_dots_take_le(t, i, j - 1);
        assert(t.take(j).drop_last() =~= t.take(j - 1));
        if t.take(j).last() != DOT {
            let a = drop_dots(t.take(j - 1));
            assert(drop_dots(t.take(j)) == a.push(t.take(j).last()));
            assert(a.push(t.take(j).last()).drop_last() =~= a);
        }
    }
}

/// Parses `s` as a plain decimal number, the executable counterpart of
/// `spec_parse_dec`.
pub fn parse_dec(s: &[u8]) -> (r: Option<Dec>)
    ensures
        r == spec_parse_dec(s@),
{
    let n: usize = s.len();
    let neg: bool = n > 0 && s[0] == MINUS;
    let start: usize = if n > 0 && (s[0] == MINUS || s[0] == PLUS) {
        1
    } else {
        0
    };
    let ghost t = dec_text_body(s@);
    proof {
        assert(t =~= s@.skip(start as int));
    }
    let mut i: usize = start;
    let mut acc: u64 = 0;
    let mut dot_at: Option<usize> = None;
    let mut saw_digit: bool = false;
    while i < n
        invariant
            start <= i <= n,
            n == s@.len(),
            start <= 1,
            t == dec_text_body(s@),
            t == s@.skip(start as int),
            t.len() == n - start,
            neg == dec_text_neg(s@),
            forall|j: int| 0 <= j < i - start ==> (is_digit(t[j]) || t[j] == DOT),
            acc == digits_val(drop_dots(t.take(i - start))),
            saw_digit == (drop_dots(t.take(i - start)).len() > 0),
            match dot_at {
                None => count_byte(t.take(i - start), DOT) == 0 && find_byte(
                    t.take(i - start),
                    DOT,
                ) is None,
                Some(d) => start <= d < i && t[d - start] == DOT && count_byte(
                    t.take(i - start),
                    DOT,
                ) == 1 && find_byte(t.take(i - start), DOT) == Some(d - start),
            },
        decreases n - i,
    {
        let b: u8 = s[i];
        proof {
            assert(t[i - start] == s@[i as int]);
            assert(t.take(i - start + 1).drop_last() =~= t.take(i - start));
        }
        proof {
            if s@[i as int] == DOT {
                assert(drop_dots(t.take(i - start + 1)) == drop_dots(t.take(i - start)));
            } else {
                let a = drop_dots(t.take(i - start));
                assert(drop_dots(t.take(i - start + 1)) == a.push(t[i - start]));
                assert(a.push(t[i - start]).drop_last() =~= a);
            }
        }
        if b == DOT {
            if dot_at.is_some() {
                proof {
                    assert(count_byte(t.take(i - start + 1), DOT) == 2);
                    lemma_count_byte_append(
                        t.take(i - start + 1),
                        t.skip(i - start + 1),
                        DOT,
                    );
                    assert(t.take(i - start + 1) + t.skip(i - start + 1) =~= t);
                    assert(count_byte(t, DOT) >= 2);
                    assert(!dec_body_ok(t));
                }
                return None;
            }
            dot_at = Some(i);
            proof {
                lemma_find_byte(t.take(i - start), DOT);
                lemma_find_byte_at(t.take(i - start + 1), DOT, i - start);
            }
        } else if 48 <= b && b <= 57 {
            let d: u64 = (b - 48) as u64;
            let wide: u128 = acc as u128 * 10 + d as u128;
            if wide > u64::MAX as u128 {
                proof {
                    lemma_drop_dots_take_le(t, i - start + 1, t.len() as int);
                    assert(t.take(t.len() as int) =~= t);
                }
                return None;
            }
            acc = wide as u64;
            saw_digit = true;
            proof {
                if let Some(d0) = dot_at {
                    lemma_find_byte(t.take(i - start), DOT);
                    lemma_find_byte_at(t.take(i - start + 1), DOT, d0 - start);
                } else {
                    lemma_find_byte(t.take(i - start), DOT);
                    assert forall|j: int| 0 <= j < i - start + 1 implies #[trigger] t.take(
                        i - start + 1,
                    )[j] != DOT by {
                        if j < i - start {
                            assert(t.take(i - start + 1)[j] == t.take(i - start)[j]);
                        }
                    }
                    lemma_find_byte_none(t.take(i - start + 1), DOT);
                }
            }
        } else {
            proof {
                assert(!(is_digit(t[i - start]) || t[i - start] == DOT));
                assert(!dec_body_ok(t));
            }
            return None;
        }
        i = i + 1;
    }
    proof {
        assert(t.take(t.len() as int) =~= t);
    }
    if !saw_digit {
        return None;
    }
    let scale: usize = match dot_at {
        None => 0,
        Some(d) => n - 1 - d,
    };
    Some(Dec { neg, mant: acc, scale })
}

} // verus!
