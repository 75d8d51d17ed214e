//! Primitives over byte sequences: searching for a byte, counting occurrences,
//! splitting on a separator, and the exclusive-or fold that NMEA checksums use.

use vstd::prelude::*;

verus! {

/// ASCII `$`, the byte that opens an NMEA sentence.
pub const DOLLAR: u8 = 36;

/// ASCII `*`, the byte that closes the payload and announces the checksum.
pub const STAR: u8 = 42;

/// ASCII `,`, the field separator.
pub const COMMA: u8 = 44;

/// ASCII `.`, the decimal point.
pub const DOT: u8 = 46;

/// ASCII `+`.
pub const PLUS: u8 = 43;

/// ASCII `-`.
pub const MINUS: u8 = 45;

/// Index of the first occurrence of `b` in `s`, or `None` when `b` does not occur.
pub open spec fn find_byte(s: Seq<u8>, b: u8) -> Option<int>
    decreases s.len(),
{
    if s.len() == 0 {
        None
    } else if s[0] == b {
        Some(0)
    } else {
        match find_byte(s.drop_first(), b) {
            Some(i) => Some(i + 1),
            None => None,
        }
    }
}

/// What `find_byte` returns: the first index holding `b`, in bounds, or `None`
/// exactly when `b` is absent.
pub proof fn lemma_find_byte(s: Seq<u8>, b: u8)
    ensures
        match find_byte(s, b) {
            Some(i) => 0 <= i < s.len() && s[i] == b && (forall|j: int| 0 <= j < i ==> s[j] != b),
            None => forall|j: int| 0 <= j < s.len() ==> s[j] != b,
        },
    decreases s.len(),
{
    if s.len() > 0 && s[0] != b {
        lemma_find_byte(s.drop_first(), b);
        assert forall|j: int| 1 <= j < s.len() implies s[j] == s.drop_first()[j - 1] by {}
    }
}

/// Conversely: an index that holds `b`, with no earlier one, is what `find_byte` finds.
pub proof fn lemma_find_byte_at(s: Seq<u8>, b: u8, i: int)
    requires
        0 <= i < s.len(),
        s[i] == b,
        forall|j: int| 0 <= j < i ==> s[j] != b,
    ensures
        find_byte(s, b) == Some(i),
    decreases s.len(),
{
    if i > 0 {
        lemma_find_byte_at(s.drop_first(), b, i - 1);
    }
}

/// `b` absent from `s` means `find_byte` returns `None`.
pub proof fn lemma_find_byte_none(s: Seq<u8>, b: u8)
    requires
        forall|j: int| 0 <= j < s.len() ==> s[j] != b,
    ensures
        find_byte(s, b) is None,
{
    lemma_find_byte(s, b);
    if let Some(i) = find_byte(s, b) {
        assert(s[i] == b);
    }
}

/// Index of the first occurrence of `b` in `s`, or `None` when `b` does not occur.
pub fn find_first(s: &[u8], b: u8) -> (r: Option<usize>)
    ensures
        match r {
            Some(i) => find_byte(s@, b) == Some(i as int),
            None => find_byte(s@, b) is None,
        },
{
    let n: usize = s.len();
    let mut i: usize = 0;
    while i < n
        invariant
            0 <= i <= n,
            n == s@.len(),
            forall|j: int| 0 <= j < i ==> s@[j] != b,
        decreases n - i,
    {
        if s[i] == b {
            proof {
                lemma_find_byte_at(s@, b, i as int);
            }
            return Some(i);
        }
        i = i + 1;
    }
    proof {
        lemma_find_byte_none(s@, b);
    }
    None
}

/// How many positions of `s` hold `b`.
pub open spec fn count_byte(s: Seq<u8>, b: u8) -> nat
    decreases s.len(),
{
    if s.len() == 0 {
        0
    } else {
        count_byte(s.drop_last(), b) + if s.last() == b {
            1nat
        } else {
            0nat
        }
    }
}

/// There are never more occurrences than positions.
pub proof fn lemma_count_byte_le_len(s: Seq<u8>, b: u8)
    ensures
        count_byte(s, b) <= s.len(),
    decreases s.len(),
{
    if s.len() > 0 {
        lemma_count_byte_le_len(s.drop_last(), b);
    }
}

/// Occurrences add up over concatenation.
pub proof fn lemma_count_byte_append(s: Seq<u8>, t: Seq<u8>, b: u8)
    ensures
        count_byte(s + t, b) == count_byte(s, b) + count_byte(t, b),
    decreases t.len(),
{
    if t.len() == 0 {
        assert(s + t =~= s);
    } else {
        lemma_count_byte_append(s, t.drop_last(), b);
        assert((s + t).drop_last() =~= s + t.drop_last());
        assert((s + t).last() == t.last());
    }
}

/// A sequence without `b` counts zero occurrences.
pub proof fn lemma_count_byte_zero(s: Seq<u8>, b: u8)
    requires
        forall|j: int| 0 <= j < s.len() ==> s[j] != b,
    ensures
        count_byte(s, b) == 0,
    decreases s.len(),
{
    if s.len() > 0 {
        lemma_count_byte_zero(s.drop_last(), b);
    }
}

/// Counts how many bytes of `s` are the NMEA field separator (a comma); the
/// field count of a sentence payload.
pub fn nmea_count_fields(s: &[u8]) -> (r: u32)
    requires
        s@.len() <= u32::MAX,
    ensures
        r == count_byte(s@, COMMA),
{
    let n: usize = s.len();
    let mut i: usize = 0;
    let mut acc: u32 = 0;
    while i < n
        invariant
            0 <= i <= n,
            n == s@.len(),
            n <= u32::MAX,
            acc == count_byte(s@.take(i as int), COMMA),
            acc <= i,
        decreases n - i,
    {
        proof {
            assert(s@.take(i + 1).drop_last() =~= s@.take(i as int));
            lemma_count_byte_le_len(s@.take(i as int), COMMA);
        }
        if s[i] == COMMA {
            acc = acc + 1;
        }
        i = i + 1;
    }
    proof {
        assert(s@.take(n as int) =~= s@);
    }
    acc
}

/// The exclusive-or of all bytes of `s`; zero for the empty sequence.
pub open spec fn xor_fold(s: Seq<u8>) -> u8
    decreases s.len(),
{
    if s.len() == 0 {
        0
    } else {
        xor_fold(s.drop_last()) ^ s.last()
    }
}

/// The NMEA checksum of a payload: the running exclusive-or of every byte.
pub fn calc_nmea_checksum(nmea: &[u8]) -> (r: u8)
    ensures
        r == xor_fold(nmea@),
{
    let n: usize = nmea.len();
    let mut i: usize = 0;
    let mut acc: u8 = 0;
    while i < n
        invariant
            0 <= i <= n,
            n == nmea@.len(),
            acc == xor_fold(nmea@.take(i as int)),
        decreases n - i,
    {
        proof {
            assert(nmea@.take(i + 1).drop_last() =~= nmea@.take(i as int));
        }
        acc = acc ^ nmea[i];
        i = i + 1;
    }
    proof {
        assert(nmea@.take(n as int) =~= nmea@);
    }
    acc
}

/// The fields of `s` split on `b`: one more piece than there are occurrences
/// of `b`, in order, with the separators removed.
pub open spec fn split_bytes(s: Seq<u8>, b: u8) -> Seq<Seq<u8>>
    decreases s.len(),
{
    match find_byte(s, b) {
        None => seq![s],
        Some(i) => if 0 <= i < s.len() {
            seq![s.take(i)] + split_bytes(s.subrange(i + 1, s.len() as int), b)
        } else {
            seq![s]
        },
    }
}

/// Splitting yields one piece more than the separator count.
pub proof fn lemma_split_bytes_len(s: Seq<u8>, b: u8)
    ensures
        split_bytes(s, b).len() == count_byte(s, b) + 1,
    decreases s.len(),
{
    lemma_find_byte(s, b);
    match find_byte(s, b) {
        None => {
            lemma_count_byte_zero(s, b);
        },
        Some(i) => {
            let tail = s.subrange(i + 1, s.len() as int);
            lemma_split_bytes_len(tail, b);
            assert(s =~= s.take(i) + seq![b] + tail);
            lemma_count_byte_append(s.take(i) + seq![b], tail, b);
            lemma_count_byte_append(s.take(i), seq![b], b);
            lemma_count_byte_zero(s.take(i), b);
            assert(seq![b].drop_last() =~= Seq::<u8>::empty());
            assert(count_byte(Seq::<u8>::empty(), b) == 0);
            assert(seq![b].last() == b);
            assert(count_byte(seq![b], b) == 1);
        },
    }
}

/// Splits `s` on occurrences of `b`, the executable counterpart of `split_bytes`.
pub fn split_on(s: &[u8], b: u8) -> (r: Vec<Vec<u8>>)
    ensures
        r@.map_values(|piece: Vec<u8>| piece@) == split_bytes(s@, b),
    decreases s@.len(),
{
    match find_first(s, b) {
        None => {
            let mut r: Vec<Vec<u8>> = Vec::new();
            r.push(vstd::slice::slice_to_vec(s));
            proof {
                assert(r@.map_values(|piece: Vec<u8>| piece@) =~= split_bytes(s@, b));
            }
            r
        },
        Some(i) => {
            let n: usize = s.len();
            proof {
                lemma_find_byte(s@, b);
            }
            let head: Vec<u8> = vstd::slice::slice_to_vec(
                vstd::slice::slice_subrange(s, 0, i),
            );
            let mut rest: Vec<Vec<u8>> = split_on(
                vstd::slice::slice_subrange(s, i + 1, n),
                b,
            );
            let mut r: Vec<Vec<u8>> = Vec::new();
            r.push(head);
            r.append(&mut rest);
            proof {
                assert(s@.take(i as int) =~= s@.subrange(0, i as int));
                assert(r@.map_values(|piece: Vec<u8>| piece@) =~= split_bytes(s@, b));
            }
            r
        },
    }
}

/// Whether two byte slices hold the same bytes.
pub fn bytes_eq(a: &[u8], c: &[u8]) -> (r: bool)
    ensures
        r == (a@ == c@),
{
    let n: usize = a.len();
    if n != c.len() {
        proof {
            assert(a@ != c@);
        }
        return false;
    }
    let mut i: usize = 0;
    while i < n
        invariant
            0 <= i <= n,
            n == a@.len(),
            n == c@.len(),
            forall|j: int| 0 <= j < i ==> a@[j] == c@[j],
        decreases n - i,
    {
        if a[i] != c[i] {
            return false;
        }
        i = i + 1;
    }
    proof {
        assert(a@ =~= c@);
    }
    true
}

} // verus!
