//! Byte-level helpers shared by the parsers: line terminators and UTF-8.
use vstd::prelude::*;
use vstd::utf8::{valid_utf8, decode_utf8};

verus! {

pub const CR: u8 = 13;
pub const LF: u8 = 10;
pub const SP: u8 = 32;
pub const HTAB: u8 = 9;

/// A CRLF pair starts at index `i` of `s`.
pub open spec fn is_crlf_at(s: Seq<u8>, i: int) -> bool {
    0 <= i && i + 1 < s.len() && s[i] == CR && s[i + 1] == LF
}

/// Offset, from `start`, of the first CRLF at or after `start`.
pub open spec fn crlf_from(s: Seq<u8>, start: int) -> Option<int>
    decreases s.len() - start,
{
    if start < 0 || start + 1 >= s.len() {
        None
    } else if is_crlf_at(s, start) {
        Some(0)
    } else {
        match crlf_from(s, start + 1) {
            Some(k) => Some(k + 1),
            None => None,
        }
    }
}

pub proof fn lemma_crlf_from(s: Seq<u8>, start: int)
    requires
        0 <= start,
    ensures
        match crlf_from(s, start) {
            Some(k) => 0 <= k && is_crlf_at(s, start + k) && forall|j: int|
                start <= j < start + k ==> !is_crlf_at(s, j),
            None => forall|j: int| start <= j ==> !is_crlf_at(s, j),
        },
    decreases s.len() - start,
{
    if start + 1 < s.len() && !is_crlf_at(s, start) {
        lemma_crlf_from(s, start + 1);
    }
}

/// A CRLF at offset `k` from `start`, with none before it, is the one `crlf_from` finds.
pub proof fn lemma_crlf_from_at(s: Seq<u8>, start: int, k: int)
    requires
        0 <= start,
        0 <= k,
        is_crlf_at(s, start + k),
        forall|j: int| start <= j < start + k ==> !is_crlf_at(s, j),
    ensures
        crlf_from(s, start) == Some(k),
    decreases k,
{
    if k > 0 {
        lemma_crlf_from_at(s, start + 1, k - 1);
    }
}

/// Finds the first CRLF at or after `start`, as an offset from `start`.
pub fn find_crlf(s: &[u8], start: usize) -> (r: Option<usize>)
    requires
        start <= s@.len(),
    ensures
        r is None ==> crlf_from(s@, start as int) is None,
        r matches Some(k) ==> crlf_from(s@, start as int) == Some(k as int),
        r matches Some(k) ==> start + k + 2 <= s@.len(),
{
    proof {
        lemma_crlf_from(s@, start as int);
    }
    let mut i: usize = start;
    while s.len() - i > 1
        invariant
            start <= i <= s@.len(),
            forall|j: int| start <= j < i ==> !is_crlf_at(s@, j),
            match crlf_from(s@, start as int) {
                Some(k) => 0 <= k && is_crlf_at(s@, start + k) && forall|j: int|
                    start <= j < start + k ==> !is_crlf_at(s@, j),
                None => forall|j: int| start <= j ==> !is_crlf_at(s@, j),
            },
        decreases s@.len() - i,
    {
        if s[i] == CR && s[i + 1] == LF {
            assert(is_crlf_at(s@, i as int));
            return Some(i - start);
        }
        i = i + 1;
    }
    assert(!is_crlf_at(s@, i as int));
    None
}

/// All bytes are ASCII.
pub open spec fn is_ascii_bytes(b: Seq<u8>) -> bool {
    forall|i: int| 0 <= i < b.len() ==> b[i] < 128
}

/// The characters that ASCII bytes stand for.
pub open spec fn ascii_chars(b: Seq<u8>) -> Seq<char> {
    b.map_values(|x: u8| x as char)
}

/// ASCII bytes are valid UTF-8 and decode one character per byte.
pub proof fn lemma_ascii_utf8(b: Seq<u8>)
    requires
        is_ascii_bytes(b),
    ensures
        valid_utf8(b),
        decode_utf8(b) == ascii_chars(b),
    decreases b.len(),
{
    if b.len() > 0 {
        let x = b[0];
        assert(x & 0x7f == x) by (bit_vector)
            requires
                x < 128,
        ;
        let rest = b.subrange(1, b.len() as int);
        assert(is_ascii_bytes(rest));
        lemma_ascii_utf8(rest);
        assert(ascii_chars(b) =~= seq![x as char] + ascii_chars(rest));
    }
}

/// Relies on `std::str::from_utf8`: it succeeds exactly on valid UTF-8, and
/// the string then holds the characters that the bytes encode.
#[verifier::external_body]
pub(crate) fn utf8_to_string(b: &[u8]) -> (r: Option<String>)
    ensures
        r is Some <==> valid_utf8(b@),
        r matches Some(s) ==> s@ == decode_utf8(b@),
{
    match std::str::from_utf8(b) {
        Ok(s) => Some(s.to_string()),
        Err(_) => None,
    }
}

} // verus!

verus! {

/// Whether two byte strings are equal.
pub(crate) fn bytes_eq(a: &[u8], b: &[u8]) -> (r: bool)
    ensures
        r == (a@ == b@),
{
    if a.len() != b.len() {
        return false;
    }
    let mut i: usize = 0;
    while i < a.len()
        invariant
            a@.len() == b@.len(),
            i <= a@.len(),
            forall|j: int| 0 <= j < i ==> a@[j] == b@[j],
        decreases a@.len() - i,
    {
        if a[i] != b[i] {
            return false;
        }
        i = i + 1;
    }
    assert(a@ =~= b@);
    true
}

/// Index of the first `x` at or after `start`.
pub open spec fn index_of(s: Seq<u8>, x: u8, start: int) -> Option<int>
    decreases s.len() - start,
{
    if start < 0 || start >= s.len() {
        None
    } else if s[start] == x {
        Some(start)
    } else {
        index_of(s, x, start + 1)
    }
}

/// An `x` at `c`, with none from `start` up to it, is the one `index_of` finds.
pub proof fn lemma_index_of_at(s: Seq<u8>, x: u8, start: int, c: int)
    requires
        0 <= start <= c < s.len(),
        s[c] == x,
        forall|j: int| start <= j < c ==> s[j] != x,
    ensures
        index_of(s, x, start) == Some(c),
    decreases c - start,
{
    if start < c {
        lemma_index_of_at(s, x, start + 1, c);
    }
}

pub proof fn lemma_index_of(s: Seq<u8>, x: u8, start: int)
    requires
        0 <= start,
    ensures
        match index_of(s, x, start) {
            Some(k) => start <= k < s.len() && s[k] == x && forall|j: int| start <= j < k ==> s[j] != x,
            None => forall|j: int| start <= j < s.len() ==> s[j] != x,
        },
    decreases s.len() - start,
{
    if start < s.len() && s[start] != x {
        lemma_index_of(s, x, start + 1);
    }
}

/// Whether `s[lo..hi]` equals `lit`.
pub(crate) fn range_is(s: &[u8], lo: usize, hi: usize, lit: &[u8]) -> (r: bool)
    requires
        lo <= hi <= s@.len(),
    ensures
        r == (s@.subrange(lo as int, hi as int) == lit@),
{
    if hi - lo != lit.len() {
        proof {
            assert(s@.subrange(lo as int, hi as int).len() != lit@.len());
        }
        return false;
    }
    let mut i: usize = 0;
    while i < lit.len()
        invariant
            hi - lo == lit@.len(),
            lo <= hi <= s@.len(),
            i <= lit@.len(),
            forall|j: int| 0 <= j < i ==> s@[lo + j] == lit@[j],
        decreases lit@.len() - i,
    {
        if s[lo + i] != lit[i] {
            proof {
                assert(s@.subrange(lo as int, hi as int)[i as int] != lit@[i as int]);
            }
            return false;
        }
        i = i + 1;
    }
    proof {
        assert(s@.subrange(lo as int, hi as int) =~= lit@);
    }
    true
}

/// The value of digit `b` in base `radix` (10 or 16; hex letters of either case).
pub open spec fn digit_value(b: u8, radix: nat) -> Option<nat> {
    if 48 <= b <= 57 {
        Some((b - 48) as nat)
    } else if radix == 16 && 97 <= b <= 102 {
        Some((b - 87) as nat)
    } else if radix == 16 && 65 <= b <= 70 {
        Some((b - 55) as nat)
    } else {
        None
    }
}

/// `s` is a non-empty string of digits in base `radix`.
pub open spec fn is_numeral(s: Seq<u8>, radix: nat) -> bool {
    s.len() > 0 && forall|j: int| 0 <= j < s.len() ==> (#[trigger] digit_value(s[j], radix)) is Some
}

/// The number that the digits of `s` write in base `radix`.
pub open spec fn numeral_value(s: Seq<u8>, radix: nat) -> nat
    decreases s.len(),
{
    if s.len() == 0 {
        0
    } else {
        numeral_value(s.drop_last(), radix) * radix + match digit_value(s.last(), radix) {
            Some(d) => d,
            None => 0,
        }
    }
}

proof fn lemma_numeral_monotone(s: Seq<u8>, radix: nat, i: int)
    requires
        0 <= i <= s.len(),
        radix >= 1,
    ensures
        numeral_value(s, radix) >= numeral_value(s.subrange(0, i), radix),
    decreases s.len(),
{
    if i < s.len() {
        assert(s.drop_last().subrange(0, i) =~= s.subrange(0, i));
        lemma_numeral_monotone(s.drop_last(), radix, i);
        let v = numeral_value(s.drop_last(), radix);
        assert(v * radix >= v) by (nonlinear_arith)
            requires
                radix >= 1,
                v >= 0,
        ;
    } else {
        assert(s.subrange(0, i) =~= s);
    }
}

/// Parses `s[lo..hi]` as an unsigned number in base `radix`: `None` where a
/// byte is no digit, the range is empty, or the value does not fit in `usize`.
pub fn parse_numeral(s: &[u8], lo: usize, hi: usize, radix: u8) -> (r: Option<usize>)
    requires
        lo <= hi <= s@.len(),
        radix == 10 || radix == 16,
    ensures
        r is Some <==> is_numeral(s@.subrange(lo as int, hi as int), radix as nat) && numeral_value(
            s@.subrange(lo as int, hi as int),
            radix as nat,
        ) <= usize::MAX,
        r matches Some(v) ==> v == numeral_value(s@.subrange(lo as int, hi as int), radix as nat),
{
    let ghost t = s@.subrange(lo as int, hi as int);
    if lo == hi {
        return None;
    }
    let mut acc: usize = 0;
    let mut i: usize = lo;
    while i < hi
        invariant
            lo <= i <= hi <= s@.len(),
            t == s@.subrange(lo as int, hi as int),
            radix == 10 || radix == 16,
            forall|j: int| lo <= j < i ==> (#[trigger] digit_value(s@[j], radix as nat)) is Some,
            acc == numeral_value(s@.subrange(lo as int, i as int), radix as nat),
        decreases hi - i,
    {
        let b = s[i];
        let d: usize;
        if 48 <= b && b <= 57 {
            d = (b - 48) as usize;
        } else if radix == 16 && 97 <= b && b <= 102 {
            d = (b - 87) as usize;
        } else if radix == 16 && 65 <= b && b <= 70 {
            d = (b - 55) as usize;
        } else {
            proof {
                assert(digit_value(t[i - lo], radix as nat) is None);
            }
            return None;
        }
        let ghost pre = s@.subrange(lo as int, i + 1);
        proof {
            assert(pre.drop_last() =~= s@.subrange(lo as int, i as int));
        }
        if acc > (usize::MAX - d) / (radix as usize) {
            proof {
                assert(acc * radix + d > usize::MAX) by (nonlinear_arith)
                    requires
                        acc > (usize::MAX - d) / (radix as int),
                        radix > 0,
                        d <= usize::MAX,
                ;
                assert forall|j: int| 0 <= j < i + 1 - lo implies (#[trigger] digit_value(
                    t[j],
                    radix as nat,
                )) is Some by {
                    assert(t[j] == s@[lo + j]);
                }
                assert(pre =~= t.subrange(0, i + 1 - lo));
                lemma_numeral_monotone(t, radix as nat, i + 1 - lo);
            }
            return None;
        }
        proof {
            assert(acc * radix + d <= usize::MAX) by (nonlinear_arith)
                requires
                    acc <= (usize::MAX - d) / (radix as int),
                    radix > 0,
                    d <= usize::MAX,
            ;
        }
        acc = acc * (radix as usize) + d;
        i = i + 1;
    }
    proof {
        assert(s@.subrange(lo as int, i as int) =~= t);
        assert forall|j: int| 0 <= j < t.len() implies (#[trigger] digit_value(t[j], radix as nat)) is Some by {
            assert(t[j] == s@[lo + j]);
        }
    }
    Some(acc)
}

} // verus!
