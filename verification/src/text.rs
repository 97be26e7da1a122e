//! Verified text utilities: ASCII string building, case-insensitive
//! substring matching, and decimal rendering of integers.

use vstd::prelude::*;

use vstd::utf8::{
    decode_utf8, encode_utf8, valid_utf8, valid_first_scalar, decode_first_scalar,
    length_of_first_scalar, pop_first_scalar, is_leading_byte_width_1, codepoint_width_1,
    encode_utf8_decode_utf8,
};

verus! {

/// The character for one ASCII byte.
pub open spec fn ascii_char(b: u8) -> char
    recommends
        b < 0x80,
{
    b as char
}

/// The character sequence an ASCII byte sequence stands for.
pub open spec fn chars_of_ascii(bytes: Seq<u8>) -> Seq<char> {
    bytes.map_values(|b: u8| ascii_char(b))
}

/// Decoding UTF-8 bytes that are all ASCII yields exactly those bytes as
/// characters.
pub proof fn lemma_decode_ascii(bytes: Seq<u8>)
    requires
        forall|i: int| 0 <= i < bytes.len() ==> bytes[i] < 0x80,
    ensures
        valid_utf8(bytes),
        decode_utf8(bytes) == chars_of_ascii(bytes),
    decreases bytes.len(),
{
    if bytes.len() == 0 {
        assert(decode_utf8(bytes) =~= chars_of_ascii(bytes));
    } else {
        let b = bytes[0];
        assert(is_leading_byte_width_1(b));
        assert(b & 0x7f == b) by (bit_vector)
            requires
                b < 0x80,
        ;
        assert(codepoint_width_1(b) == b as u32);
        assert(valid_first_scalar(bytes));
        assert(length_of_first_scalar(bytes) == 1);
        assert(pop_first_scalar(bytes) =~= bytes.drop_first());
        lemma_decode_ascii(bytes.drop_first());
        assert(decode_first_scalar(bytes) as char == ascii_char(b));
        assert(decode_utf8(bytes) =~= chars_of_ascii(bytes));
    }
}

/// Relies on String::from_utf8: it succeeds exactly on valid UTF-8 input and
/// returns the string whose UTF-8 encoding is that input.
#[verifier::external_body]
pub fn string_from_utf8(v: Vec<u8>) -> (r: Option<String>)
    ensures
        r matches Some(s) ==> encode_utf8(s@) == v@,
        valid_utf8(v@) ==> r is Some,
{
    String::from_utf8(v).ok()
}

/// Builds the string that a sequence of ASCII bytes spells.
pub fn ascii_string(v: Vec<u8>) -> (r: String)
    requires
        forall|i: int| 0 <= i < v@.len() ==> v@[i] < 0x80,
    ensures
        r@ == chars_of_ascii(v@),
{
    let ghost bytes = v@;
    let opt = string_from_utf8(v);
    proof {
        lemma_decode_ascii(bytes);
        if opt is Some {
            let s = opt.unwrap();
            encode_utf8_decode_utf8(s@);
            assert(decode_utf8(encode_utf8(s@)) == s@);
        }
    }
    opt.unwrap()
}

/// A character folded to lowercase; only the ASCII range folds.
pub open spec fn to_lower(c: char) -> char {
    if 'A' <= c && c <= 'Z' {
        ascii_char((c as u8 + 32) as u8)
    } else {
        c
    }
}

/// Folds one character to lowercase, ASCII range only.
pub fn lower_char(c: char) -> (r: char)
    ensures
        r == to_lower(c),
{
    if 'A' <= c && c <= 'Z' {
        let b = (c as u8) + 32;
        b as char
    } else {
        c
    }
}

/// A character sequence folded to lowercase.
pub open spec fn lower_seq(s: Seq<char>) -> Seq<char> {
    s.map_values(|c: char| to_lower(c))
}

/// The needle occurs in the haystack at position `i`, ignoring ASCII case.
pub open spec fn matches_at(hay: Seq<char>, needle: Seq<char>, i: int) -> bool {
    &&& 0 <= i
    &&& i + needle.len() <= hay.len()
    &&& forall|j: int| 0 <= j < needle.len() ==> to_lower(hay[i + j]) == to_lower(needle[j])
}

/// The needle occurs somewhere in the haystack, ignoring ASCII case.
pub open spec fn contains_ci(hay: Seq<char>, needle: Seq<char>) -> bool {
    exists|i: int| matches_at(hay, needle, i)
}

/// Whether the needle occurs at position `i` of the haystack, ignoring case.
fn matches_at_exec(hay: &str, needle: &str, i: usize, hay_len: usize, needle_len: usize) -> (r:
    bool)
    requires
        hay_len == hay@.len(),
        needle_len == needle@.len(),
        i + needle_len <= hay_len,
    ensures
        r == matches_at(hay@, needle@, i as int),
{
    let mut j: usize = 0;
    while j < needle_len
        invariant
            hay_len == hay@.len(),
            needle_len == needle@.len(),
            i + needle_len <= hay_len,
            j <= needle_len,
            forall|k: int| 0 <= k < j ==> to_lower(hay@[i + k]) == to_lower(needle@[k]),
        decreases needle_len - j,
    {
        let hc = lower_char(hay.get_char(i + j));
        let nc = lower_char(needle.get_char(j));
        if hc != nc {
            return false;
        }
        j += 1;
    }
    true
}

/// Whether the needle occurs anywhere in the haystack, ignoring ASCII case.
/// An empty needle always occurs.
pub fn string_contains_ci(hay: &str, needle: &str) -> (r: bool)
    ensures
        r == contains_ci(hay@, needle@),
{
    let hay_len = hay.unicode_len();
    let needle_len = needle.unicode_len();
    if needle_len > hay_len {
        proof {
            assert(forall|i: int| !matches_at(hay@, needle@, i));
        }
        return false;
    }
    let mut i: usize = 0;
    while i <= hay_len - needle_len
        invariant
            hay_len == hay@.len(),
            needle_len == needle@.len(),
            needle_len <= hay_len,
            i <= hay_len - needle_len + 1,
            forall|k: int| 0 <= k < i ==> !matches_at(hay@, needle@, k),
        decreases hay_len + 1 - i,
    {
        if matches_at_exec(hay, needle, i, hay_len, needle_len) {
            return true;
        }
        i += 1;
    }
    proof {
        assert(forall|k: int| matches_at(hay@, needle@, k) ==> 0 <= k <= hay@.len()
            - needle@.len());
    }
    false
}

/// Whether two string slices spell the same characters.
pub fn str_eq(a: &str, b: &str) -> (r: bool)
    ensures
        r == (a@ == b@),
{
    let a_len = a.unicode_len();
    let b_len = b.unicode_len();
    if a_len != b_len {
        return false;
    }
    let mut i: usize = 0;
    while i < a_len
        invariant
            a_len == a@.len(),
            a_len == b@.len(),
            i <= a_len,
            forall|j: int| 0 <= j < i ==> a@[j] == b@[j],
        decreases a_len - i,
    {
        if a.get_char(i) != b.get_char(i) {
            return false;
        }
        i += 1;
    }
    proof {
        assert(a@ =~= b@);
    }
    true
}

/// The characters of `p` open the sequence `s`.
pub open spec fn has_prefix(s: Seq<char>, p: Seq<char>) -> bool {
    s.len() >= p.len() && s.subrange(0, p.len() as int) == p
}

/// Whether the characters of `prefix` open the string `s`.
pub fn str_starts_with(s: &str, prefix: &str) -> (r: bool)
    ensures
        r == has_prefix(s@, prefix@),
{
    let s_len = s.unicode_len();
    let p_len = prefix.unicode_len();
    if p_len > s_len {
        return false;
    }
    let mut i: usize = 0;
    while i < p_len
        invariant
            s_len == s@.len(),
            p_len == prefix@.len(),
            p_len <= s_len,
            i <= p_len,
            forall|j: int| 0 <= j < i ==> s@[j] == prefix@[j],
        decreases p_len - i,
    {
        if s.get_char(i) != prefix.get_char(i) {
            proof {
                assert(s@.subrange(0, prefix@.len() as int)[i as int] != prefix@[i as int]);
            }
            return false;
        }
        i += 1;
    }
    proof {
        assert(s@.subrange(0, prefix@.len() as int) =~= prefix@);
    }
    true
}

/// The decimal digit character for a value below ten.
pub open spec fn digit_char(d: u8) -> char
    recommends
        d < 10,
{
    ascii_char((d + 48) as u8)
}

/// The decimal rendering of a natural number, most significant digit first,
/// with no leading zeros (zero itself renders as one digit).
pub open spec fn dec_of(n: nat) -> Seq<char>
    decreases n,
{
    if n < 10 {
        seq![digit_char(n as u8)]
    } else {
        dec_of(n / 10) + seq![digit_char((n % 10) as u8)]
    }
}

/// The decimal digit bytes of a natural number, least significant first.
spec fn dec_bytes_rev(n: nat) -> Seq<u8>
    decreases n,
{
    if n < 10 {
        seq![(n + 48) as u8]
    } else {
        seq![(n % 10 + 48) as u8] + dec_bytes_rev(n / 10)
    }
}

proof fn lemma_dec_bytes_rev(n: nat)
    ensures
        dec_bytes_rev(n).len() == dec_of(n).len(),
        forall|i: int|
            0 <= i < dec_of(n).len() ==> dec_bytes_rev(n)[i] < 0x80 && ascii_char(
                dec_bytes_rev(n)[i],
            ) == dec_of(n)[dec_of(n).len() - 1 - i],
    decreases n,
{
    if n < 10 {
    } else {
        lemma_dec_bytes_rev(n / 10);
    }
}

/// Renders an unsigned integer in decimal.
pub fn u64_to_string(n: u64) -> (r: String)
    ensures
        r@ == dec_of(n as nat),
{
    let mut rev: Vec<u8> = Vec::new();
    let mut m: u64 = n;
    proof {
        assert(rev@ + dec_bytes_rev(m as nat) =~= dec_bytes_rev(n as nat));
    }
    while m >= 10
        invariant
            rev@ + dec_bytes_rev(m as nat) == dec_bytes_rev(n as nat),
        decreases m,
    {
        let d = (m % 10) as u8;
        rev.push(d + 48);
        m = m / 10;
        proof {
            assert(rev@ + dec_bytes_rev(m as nat) =~= dec_bytes_rev(n as nat));
        }
    }
    rev.push((m as u8) + 48);
    proof {
        assert(rev@ =~= dec_bytes_rev(n as nat));
    }
    let mut out: Vec<u8> = Vec::new();
    let mut i: usize = rev.len();
    while i > 0
        invariant
            i <= rev@.len(),
            out@.len() == rev@.len() - i,
            forall|j: int| 0 <= j < out@.len() ==> out@[j] == rev@[rev@.len() - 1 - j],
        decreases i,
    {
        i -= 1;
        out.push(rev[i]);
    }
    proof {
        lemma_dec_bytes_rev(n as nat);
        assert(forall|j: int| 0 <= j < out@.len() ==> out@[j] < 0x80);
    }
    let s = ascii_string(out);
    proof {
        assert(s@ =~= dec_of(n as nat));
    }
    s
}

/// Ten to a power.
pub open spec fn pow10(e: nat) -> int
    decreases e,
{
    if e == 0 {
        1
    } else {
        10 * pow10((e - 1) as nat)
    }
}

/// The nineteenth power of ten, evaluated.
pub proof fn lemma_pow10_nineteen()
    ensures
        pow10(19) == 10_000_000_000_000_000_000,
{
    assert(pow10(0) == 1);
    assert(pow10(1) == 10);
    assert(pow10(2) == 100);
    assert(pow10(3) == 1000);
    assert(pow10(4) == 10000);
    assert(pow10(5) == 100000);
    assert(pow10(6) == 1000000);
    assert(pow10(7) == 10000000);
    assert(pow10(8) == 100000000);
    assert(pow10(9) == 1000000000);
    assert(pow10(10) == 10000000000);
    assert(pow10(11) == 100000000000);
    assert(pow10(12) == 1000000000000);
    assert(pow10(13) == 10000000000000);
    assert(pow10(14) == 100000000000000);
    assert(pow10(15) == 1000000000000000);
    assert(pow10(16) == 10000000000000000);
    assert(pow10(17) == 100000000000000000);
    assert(pow10(18) == 1000000000000000000);
    assert(pow10(19) == 10000000000000000000);
}

/// Powers of ten up to the nineteenth fit in sixty-four bits.
pub proof fn lemma_pow10_bounds(e: nat)
    requires
        e <= 19,
    ensures
        1 <= pow10(e),
        pow10(e) <= 10_000_000_000_000_000_000,
{
    lemma_pow10_bounds_pos(e);
    lemma_pow10_monotone(e, 19);
    lemma_pow10_nineteen();
}

/// Ten to a power grows with the exponent.
pub proof fn lemma_pow10_monotone(a: nat, b: nat)
    requires
        a <= b,
    ensures
        pow10(a) <= pow10(b),
    decreases b,
{
    if a < b {
        lemma_pow10_monotone(a, (b - 1) as nat);
        lemma_pow10_bounds_pos((b - 1) as nat);
    }
}

/// Ten to any power is positive.
pub proof fn lemma_pow10_bounds_pos(e: nat)
    ensures
        1 <= pow10(e),
    decreases e,
{
    if e > 0 {
        lemma_pow10_bounds_pos((e - 1) as nat);
    }
}

/// Ten to a power, executably.
pub fn pow10_u64(e: u8) -> (r: u64)
    requires
        e <= 19,
    ensures
        r == pow10(e as nat),
        r >= 1,
{
    proof {
        lemma_pow10_bounds(e as nat);
    }
    let mut r: u64 = 1;
    let mut i: u8 = 0;
    while i < e
        invariant
            i <= e,
            e <= 19,
            r == pow10(i as nat),
        decreases e - i,
    {
        proof {
            lemma_pow10_bounds((i + 1) as nat);
            assert(pow10((i + 1) as nat) == 10 * pow10(i as nat));
        }
        r = r * 10;
        i += 1;
    }
    r
}

/// A number below ten to a power has at most that many digits.
pub proof fn lemma_dec_len_bound(n: nat, e: nat)
    requires
        1 <= e,
        n < pow10(e),
    ensures
        dec_of(n).len() <= e,
    decreases e,
{
    if n < 10 {
    } else {
        assert(pow10(e) == 10 * pow10((e - 1) as nat));
        assert(n / 10 < pow10((e - 1) as nat));
        assert(e >= 2) by {
            if e == 1 {
                assert(pow10(1nat) == 10);
            }
        }
        lemma_dec_len_bound(n / 10, (e - 1) as nat);
    }
}

/// The digits padded on the left with zeros up to a width.
pub open spec fn zero_pad(s: Seq<char>, width: int) -> Seq<char> {
    Seq::new(
        if s.len() >= width {
            0nat
        } else {
            (width - s.len()) as nat
        },
        |i: int| '0',
    ) + s
}

/// The characters with every trailing zero removed.
pub open spec fn trim_trailing_zeros(s: Seq<char>) -> Seq<char>
    decreases s.len(),
{
    if s.len() > 0 && s.last() == '0' {
        trim_trailing_zeros(s.drop_last())
    } else {
        s
    }
}

/// Dropping a block of trailing zeros is exactly the trim, when nothing
/// before the block ends in zero.
pub proof fn lemma_trim_zeros_take(s: Seq<char>, z: int)
    requires
        0 <= z <= s.len(),
        forall|i: int| s.len() - z <= i < s.len() ==> s[i] == '0',
        z < s.len() ==> s[s.len() - z - 1] != '0',
    ensures
        trim_trailing_zeros(s) == s.take(s.len() - z),
    decreases z,
{
    if z == 0 {
        assert(s.take(s.len() as int) =~= s);
    } else {
        assert(s.last() == '0');
        let front = s.drop_last();
        assert(forall|i: int| front.len() - (z - 1) <= i < front.len() ==> front[i] == s[i]);
        lemma_trim_zeros_take(front, z - 1);
        assert(front.take(front.len() - (z - 1)) =~= s.take(s.len() - z));
    }
}

/// Renders a number as exactly `width` digits, zero-padded on the left,
/// then strips the trailing zeros (a zero value strips to nothing).
pub fn dec_padded_trimmed(n: u64, width: usize) -> (r: String)
    requires
        1 <= width,
        (n as int) < pow10(width as nat),
    ensures
        r@ == trim_trailing_zeros(zero_pad(dec_of(n as nat), width as int)),
{
    proof {
        lemma_dec_len_bound(n as nat, width as nat);
        lemma_dec_bytes_rev(n as nat);
    }
    let mut rev: Vec<u8> = Vec::new();
    let mut m: u64 = n;
    proof {
        assert(rev@ + dec_bytes_rev(m as nat) =~= dec_bytes_rev(n as nat));
    }
    while m >= 10
        invariant
            rev@ + dec_bytes_rev(m as nat) == dec_bytes_rev(n as nat),
        decreases m,
    {
        let d = (m % 10) as u8;
        rev.push(d + 48);
        m = m / 10;
        proof {
            assert(rev@ + dec_bytes_rev(m as nat) =~= dec_bytes_rev(n as nat));
        }
    }
    rev.push((m as u8) + 48);
    proof {
        assert(rev@ =~= dec_bytes_rev(n as nat));
    }
    let ghost digits = dec_of(n as nat);
    while rev.len() < width
        invariant
            digits == dec_of(n as nat),
            digits.len() <= width,
            rev@.len() >= digits.len(),
            rev@.take(digits.len() as int) == dec_bytes_rev(n as nat),
            forall|i: int| digits.len() <= i < rev@.len() ==> rev@[i] == 48,
            rev@.len() <= width,
        decreases width - rev@.len(),
    {
        rev.push(48);
        proof {
            assert(rev@.take(digits.len() as int) =~= dec_bytes_rev(n as nat));
        }
    }
    let ghost padded = zero_pad(digits, width as int);
    proof {
        assert(rev@.len() == width);
        lemma_dec_bytes_rev(n as nat);
        assert forall|i: int| 0 <= i < width implies ascii_char(rev@[width - 1 - i]) == padded[i]
            && rev@[width - 1 - i] < 0x80 by {
            let pad = width - digits.len();
            if i < pad {
                assert(rev@[width - 1 - i] == 48);
                assert(padded[i] == '0');
            } else {
                assert(width - 1 - i < digits.len());
                assert(rev@.take(digits.len() as int)[width - 1 - i] == rev@[width - 1 - i]);
                assert(padded[i] == digits[i - pad]);
                assert(digits.len() - 1 - (width - 1 - i) == i - pad);
            }
        }
    }
    let mut f: usize = 0;
    while f < rev.len() && rev[f] == 48
        invariant
            f <= rev@.len(),
            forall|j: int| 0 <= j < f ==> rev@[j] == 48,
        decreases rev@.len() - f,
    {
        f += 1;
    }
    proof {
        assert(f < rev@.len() ==> rev@[f as int] != 48);
        assert forall|i: int| width - (f as int) <= i < width implies padded[i] == '0' by {
            assert(rev@[width - 1 - i] == 48);
            assert(ascii_char(rev@[width - 1 - i]) == padded[i]);
        }
        if f < rev.len() {
            assert(padded[width - (f as int) - 1] != '0') by {
                assert(ascii_char(rev@[f as int]) == padded[width - 1 - (f as int)]);
                assert(rev@[f as int] != 48);
            }
        }
        lemma_trim_zeros_take(padded, f as int);
    }
    let mut out: Vec<u8> = Vec::new();
    let mut j: usize = rev.len();
    while j > f
        invariant
            f <= j <= rev@.len(),
            out@.len() == rev@.len() - j,
            forall|k: int| 0 <= k < out@.len() ==> out@[k] == rev@[rev@.len() - 1 - k],
        decreases j,
    {
        j -= 1;
        out.push(rev[j]);
    }
    proof {
        assert forall|k: int| 0 <= k < out@.len() implies out@[k] < 0x80 by {
            assert(ascii_char(rev@[rev@.len() - 1 - k]) == padded[k]);
        }
    }
    let s = ascii_string(out);
    proof {
        assert(s@ =~= padded.take(width - (f as int)));
    }
    s
}

} // verus!
