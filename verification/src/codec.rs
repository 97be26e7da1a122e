//! Verified binary codec for persisted records and signed messages.
//!
//! Every encoder has an exact specification, every decoder is specified by a
//! spec-level reader, and decoding an encoding provably returns the original
//! value. Integers are eight bytes, least significant first; byte strings
//! and text are length-prefixed; text is UTF-8.

use vstd::prelude::*;

use vstd::arithmetic::div_mod::{
    lemma_fundamental_div_mod, lemma_div_denominator, lemma_small_mod,
};
use vstd::utf8::{
    encode_utf8, decode_utf8, valid_utf8, encode_utf8_valid_utf8, encode_utf8_decode_utf8,
};
use crate::text::string_from_utf8;

verus! {

// ---------------------------------------------------------------------------
// Unsigned 64-bit integers
// ---------------------------------------------------------------------------

/// Eight bytes, least significant first.
#[verifier::opaque]
pub open spec fn enc_u64(n: u64) -> Seq<u8> {
    seq![
        (n % 256) as u8,
        ((n / 256) % 256) as u8,
        ((n / 0x10000) % 256) as u8,
        ((n / 0x1000000) % 256) as u8,
        ((n / 0x100000000) % 256) as u8,
        ((n / 0x10000000000) % 256) as u8,
        ((n / 0x1000000000000) % 256) as u8,
        ((n / 0x100000000000000) % 256) as u8,
    ]
}

/// The value eight little-endian bytes stand for.
#[verifier::opaque]
pub open spec fn dec_u64(b: Seq<u8>) -> u64
    recommends
        b.len() == 8,
{
    ((b[0] as int) + 256 * ((b[1] as int) + 256 * ((b[2] as int) + 256 * ((b[3] as int) + 256 * ((
    b[4] as int) + 256 * ((b[5] as int) + 256 * ((b[6] as int) + 256 * (b[7] as int)))))))) as u64
}

/// Decoding the encoding of an integer yields that integer.
pub proof fn lemma_u64_round_trip(n: u64)
    ensures
        dec_u64(enc_u64(n)) == n,
{
    reveal(enc_u64);
    reveal(dec_u64);
    let x = n as int;
    let t1 = x / 256;
    let t2 = x / 0x10000;
    let t3 = x / 0x1000000;
    let t4 = x / 0x100000000;
    let t5 = x / 0x10000000000;
    let t6 = x / 0x1000000000000;
    let t7 = x / 0x100000000000000;
    lemma_div_denominator(x, 256, 256);
    lemma_div_denominator(x, 0x10000, 256);
    lemma_div_denominator(x, 0x1000000, 256);
    lemma_div_denominator(x, 0x100000000, 256);
    lemma_div_denominator(x, 0x10000000000, 256);
    lemma_div_denominator(x, 0x1000000000000, 256);
    assert(t1 / 256 == t2);
    assert(t2 / 256 == t3);
    assert(t3 / 256 == t4);
    assert(t4 / 256 == t5);
    assert(t5 / 256 == t6);
    assert(t6 / 256 == t7);
    lemma_fundamental_div_mod(x, 0x100000000000000);
    assert(t7 < 256);
    lemma_small_mod(t7 as nat, 256);
    lemma_fundamental_div_mod(t6, 256);
    lemma_fundamental_div_mod(t5, 256);
    lemma_fundamental_div_mod(t4, 256);
    lemma_fundamental_div_mod(t3, 256);
    lemma_fundamental_div_mod(t2, 256);
    lemma_fundamental_div_mod(t1, 256);
    lemma_fundamental_div_mod(x, 256);
    assert(t6 % 256 + 256 * t7 == t6);
    assert(t5 % 256 + 256 * t6 == t5);
    assert(t4 % 256 + 256 * t5 == t4);
    assert(t3 % 256 + 256 * t4 == t3);
    assert(t2 % 256 + 256 * t3 == t2);
    assert(t1 % 256 + 256 * t2 == t1);
    assert(x % 256 + 256 * t1 == x);
}

/// An integer's encoding is eight bytes long.
pub broadcast proof fn lemma_enc_u64_len(n: u64)
    ensures
        (#[trigger] enc_u64(n)).len() == 8,
{
    reveal(enc_u64);
}

/// Reads an integer at an offset.
pub open spec fn rd_u64(data: Seq<u8>, off: int) -> Option<(u64, int)> {
    if 0 <= off && off + 8 <= data.len() {
        Some((dec_u64(data.subrange(off, off + 8)), off + 8))
    } else {
        None
    }
}

/// Reading where an encoded integer lies yields that integer.
pub proof fn lemma_rd_u64_of_enc(data: Seq<u8>, off: int, n: u64)
    requires
        0 <= off,
        off + 8 <= data.len(),
        data.subrange(off, off + 8) == enc_u64(n),
    ensures
        rd_u64(data, off) == Some((n, off + 8)),
{
    lemma_u64_round_trip(n);
}

/// Appends the encoding of an integer.
pub fn write_u64(out: &mut Vec<u8>, n: u64)
    ensures
        final(out)@ == old(out)@ + enc_u64(n),
{
    out.push((n % 256) as u8);
    out.push(((n / 256) % 256) as u8);
    out.push(((n / 0x10000) % 256) as u8);
    out.push(((n / 0x1000000) % 256) as u8);
    out.push(((n / 0x100000000) % 256) as u8);
    out.push(((n / 0x10000000000) % 256) as u8);
    out.push(((n / 0x1000000000000) % 256) as u8);
    out.push(((n / 0x100000000000000) % 256) as u8);
    proof {
        reveal(enc_u64);
        assert(out@ =~= old(out)@ + enc_u64(n));
    }
}

/// Reads an integer at an offset; absent when fewer than eight bytes remain.
pub fn read_u64(data: &Vec<u8>, off: usize) -> (r: Option<(u64, usize)>)
    ensures
        r is Some <==> rd_u64(data@, off as int) is Some,
        r matches Some(p) ==> rd_u64(data@, off as int) == Some((p.0, p.1 as int)),
{
    if data.len() < 8 || off > data.len() - 8 {
        return None;
    }
    let b0 = data[off] as u64;
    let b1 = data[off + 1] as u64;
    let b2 = data[off + 2] as u64;
    let b3 = data[off + 3] as u64;
    let b4 = data[off + 4] as u64;
    let b5 = data[off + 5] as u64;
    let b6 = data[off + 6] as u64;
    let b7 = data[off + 7] as u64;
    let n = b0 + 256 * (b1 + 256 * (b2 + 256 * (b3 + 256 * (b4 + 256 * (b5 + 256 * (b6 + 256
        * b7))))));
    proof {
        reveal(dec_u64);
        let s = data@.subrange(off as int, off as int + 8);
        assert(s[0] == data@[off as int]);
        assert(n == dec_u64(s));
    }
    Some((n, off + 8))
}

// ---------------------------------------------------------------------------
// Byte strings
// ---------------------------------------------------------------------------

/// A length prefix, then the bytes themselves.
pub open spec fn enc_bytes(b: Seq<u8>) -> Seq<u8>
    recommends
        b.len() <= u64::MAX,
{
    enc_u64(b.len() as u64) + b
}

/// Reads a length-prefixed byte string at an offset.
pub open spec fn rd_bytes(data: Seq<u8>, off: int) -> Option<(Seq<u8>, int)> {
    match rd_u64(data, off) {
        Some((len, o2)) => if o2 + len <= data.len() {
            Some((data.subrange(o2, o2 + len), o2 + len))
        } else {
            None
        },
        None => None,
    }
}

/// Reading where an encoded byte string lies yields that byte string.
pub proof fn lemma_rd_bytes_of_enc(data: Seq<u8>, off: int, b: Seq<u8>)
    requires
        0 <= off,
        b.len() <= u64::MAX,
        off + enc_bytes(b).len() <= data.len(),
        data.subrange(off, off + enc_bytes(b).len()) == enc_bytes(b),
    ensures
        rd_bytes(data, off) == Some((b, off + 8 + b.len())),
{
    broadcast use lemma_enc_u64_len;

    let whole = data.subrange(off, off + enc_bytes(b).len());
    assert(data.subrange(off, off + 8) =~= whole.subrange(0, 8));
    assert(whole.subrange(0, 8) =~= enc_u64(b.len() as u64));
    lemma_rd_u64_of_enc(data, off, b.len() as u64);
    assert(data.subrange(off + 8, off + 8 + b.len()) =~= whole.subrange(8, 8 + b.len() as int));
    assert(whole.subrange(8, 8 + b.len() as int) =~= b);
}

/// Appends the encoding of a byte string.
pub fn write_bytes(out: &mut Vec<u8>, b: &Vec<u8>)
    ensures
        final(out)@ == old(out)@ + enc_bytes(b@),
{
    broadcast use lemma_enc_u64_len;

    write_u64(out, b.len() as u64);
    let mut i: usize = 0;
    while i < b.len()
        invariant
            i <= b@.len(),
            out@ == old(out)@ + enc_u64(b@.len() as u64) + b@.take(i as int),
        decreases b@.len() - i,
    {
        out.push(b[i]);
        i += 1;
        proof {
            assert(out@ =~= old(out)@ + enc_u64(b@.len() as u64) + b@.take(i as int));
        }
    }
    proof {
        assert(out@ =~= old(out)@ + enc_bytes(b@));
    }
}

/// Reads a length-prefixed byte string at an offset; absent when the prefix
/// or the bytes run past the end.
pub fn read_bytes(data: &Vec<u8>, off: usize) -> (r: Option<(Vec<u8>, usize)>)
    ensures
        r is Some <==> rd_bytes(data@, off as int) is Some,
        r matches Some(p) ==> rd_bytes(data@, off as int) == Some((p.0@, p.1 as int)),
{
    let (len, o2) = match read_u64(data, off) {
        Some(p) => p,
        None => {
            return None;
        },
    };
    let rem = data.len() - o2;
    if len > rem as u64 {
        return None;
    }
    let l = len as usize;
    proof {
        assert(l == len);
        assert(o2 + l <= data@.len());
    }
    let mut v: Vec<u8> = Vec::new();
    let mut i: usize = 0;
    while i < l
        invariant
            i <= l,
            o2 + l <= data@.len(),
            o2 + l <= usize::MAX,
            v@ == data@.subrange(o2 as int, o2 as int + i as int),
        decreases l - i,
    {
        v.push(data[o2 + i]);
        i += 1;
        proof {
            assert(v@ =~= data@.subrange(o2 as int, o2 as int + i as int));
        }
    }
    Some((v, o2 + l))
}

// ---------------------------------------------------------------------------
// Text
// ---------------------------------------------------------------------------

/// A length-prefixed UTF-8 encoding of the characters.
pub open spec fn enc_str(s: Seq<char>) -> Seq<u8>
    recommends
        encode_utf8(s).len() <= u64::MAX,
{
    enc_bytes(encode_utf8(s))
}

/// Reads a length-prefixed UTF-8 string at an offset.
pub open spec fn rd_str(data: Seq<u8>, off: int) -> Option<(Seq<char>, int)> {
    match rd_bytes(data, off) {
        Some((b, o2)) => if valid_utf8(b) {
            Some((decode_utf8(b), o2))
        } else {
            None
        },
        None => None,
    }
}

/// Reading where an encoded string lies yields that string.
pub proof fn lemma_rd_str_of_enc(data: Seq<u8>, off: int, s: Seq<char>)
    requires
        0 <= off,
        encode_utf8(s).len() <= u64::MAX,
        off + enc_str(s).len() <= data.len(),
        data.subrange(off, off + enc_str(s).len()) == enc_str(s),
    ensures
        rd_str(data, off) == Some((s, off + 8 + encode_utf8(s).len())),
{
    lemma_rd_bytes_of_enc(data, off, encode_utf8(s));
    encode_utf8_valid_utf8(s);
    encode_utf8_decode_utf8(s);
}

/// Appends the encoding of a string.
pub fn write_str(out: &mut Vec<u8>, s: &String)
    ensures
        final(out)@ == old(out)@ + enc_str(s@),
{
    let bytes = s.as_str().as_bytes_vec();
    write_bytes(out, &bytes);
}

/// Reads a length-prefixed UTF-8 string at an offset; absent when the bytes
/// run out or are not valid UTF-8.
pub fn read_string(data: &Vec<u8>, off: usize) -> (r: Option<(String, usize)>)
    ensures
        r is Some <==> rd_str(data@, off as int) is Some,
        r matches Some(p) ==> rd_str(data@, off as int) == Some((p.0@, p.1 as int)),
{
    let (bytes, o2) = match read_bytes(data, off) {
        Some(p) => p,
        None => {
            return None;
        },
    };
    let ghost bs = bytes@;
    match string_from_utf8(bytes) {
        Some(s) => {
            proof {
                encode_utf8_valid_utf8(s@);
                encode_utf8_decode_utf8(s@);
            }
            Some((s, o2))
        },
        None => None,
    }
}

// ---------------------------------------------------------------------------
// String lists
// ---------------------------------------------------------------------------

/// A string's encoding stays within the length prefix's range.
pub open spec fn str_enc_wf(s: Seq<char>) -> bool {
    encode_utf8(s).len() <= u64::MAX
}

/// The encodings of the items, one after the other.
pub open spec fn enc_str_items(v: Seq<Seq<char>>) -> Seq<u8>
    decreases v.len(),
{
    if v.len() == 0 {
        Seq::<u8>::empty()
    } else {
        enc_str(v.first()) + enc_str_items(v.drop_first())
    }
}

/// A count prefix, then the items.
pub open spec fn enc_str_list(v: Seq<Seq<char>>) -> Seq<u8> {
    enc_u64(v.len() as u64) + enc_str_items(v)
}

/// Appending an item appends its encoding.
pub proof fn lemma_enc_str_items_push(v: Seq<Seq<char>>, s: Seq<char>)
    ensures
        enc_str_items(v.push(s)) == enc_str_items(v) + enc_str(s),
    decreases v.len(),
{
    broadcast use lemma_enc_u64_len;

    if v.len() == 0 {
        assert(v.push(s).drop_first() =~= v);
        assert(enc_str_items(v.push(s)) =~= enc_str_items(v) + enc_str(s));
    } else {
        assert(v.push(s).drop_first() =~= v.drop_first().push(s));
        lemma_enc_str_items_push(v.drop_first(), s);
        assert(enc_str_items(v.push(s)) =~= enc_str_items(v) + enc_str(s));
    }
}

/// Reads `count` consecutive strings at an offset.
pub open spec fn rd_str_items(data: Seq<u8>, off: int, count: nat) -> Option<(Seq<Seq<char>>, int)>
    decreases count,
{
    if count == 0 {
        Some((Seq::<Seq<char>>::empty(), off))
    } else {
        match rd_str(data, off) {
            Some((s, o2)) => match rd_str_items(data, o2, (count - 1) as nat) {
                Some((rest, o3)) => Some((seq![s] + rest, o3)),
                None => None,
            },
            None => None,
        }
    }
}

/// Reads a count-prefixed string list at an offset.
pub open spec fn rd_str_list(data: Seq<u8>, off: int) -> Option<(Seq<Seq<char>>, int)> {
    match rd_u64(data, off) {
        Some((count, o2)) => rd_str_items(data, o2, count as nat),
        None => None,
    }
}

/// Reading where encoded items lie yields those items.
#[verifier::rlimit(50)]
pub proof fn lemma_rd_str_items_of_enc(data: Seq<u8>, off: int, v: Seq<Seq<char>>)
    requires
        0 <= off,
        forall|i: int| 0 <= i < v.len() ==> str_enc_wf(#[trigger] v[i]),
        off + enc_str_items(v).len() <= data.len(),
        data.subrange(off, off + enc_str_items(v).len()) == enc_str_items(v),
    ensures
        rd_str_items(data, off, v.len()) == Some((v, off + enc_str_items(v).len())),
    decreases v.len(),
{
    broadcast use lemma_enc_u64_len;

    if v.len() == 0 {
        assert(v =~= Seq::<Seq<char>>::empty());
    } else {
        let e0 = enc_str(v.first());
        let rest = enc_str_items(v.drop_first());
        let whole = data.subrange(off, off + enc_str_items(v).len());
        assert(data.subrange(off, off + e0.len() as int) =~= whole.subrange(0, e0.len() as int));
        assert(whole.subrange(0, e0.len() as int) =~= e0);
        lemma_rd_str_of_enc(data, off, v.first());
        let o2 = off + e0.len();
        assert(data.subrange(o2, o2 + rest.len() as int) =~= whole.subrange(
            e0.len() as int,
            e0.len() + rest.len() as int,
        ));
        assert(whole.subrange(e0.len() as int, e0.len() + rest.len() as int) =~= rest);
        lemma_rd_str_items_of_enc(data, o2, v.drop_first());
        assert(seq![v.first()] + v.drop_first() =~= v);
    }
}

/// Reading where an encoded string list lies yields that list.
pub proof fn lemma_rd_str_list_of_enc(data: Seq<u8>, off: int, v: Seq<Seq<char>>)
    requires
        0 <= off,
        v.len() <= u64::MAX,
        forall|i: int| 0 <= i < v.len() ==> str_enc_wf(#[trigger] v[i]),
        off + enc_str_list(v).len() <= data.len(),
        data.subrange(off, off + enc_str_list(v).len()) == enc_str_list(v),
    ensures
        rd_str_list(data, off) == Some((v, off + enc_str_list(v).len())),
{
    broadcast use lemma_enc_u64_len;

    let whole = data.subrange(off, off + enc_str_list(v).len());
    assert(data.subrange(off, off + 8) =~= whole.subrange(0, 8));
    assert(whole.subrange(0, 8) =~= enc_u64(v.len() as u64));
    lemma_rd_u64_of_enc(data, off, v.len() as u64);
    let items = enc_str_items(v);
    assert(data.subrange(off + 8, off + 8 + items.len() as int) =~= whole.subrange(
        8,
        8 + items.len() as int,
    ));
    assert(whole.subrange(8, 8 + items.len() as int) =~= items);
    lemma_rd_str_items_of_enc(data, off + 8, v);
}

/// Appends the encoding of a string list.
pub fn write_str_list(out: &mut Vec<u8>, v: &Vec<String>)
    ensures
        final(out)@ == old(out)@ + enc_str_list(v.deep_view()),
{
    broadcast use lemma_enc_u64_len;

    write_u64(out, v.len() as u64);
    let mut i: usize = 0;
    while i < v.len()
        invariant
            i <= v@.len(),
            out@ == old(out)@ + enc_u64(v@.len() as u64) + enc_str_items(
                v.deep_view().take(i as int),
            ),
        decreases v@.len() - i,
    {
        write_str(out, &v[i]);
        proof {
            lemma_enc_str_items_push(v.deep_view().take(i as int), v@[i as int]@);
            assert(v.deep_view().take(i + 1) =~= v.deep_view().take(i as int).push(v@[i as int]@));
        }
        i += 1;
    }
    proof {
        assert(v.deep_view().take(v@.len() as int) =~= v.deep_view());
        assert(out@ =~= old(out)@ + enc_str_list(v.deep_view()));
    }
}

/// Reads a count-prefixed string list at an offset; absent when any item is
/// absent.
pub fn read_str_list(data: &Vec<u8>, off: usize) -> (r: Option<(Vec<String>, usize)>)
    ensures
        r is Some <==> rd_str_list(data@, off as int) is Some,
        r matches Some(p) ==> rd_str_list(data@, off as int) == Some((p.0.deep_view(), p.1 as int)),
{
    let (count, start) = match read_u64(data, off) {
        Some(p) => p,
        None => {
            return None;
        },
    };
    let mut acc: Vec<String> = Vec::new();
    let mut cur: usize = start;
    let mut i: u64 = 0;
    while i < count
        invariant
            i <= count,
            acc@.len() == i,
            rd_u64(data@, off as int) == Some((count, start as int)),
            match rd_str_items(data@, cur as int, (count - i) as nat) {
                Some((rest, fin)) => rd_str_items(data@, start as int, count as nat) == Some(
                    (acc.deep_view() + rest, fin),
                ),
                None => rd_str_items(data@, start as int, count as nat) is None,
            },
        decreases count - i,
    {
        let (s, next) = match read_string(data, cur) {
            Some(p) => p,
            None => {
                proof {
                    assert(rd_str_items(data@, cur as int, (count - i) as nat) is None);
                }
                return None;
            },
        };
        proof {
            let ghost pre = acc.deep_view();
            assert(pre.push(s@) =~= pre + seq![s@]);
        }
        let ghost pre = acc.deep_view();
        acc.push(s);
        proof {
            assert(acc.deep_view() =~= pre.push(s@));
            match rd_str_items(data@, next as int, (count - i - 1) as nat) {
                Some((rest2, fin2)) => {
                    assert(pre + (seq![s@] + rest2) =~= acc.deep_view() + rest2);
                },
                None => {},
            }
        }
        cur = next;
        i += 1;
    }
    proof {
        assert(acc.deep_view() + Seq::<Seq<char>>::empty() =~= acc.deep_view());
    }
    Some((acc, cur))
}

// ---------------------------------------------------------------------------
// Signer/signature pair lists
// ---------------------------------------------------------------------------

/// A pair's encoding stays within its length prefixes' range.
pub open spec fn sig_enc_wf(p: (Seq<char>, Seq<u8>)) -> bool {
    str_enc_wf(p.0) && p.1.len() <= u64::MAX
}

/// A signer name, then the signature bytes.
pub open spec fn enc_sig(p: (Seq<char>, Seq<u8>)) -> Seq<u8> {
    enc_str(p.0) + enc_bytes(p.1)
}

/// The encodings of the pairs, one after the other.
pub open spec fn enc_sig_items(v: Seq<(Seq<char>, Seq<u8>)>) -> Seq<u8>
    decreases v.len(),
{
    if v.len() == 0 {
        Seq::<u8>::empty()
    } else {
        enc_sig(v.first()) + enc_sig_items(v.drop_first())
    }
}

/// A count prefix, then the pairs.
pub open spec fn enc_sig_list(v: Seq<(Seq<char>, Seq<u8>)>) -> Seq<u8> {
    enc_u64(v.len() as u64) + enc_sig_items(v)
}

/// Appending a pair appends its encoding.
pub proof fn lemma_enc_sig_items_push(v: Seq<(Seq<char>, Seq<u8>)>, p: (Seq<char>, Seq<u8>))
    ensures
        enc_sig_items(v.push(p)) == enc_sig_items(v) + enc_sig(p),
    decreases v.len(),
{
    broadcast use lemma_enc_u64_len;

    if v.len() == 0 {
        assert(v.push(p).drop_first() =~= v);
        assert(enc_sig_items(v.push(p)) =~= enc_sig_items(v) + enc_sig(p));
    } else {
        assert(v.push(p).drop_first() =~= v.drop_first().push(p));
        lemma_enc_sig_items_push(v.drop_first(), p);
        assert(enc_sig_items(v.push(p)) =~= enc_sig_items(v) + enc_sig(p));
    }
}

/// Reads one signer/signature pair at an offset.
pub open spec fn rd_sig(data: Seq<u8>, off: int) -> Option<((Seq<char>, Seq<u8>), int)> {
    match rd_str(data, off) {
        Some((name, o2)) => match rd_bytes(data, o2) {
            Some((sig, o3)) => Some(((name, sig), o3)),
            None => None,
        },
        None => None,
    }
}

/// Reads `count` consecutive pairs at an offset.
pub open spec fn rd_sig_items(data: Seq<u8>, off: int, count: nat) -> Option<
    (Seq<(Seq<char>, Seq<u8>)>, int),
>
    decreases count,
{
    if count == 0 {
        Some((Seq::<(Seq<char>, Seq<u8>)>::empty(), off))
    } else {
        match rd_sig(data, off) {
            Some((p, o2)) => match rd_sig_items(data, o2, (count - 1) as nat) {
                Some((rest, o3)) => Some((seq![p] + rest, o3)),
                None => None,
            },
            None => None,
        }
    }
}

/// Reads a count-prefixed pair list at an offset.
pub open spec fn rd_sig_list(data: Seq<u8>, off: int) -> Option<(Seq<(Seq<char>, Seq<u8>)>, int)> {
    match rd_u64(data, off) {
        Some((count, o2)) => rd_sig_items(data, o2, count as nat),
        None => None,
    }
}

/// Reading where an encoded pair lies yields that pair.
#[verifier::rlimit(50)]
pub proof fn lemma_rd_sig_of_enc(data: Seq<u8>, off: int, p: (Seq<char>, Seq<u8>))
    requires
        0 <= off,
        sig_enc_wf(p),
        off + enc_sig(p).len() <= data.len(),
        data.subrange(off, off + enc_sig(p).len()) == enc_sig(p),
    ensures
        rd_sig(data, off) == Some((p, off + enc_sig(p).len())),
{
    broadcast use lemma_enc_u64_len;

    lemma_split_subrange(data, off, enc_str(p.0), enc_bytes(p.1));
    lemma_rd_str_of_enc(data, off, p.0);
    lemma_rd_bytes_of_enc(data, off + enc_str(p.0).len(), p.1);
}

/// Reading where encoded pairs lie yields those pairs.
#[verifier::rlimit(50)]
pub proof fn lemma_rd_sig_items_of_enc(data: Seq<u8>, off: int, v: Seq<(Seq<char>, Seq<u8>)>)
    requires
        0 <= off,
        forall|i: int| 0 <= i < v.len() ==> sig_enc_wf(#[trigger] v[i]),
        off + enc_sig_items(v).len() <= data.len(),
        data.subrange(off, off + enc_sig_items(v).len()) == enc_sig_items(v),
    ensures
        rd_sig_items(data, off, v.len()) == Some((v, off + enc_sig_items(v).len())),
    decreases v.len(),
{
    broadcast use lemma_enc_u64_len;

    if v.len() == 0 {
        assert(v =~= Seq::<(Seq<char>, Seq<u8>)>::empty());
    } else {
        let e0 = enc_sig(v.first());
        let rest = enc_sig_items(v.drop_first());
        lemma_split_subrange(data, off, e0, rest);
        lemma_rd_sig_of_enc(data, off, v.first());
        lemma_rd_sig_items_of_enc(data, off + e0.len(), v.drop_first());
        assert(seq![v.first()] + v.drop_first() =~= v);
    }
}

/// Reading where an encoded pair list lies yields that list.
pub proof fn lemma_rd_sig_list_of_enc(data: Seq<u8>, off: int, v: Seq<(Seq<char>, Seq<u8>)>)
    requires
        0 <= off,
        v.len() <= u64::MAX,
        forall|i: int| 0 <= i < v.len() ==> sig_enc_wf(#[trigger] v[i]),
        off + enc_sig_list(v).len() <= data.len(),
        data.subrange(off, off + enc_sig_list(v).len()) == enc_sig_list(v),
    ensures
        rd_sig_list(data, off) == Some((v, off + enc_sig_list(v).len())),
{
    broadcast use lemma_enc_u64_len;

    lemma_split_subrange(data, off, enc_u64(v.len() as u64), enc_sig_items(v));
    lemma_rd_u64_of_enc(data, off, v.len() as u64);
    lemma_rd_sig_items_of_enc(data, off + 8, v);
}

/// Appends the encoding of a signer/signature pair list.
pub fn write_sig_list(out: &mut Vec<u8>, v: &Vec<(String, Vec<u8>)>)
    ensures
        final(out)@ == old(out)@ + enc_sig_list(crate::types::signatures_view(v@)),
{
    broadcast use lemma_enc_u64_len;

    write_u64(out, v.len() as u64);
    let mut i: usize = 0;
    while i < v.len()
        invariant
            i <= v@.len(),
            out@ == old(out)@ + enc_u64(v@.len() as u64) + enc_sig_items(
                crate::types::signatures_view(v@).take(i as int),
            ),
        decreases v@.len() - i,
    {
        write_str(out, &v[i].0);
        write_bytes(out, &v[i].1);
        proof {
            let sv = crate::types::signatures_view(v@);
            lemma_enc_sig_items_push(sv.take(i as int), sv[i as int]);
            assert(sv.take(i + 1) =~= sv.take(i as int).push(sv[i as int]));
            assert(out@ =~= old(out)@ + enc_u64(v@.len() as u64) + enc_sig_items(
                sv.take(i + 1),
            ));
        }
        i += 1;
    }
    proof {
        let sv = crate::types::signatures_view(v@);
        assert(sv.take(v@.len() as int) =~= sv);
    }
}

/// Reads a count-prefixed signer/signature pair list at an offset.
pub fn read_sig_list(data: &Vec<u8>, off: usize) -> (r: Option<(Vec<(String, Vec<u8>)>, usize)>)
    ensures
        r is Some <==> rd_sig_list(data@, off as int) is Some,
        r matches Some(p) ==> rd_sig_list(data@, off as int) == Some(
            (crate::types::signatures_view(p.0@), p.1 as int),
        ),
{
    let (count, start) = match read_u64(data, off) {
        Some(p) => p,
        None => {
            return None;
        },
    };
    let mut acc: Vec<(String, Vec<u8>)> = Vec::new();
    let mut cur: usize = start;
    let mut i: u64 = 0;
    while i < count
        invariant
            i <= count,
            acc@.len() == i,
            rd_u64(data@, off as int) == Some((count, start as int)),
            match rd_sig_items(data@, cur as int, (count - i) as nat) {
                Some((rest, fin)) => rd_sig_items(data@, start as int, count as nat) == Some(
                    (crate::types::signatures_view(acc@) + rest, fin),
                ),
                None => rd_sig_items(data@, start as int, count as nat) is None,
            },
        decreases count - i,
    {
        let (name, o2) = match read_string(data, cur) {
            Some(p) => p,
            None => {
                proof {
                    assert(rd_sig_items(data@, cur as int, (count - i) as nat) is None);
                }
                return None;
            },
        };
        let (sig, next) = match read_bytes(data, o2) {
            Some(p) => p,
            None => {
                proof {
                    assert(rd_sig_items(data@, cur as int, (count - i) as nat) is None);
                }
                return None;
            },
        };
        let ghost pre = crate::types::signatures_view(acc@);
        let ghost pv = (name@, sig@);
        acc.push((name, sig));
        proof {
            assert(crate::types::signatures_view(acc@) =~= pre.push(pv));
            assert(pre.push(pv) =~= pre + seq![pv]);
            match rd_sig_items(data@, next as int, (count - i - 1) as nat) {
                Some((rest2, fin2)) => {
                    assert(pre + (seq![pv] + rest2) =~= pre.push(pv) + rest2);
                },
                None => {},
            }
        }
        cur = next;
        i += 1;
    }
    proof {
        assert(crate::types::signatures_view(acc@) + Seq::<(Seq<char>, Seq<u8>)>::empty()
            =~= crate::types::signatures_view(acc@));
    }
    Some((acc, cur))
}

/// Splitting a subrange that holds a concatenation yields each part.
pub proof fn lemma_split_subrange(data: Seq<u8>, off: int, a: Seq<u8>, b: Seq<u8>)
    requires
        0 <= off,
        off + a.len() + b.len() <= data.len(),
        data.subrange(off, off + a.len() + b.len()) == a + b,
    ensures
        data.subrange(off, off + a.len() as int) == a,
        data.subrange(off + a.len(), off + a.len() + b.len()) == b,
{
    assert(data.subrange(off, off + a.len() as int) =~= a);
    assert forall|i: int| 0 <= i < b.len() implies data[off + a.len() + i] == b[i] by {
        let whole = data.subrange(off, off + a.len() + b.len());
        assert(whole[a.len() + i] == data[off + (a.len() + i)]);
        assert((a + b)[a.len() + i] == b[i]);
        assert(off + (a.len() + i) == off + a.len() + i);
    }
    assert(data.subrange(off + a.len(), off + a.len() + b.len()) =~= b);
}

// ---------------------------------------------------------------------------
// Escrow state tags
// ---------------------------------------------------------------------------

/// The tag byte of an escrow state.
pub open spec fn state_tag(s: crate::types::EscrowState) -> u8 {
    match s {
        crate::types::EscrowState::Created => 0,
        crate::types::EscrowState::Funded => 1,
        crate::types::EscrowState::InProgress => 2,
        crate::types::EscrowState::Completed => 3,
        crate::types::EscrowState::Disputed => 4,
        crate::types::EscrowState::Refunded => 5,
    }
}

/// The escrow state a tag byte stands for.
pub open spec fn state_of_tag(t: u8) -> Option<crate::types::EscrowState> {
    if t == 0 {
        Some(crate::types::EscrowState::Created)
    } else if t == 1 {
        Some(crate::types::EscrowState::Funded)
    } else if t == 2 {
        Some(crate::types::EscrowState::InProgress)
    } else if t == 3 {
        Some(crate::types::EscrowState::Completed)
    } else if t == 4 {
        Some(crate::types::EscrowState::Disputed)
    } else if t == 5 {
        Some(crate::types::EscrowState::Refunded)
    } else {
        None
    }
}

/// One tag byte.
pub open spec fn enc_state(s: crate::types::EscrowState) -> Seq<u8> {
    seq![state_tag(s)]
}

/// Reads an escrow state at an offset.
pub open spec fn rd_state(data: Seq<u8>, off: int) -> Option<(crate::types::EscrowState, int)> {
    if 0 <= off && off + 1 <= data.len() {
        match state_of_tag(data[off]) {
            Some(s) => Some((s, off + 1)),
            None => None,
        }
    } else {
        None
    }
}

/// Appends the tag byte of an escrow state.
pub fn write_state(out: &mut Vec<u8>, s: crate::types::EscrowState)
    ensures
        final(out)@ == old(out)@ + enc_state(s),
{
    let t: u8 = match s {
        crate::types::EscrowState::Created => 0,
        crate::types::EscrowState::Funded => 1,
        crate::types::EscrowState::InProgress => 2,
        crate::types::EscrowState::Completed => 3,
        crate::types::EscrowState::Disputed => 4,
        crate::types::EscrowState::Refunded => 5,
    };
    out.push(t);
    proof {
        assert(out@ =~= old(out)@ + enc_state(s));
    }
}

/// Reads an escrow state at an offset; absent at the end or on an unknown
/// tag.
pub fn read_state(data: &Vec<u8>, off: usize) -> (r: Option<(crate::types::EscrowState, usize)>)
    ensures
        r is Some <==> rd_state(data@, off as int) is Some,
        r matches Some(p) ==> rd_state(data@, off as int) == Some((p.0, p.1 as int)),
{
    if off >= data.len() {
        return None;
    }
    let t = data[off];
    let s = if t == 0 {
        crate::types::EscrowState::Created
    } else if t == 1 {
        crate::types::EscrowState::Funded
    } else if t == 2 {
        crate::types::EscrowState::InProgress
    } else if t == 3 {
        crate::types::EscrowState::Completed
    } else if t == 4 {
        crate::types::EscrowState::Disputed
    } else if t == 5 {
        crate::types::EscrowState::Refunded
    } else {
        return None;
    };
    Some((s, off + 1))
}

// ---------------------------------------------------------------------------
// Service records
// ---------------------------------------------------------------------------

/// A service record's encoding stays within its length prefixes' range.
pub open spec fn service_enc_wf(v: crate::types::ServiceMetadataView) -> bool {
    &&& str_enc_wf(v.id)
    &&& str_enc_wf(v.provider_did)
    &&& str_enc_wf(v.name)
    &&& str_enc_wf(v.description)
    &&& str_enc_wf(v.endpoint)
}

/// The encoding of a service record: five strings, then three integers.
pub open spec fn enc_service(v: crate::types::ServiceMetadataView) -> Seq<u8> {
    enc_str(v.id) + enc_str(v.provider_did) + enc_str(v.name) + enc_str(v.description) + enc_str(
        v.endpoint,
    ) + enc_u64(v.price) + enc_u64(v.reputation_score) + enc_u64(v.last_updated)
}

/// Reads a service record at an offset.
pub open spec fn rd_service(data: Seq<u8>, off: int) -> Option<
    (crate::types::ServiceMetadataView, int),
> {
    match rd_str(data, off) {
        Some((id, o1)) => match rd_str(data, o1) {
            Some((provider_did, o2)) => match rd_str(data, o2) {
                Some((name, o3)) => match rd_str(data, o3) {
                    Some((description, o4)) => match rd_str(data, o4) {
                        Some((endpoint, o5)) => match rd_u64(data, o5) {
                            Some((price, o6)) => match rd_u64(data, o6) {
                                Some((reputation_score, o7)) => match rd_u64(data, o7) {
                                    Some((last_updated, o8)) => Some(
                                        (
                                            crate::types::ServiceMetadataView {
                                                id,
                                                provider_did,
                                                name,
                                                description,
                                                endpoint,
                                                price,
                                                reputation_score,
                                                last_updated,
                                            },
                                            o8,
                                        ),
                                    ),
                                    None => None,
                                },
                                None => None,
                            },
                            None => None,
                        },
                        None => None,
                    },
                    None => None,
                },
                None => None,
            },
            None => None,
        },
        None => None,
    }
}

/// Decodes a whole buffer as one service record.
pub open spec fn dec_service(bytes: Seq<u8>) -> Option<crate::types::ServiceMetadataView> {
    match rd_service(bytes, 0) {
        Some((v, n)) => if n == bytes.len() {
            Some(v)
        } else {
            None
        },
        None => None,
    }
}

/// Reading where an encoded service record lies yields that record.
#[verifier::rlimit(100)]
#[verifier::spinoff_prover]
pub proof fn lemma_rd_service_of_enc(data: Seq<u8>, off: int, v: crate::types::ServiceMetadataView)
    requires
        0 <= off,
        service_enc_wf(v),
        off + enc_service(v).len() <= data.len(),
        data.subrange(off, off + enc_service(v).len()) == enc_service(v),
    ensures
        rd_service(data, off) == Some((v, off + enc_service(v).len())),
{
    broadcast use lemma_enc_u64_len;

    let e1 = enc_str(v.id);
    let e2 = enc_str(v.provider_did);
    let e3 = enc_str(v.name);
    let e4 = enc_str(v.description);
    let e5 = enc_str(v.endpoint);
    let e6 = enc_u64(v.price);
    let e7 = enc_u64(v.reputation_score);
    let e8 = enc_u64(v.last_updated);
    let o1 = off + e1.len();
    let o2 = o1 + e2.len();
    let o3 = o2 + e3.len();
    let o4 = o3 + e4.len();
    let o5 = o4 + e5.len();
    let o6 = o5 + e6.len();
    let o7 = o6 + e7.len();
    lemma_split_subrange(data, off, e1 + e2 + e3 + e4 + e5 + e6 + e7, e8);
    lemma_split_subrange(data, off, e1 + e2 + e3 + e4 + e5 + e6, e7);
    lemma_split_subrange(data, off, e1 + e2 + e3 + e4 + e5, e6);
    lemma_split_subrange(data, off, e1 + e2 + e3 + e4, e5);
    lemma_split_subrange(data, off, e1 + e2 + e3, e4);
    lemma_split_subrange(data, off, e1 + e2, e3);
    lemma_split_subrange(data, off, e1, e2);
    lemma_rd_str_of_enc(data, off, v.id);
    lemma_rd_str_of_enc(data, o1, v.provider_did);
    lemma_rd_str_of_enc(data, o2, v.name);
    lemma_rd_str_of_enc(data, o3, v.description);
    lemma_rd_str_of_enc(data, o4, v.endpoint);
    lemma_rd_u64_of_enc(data, o5, v.price);
    lemma_rd_u64_of_enc(data, o6, v.reputation_score);
    lemma_rd_u64_of_enc(data, o7, v.last_updated);
    assert(rd_str(data, off) == Some((v.id, o1)));
    assert(rd_str(data, o1) == Some((v.provider_did, o2)));
    assert(rd_str(data, o2) == Some((v.name, o3)));
    assert(rd_str(data, o3) == Some((v.description, o4)));
    assert(rd_str(data, o4) == Some((v.endpoint, o5)));
    assert(rd_u64(data, o5) == Some((v.price, o6)));
    assert(rd_u64(data, o6) == Some((v.reputation_score, o7)));
    assert(rd_u64(data, o7) == Some((v.last_updated, off + enc_service(v).len())));
}

/// Decoding the encoding of a service record yields that record.
pub proof fn lemma_service_round_trip(v: crate::types::ServiceMetadataView)
    requires
        service_enc_wf(v),
    ensures
        dec_service(enc_service(v)) == Some(v),
{
    broadcast use lemma_enc_u64_len;

    let data = enc_service(v);
    assert(data.subrange(0, data.len() as int) =~= data);
    lemma_rd_service_of_enc(data, 0, v);
}

/// Encodes a service record.
pub fn encode_service(s: &crate::types::ServiceMetadata) -> (r: Vec<u8>)
    ensures
        r@ == enc_service(s@),
{
    let mut out: Vec<u8> = Vec::new();
    write_str(&mut out, &s.id.0);
    write_str(&mut out, &s.provider_did);
    write_str(&mut out, &s.name);
    write_str(&mut out, &s.description);
    write_str(&mut out, &s.endpoint);
    write_u64(&mut out, s.price);
    write_u64(&mut out, s.reputation_score);
    write_u64(&mut out, s.last_updated);
    proof {
        assert(out@ =~= enc_service(s@));
    }
    out
}

/// Decodes a whole buffer as one service record; absent when the bytes do
/// not spell exactly one record.
pub fn decode_service(data: &Vec<u8>) -> (r: Option<crate::types::ServiceMetadata>)
    ensures
        r is Some <==> dec_service(data@) is Some,
        r matches Some(s) ==> dec_service(data@) == Some(s@),
{
    let (id, o1) = match read_string(data, 0) {
        Some(p) => p,
        None => {
            return None;
        },
    };
    let (provider_did, o2) = match read_string(data, o1) {
        Some(p) => p,
        None => {
            return None;
        },
    };
    let (name, o3) = match read_string(data, o2) {
        Some(p) => p,
        None => {
            return None;
        },
    };
    let (description, o4) = match read_string(data, o3) {
        Some(p) => p,
        None => {
            return None;
        },
    };
    let (endpoint, o5) = match read_string(data, o4) {
        Some(p) => p,
        None => {
            return None;
        },
    };
    let (price, o6) = match read_u64(data, o5) {
        Some(p) => p,
        None => {
            return None;
        },
    };
    let (reputation_score, o7) = match read_u64(data, o6) {
        Some(p) => p,
        None => {
            return None;
        },
    };
    let (last_updated, o8) = match read_u64(data, o7) {
        Some(p) => p,
        None => {
            return None;
        },
    };
    if o8 != data.len() {
        return None;
    }
    Some(
        crate::types::ServiceMetadata {
            id: crate::types::ServiceId(id),
            provider_did,
            name,
            description,
            endpoint,
            price,
            reputation_score,
            last_updated,
        },
    )
}

// ---------------------------------------------------------------------------
// Attestation records
// ---------------------------------------------------------------------------

/// An attestation's encoding stays within its length prefixes' range.
pub open spec fn attestation_enc_wf(v: crate::types::AttestationView) -> bool {
    &&& str_enc_wf(v.attester_did)
    &&& str_enc_wf(v.target_did)
    &&& str_enc_wf(v.interaction_type)
    &&& v.signature.len() <= u64::MAX
}

/// The encoding of an attestation.
pub open spec fn enc_attestation(v: crate::types::AttestationView) -> Seq<u8> {
    enc_str(v.attester_did) + enc_str(v.target_did) + enc_u64(v.score) + enc_str(
        v.interaction_type,
    ) + enc_u64(v.timestamp) + enc_bytes(v.signature)
}

/// Reads an attestation at an offset.
pub open spec fn rd_attestation(data: Seq<u8>, off: int) -> Option<
    (crate::types::AttestationView, int),
> {
    match rd_str(data, off) {
        Some((attester_did, o1)) => match rd_str(data, o1) {
            Some((target_did, o2)) => match rd_u64(data, o2) {
                Some((score, o3)) => match rd_str(data, o3) {
                    Some((interaction_type, o4)) => match rd_u64(data, o4) {
                        Some((timestamp, o5)) => match rd_bytes(data, o5) {
                            Some((signature, o6)) => Some(
                                (
                                    crate::types::AttestationView {
                                        attester_did,
                                        target_did,
                                        score,
                                        interaction_type,
                                        timestamp,
                                        signature,
                                    },
                                    o6,
                                ),
                            ),
                            None => None,
                        },
                        None => None,
                    },
                    None => None,
                },
                None => None,
            },
            None => None,
        },
        None => None,
    }
}

/// Decodes a whole buffer as one attestation.
pub open spec fn dec_attestation(bytes: Seq<u8>) -> Option<crate::types::AttestationView> {
    match rd_attestation(bytes, 0) {
        Some((v, n)) => if n == bytes.len() {
            Some(v)
        } else {
            None
        },
        None => None,
    }
}

/// Reading where an encoded attestation lies yields that attestation.
#[verifier::rlimit(100)]
pub proof fn lemma_rd_attestation_of_enc(
    data: Seq<u8>,
    off: int,
    v: crate::types::AttestationView,
)
    requires
        0 <= off,
        attestation_enc_wf(v),
        off + enc_attestation(v).len() <= data.len(),
        data.subrange(off, off + enc_attestation(v).len()) == enc_attestation(v),
    ensures
        rd_attestation(data, off) == Some((v, off + enc_attestation(v).len())),
{
    broadcast use lemma_enc_u64_len;

    let e1 = enc_str(v.attester_did);
    let e2 = enc_str(v.target_did);
    let e3 = enc_u64(v.score);
    let e4 = enc_str(v.interaction_type);
    let e5 = enc_u64(v.timestamp);
    let e6 = enc_bytes(v.signature);
    let o1 = off + e1.len();
    let o2 = o1 + e2.len();
    let o3 = o2 + e3.len();
    let o4 = o3 + e4.len();
    let o5 = o4 + e5.len();
    lemma_split_subrange(data, off, e1 + e2 + e3 + e4 + e5, e6);
    lemma_split_subrange(data, off, e1 + e2 + e3 + e4, e5);
    lemma_split_subrange(data, off, e1 + e2 + e3, e4);
    lemma_split_subrange(data, off, e1 + e2, e3);
    lemma_split_subrange(data, off, e1, e2);
    lemma_rd_str_of_enc(data, off, v.attester_did);
    lemma_rd_str_of_enc(data, o1, v.target_did);
    lemma_rd_u64_of_enc(data, o2, v.score);
    lemma_rd_str_of_enc(data, o3, v.interaction_type);
    lemma_rd_u64_of_enc(data, o4, v.timestamp);
    lemma_rd_bytes_of_enc(data, o5, v.signature);
}

/// Decoding the encoding of an attestation yields that attestation.
pub proof fn lemma_attestation_round_trip(v: crate::types::AttestationView)
    requires
        attestation_enc_wf(v),
    ensures
        dec_attestation(enc_attestation(v)) == Some(v),
{
    broadcast use lemma_enc_u64_len;

    let data = enc_attestation(v);
    assert(data.subrange(0, data.len() as int) =~= data);
    lemma_rd_attestation_of_enc(data, 0, v);
}

/// Encodes an attestation.
pub fn encode_attestation(a: &crate::types::ReputationAttestation) -> (r: Vec<u8>)
    ensures
        r@ == enc_attestation(a@),
{
    let mut out: Vec<u8> = Vec::new();
    write_str(&mut out, &a.attester_did);
    write_str(&mut out, &a.target_did);
    write_u64(&mut out, a.score);
    write_str(&mut out, &a.interaction_type);
    write_u64(&mut out, a.timestamp);
    write_bytes(&mut out, &a.signature);
    proof {
        assert(out@ =~= enc_attestation(a@));
    }
    out
}

/// Decodes a whole buffer as one attestation; absent when the bytes do not
/// spell exactly one attestation.
pub fn decode_attestation(data: &Vec<u8>) -> (r: Option<crate::types::ReputationAttestation>)
    ensures
        r is Some <==> dec_attestation(data@) is Some,
        r matches Some(a) ==> dec_attestation(data@) == Some(a@),
{
    let (attester_did, o1) = match read_string(data, 0) {
        Some(p) => p,
        None => {
            return None;
        },
    };
    let (target_did, o2) = match read_string(data, o1) {
        Some(p) => p,
        None => {
            return None;
        },
    };
    let (score, o3) = match read_u64(data, o2) {
        Some(p) => p,
        None => {
            return None;
        },
    };
    let (interaction_type, o4) = match read_string(data, o3) {
        Some(p) => p,
        None => {
            return None;
        },
    };
    let (timestamp, o5) = match read_u64(data, o4) {
        Some(p) => p,
        None => {
            return None;
        },
    };
    let (signature, o6) = match read_bytes(data, o5) {
        Some(p) => p,
        None => {
            return None;
        },
    };
    if o6 != data.len() {
        return None;
    }
    Some(
        crate::types::ReputationAttestation {
            attester_did,
            target_did,
            score,
            interaction_type,
            timestamp,
            signature,
        },
    )
}

// ---------------------------------------------------------------------------
// Escrow contract records
// ---------------------------------------------------------------------------

/// An escrow contract's encoding stays within its length prefixes' range.
pub open spec fn escrow_enc_wf(v: crate::types::EscrowContractView) -> bool {
    &&& str_enc_wf(v.id)
    &&& str_enc_wf(v.buyer_did)
    &&& str_enc_wf(v.seller_did)
    &&& v.arbiters.len() <= u64::MAX
    &&& forall|i: int| 0 <= i < v.arbiters.len() ==> str_enc_wf(#[trigger] v.arbiters[i])
    &&& str_enc_wf(v.multisig_address)
    &&& v.signatures.len() <= u64::MAX
    &&& forall|i: int| 0 <= i < v.signatures.len() ==> sig_enc_wf(#[trigger] v.signatures[i])
}

/// The encoding of an escrow contract.
pub open spec fn enc_escrow(v: crate::types::EscrowContractView) -> Seq<u8> {
    enc_str(v.id) + enc_str(v.buyer_did) + enc_str(v.seller_did) + enc_str_list(v.arbiters)
        + enc_u64(v.amount) + enc_state(v.state) + enc_str(v.multisig_address) + enc_sig_list(
        v.signatures,
    ) + enc_u64(v.created_at)
}

/// Reads an escrow contract at an offset.
pub open spec fn rd_escrow(data: Seq<u8>, off: int) -> Option<
    (crate::types::EscrowContractView, int),
> {
    match rd_str(data, off) {
        Some((id, o1)) => match rd_str(data, o1) {
            Some((buyer_did, o2)) => match rd_str(data, o2) {
                Some((seller_did, o3)) => match rd_str_list(data, o3) {
                    Some((arbiters, o4)) => match rd_u64(data, o4) {
                        Some((amount, o5)) => match rd_state(data, o5) {
                            Some((state, o6)) => match rd_str(data, o6) {
                                Some((multisig_address, o7)) => match rd_sig_list(data, o7) {
                                    Some((signatures, o8)) => match rd_u64(data, o8) {
                                        Some((created_at, o9)) => Some(
                                            (
                                                crate::types::EscrowContractView {
                                                    id,
                                                    buyer_did,
                                                    seller_did,
                                                    arbiters,
                                                    amount,
                                                    state,
                                                    multisig_address,
                                                    signatures,
                                                    created_at,
                                                },
                                                o9,
                                            ),
                                        ),
                                        None => None,
                                    },
                                    None => None,
                                },
                                None => None,
                            },
                            None => None,
                        },
                        None => None,
                    },
                    None => None,
                },
                None => None,
            },
            None => None,
        },
        None => None,
    }
}

/// Decodes a whole buffer as one escrow contract.
pub open spec fn dec_escrow(bytes: Seq<u8>) -> Option<crate::types::EscrowContractView> {
    match rd_escrow(bytes, 0) {
        Some((v, n)) => if n == bytes.len() {
            Some(v)
        } else {
            None
        },
        None => None,
    }
}

/// Reading where an encoded escrow state lies yields that state.
pub proof fn lemma_rd_state_of_enc(data: Seq<u8>, off: int, s: crate::types::EscrowState)
    requires
        0 <= off,
        off + 1 <= data.len(),
        data.subrange(off, off + 1) == enc_state(s),
    ensures
        rd_state(data, off) == Some((s, off + 1)),
{
    assert(data[off] == data.subrange(off, off + 1)[0]);
}

/// Reading where an encoded escrow contract lies yields that contract.
#[verifier::rlimit(100)]
pub proof fn lemma_rd_escrow_of_enc(data: Seq<u8>, off: int, v: crate::types::EscrowContractView)
    requires
        0 <= off,
        escrow_enc_wf(v),
        off + enc_escrow(v).len() <= data.len(),
        data.subrange(off, off + enc_escrow(v).len()) == enc_escrow(v),
    ensures
        rd_escrow(data, off) == Some((v, off + enc_escrow(v).len())),
{
    broadcast use lemma_enc_u64_len;

    let e1 = enc_str(v.id);
    let e2 = enc_str(v.buyer_did);
    let e3 = enc_str(v.seller_did);
    let e4 = enc_str_list(v.arbiters);
    let e5 = enc_u64(v.amount);
    let e6 = enc_state(v.state);
    let e7 = enc_str(v.multisig_address);
    let e8 = enc_sig_list(v.signatures);
    let e9 = enc_u64(v.created_at);
    let o1 = off + e1.len();
    let o2 = o1 + e2.len();
    let o3 = o2 + e3.len();
    let o4 = o3 + e4.len();
    let o5 = o4 + e5.len();
    let o6 = o5 + e6.len();
    let o7 = o6 + e7.len();
    let o8 = o7 + e8.len();
    lemma_split_subrange(data, off, e1 + e2 + e3 + e4 + e5 + e6 + e7 + e8, e9);
    lemma_split_subrange(data, off, e1 + e2 + e3 + e4 + e5 + e6 + e7, e8);
    lemma_split_subrange(data, off, e1 + e2 + e3 + e4 + e5 + e6, e7);
    lemma_split_subrange(data, off, e1 + e2 + e3 + e4 + e5, e6);
    lemma_split_subrange(data, off, e1 + e2 + e3 + e4, e5);
    lemma_split_subrange(data, off, e1 + e2 + e3, e4);
    lemma_split_subrange(data, off, e1 + e2, e3);
    lemma_split_subrange(data, off, e1, e2);
    lemma_rd_str_of_enc(data, off, v.id);
    lemma_rd_str_of_enc(data, o1, v.buyer_did);
    lemma_rd_str_of_enc(data, o2, v.seller_did);
    lemma_rd_str_list_of_enc(data, o3, v.arbiters);
    lemma_rd_u64_of_enc(data, o4, v.amount);
    lemma_rd_state_of_enc(data, o5, v.state);
    lemma_rd_str_of_enc(data, o6, v.multisig_address);
    lemma_rd_sig_list_of_enc(data, o7, v.signatures);
    lemma_rd_u64_of_enc(data, o8, v.created_at);
}

/// Decoding the encoding of an escrow contract yields that contract.
pub proof fn lemma_escrow_round_trip(v: crate::types::EscrowContractView)
    requires
        escrow_enc_wf(v),
    ensures
        dec_escrow(enc_escrow(v)) == Some(v),
{
    broadcast use lemma_enc_u64_len;

    let data = enc_escrow(v);
    assert(data.subrange(0, data.len() as int) =~= data);
    lemma_rd_escrow_of_enc(data, 0, v);
}

/// Encodes an escrow contract.
pub fn encode_escrow(c: &crate::types::EscrowContract) -> (r: Vec<u8>)
    ensures
        r@ == enc_escrow(c@),
{
    let mut out: Vec<u8> = Vec::new();
    write_str(&mut out, &c.id);
    write_str(&mut out, &c.buyer_did);
    write_str(&mut out, &c.seller_did);
    write_str_list(&mut out, &c.arbiters);
    write_u64(&mut out, c.amount);
    write_state(&mut out, c.state);
    write_str(&mut out, &c.multisig_address);
    write_sig_list(&mut out, &c.signatures);
    write_u64(&mut out, c.created_at);
    proof {
        assert(out@ =~= enc_escrow(c@));
    }
    out
}

/// Decodes a whole buffer as one escrow contract; absent when the bytes do
/// not spell exactly one contract.
pub fn decode_escrow(data: &Vec<u8>) -> (r: Option<crate::types::EscrowContract>)
    ensures
        r is Some <==> dec_escrow(data@) is Some,
        r matches Some(c) ==> dec_escrow(data@) == Some(c@),
{
    let (id, o1) = match read_string(data, 0) {
        Some(p) => p,
        None => {
            return None;
        },
    };
    let (buyer_did, o2) = match read_string(data, o1) {
        Some(p) => p,
        None => {
            return None;
        },
    };
    let (seller_did, o3) = match read_string(data, o2) {
        Some(p) => p,
        None => {
            return None;
        },
    };
    let (arbiters, o4) = match read_str_list(data, o3) {
        Some(p) => p,
        None => {
            return None;
        },
    };
    let (amount, o5) = match read_u64(data, o4) {
        Some(p) => p,
        None => {
            return None;
        },
    };
    let (state, o6) = match read_state(data, o5) {
        Some(p) => p,
        None => {
            return None;
        },
    };
    let (multisig_address, o7) = match read_string(data, o6) {
        Some(p) => p,
        None => {
            return None;
        },
    };
    let (signatures, o8) = match read_sig_list(data, o7) {
        Some(p) => p,
        None => {
            return None;
        },
    };
    let (created_at, o9) = match read_u64(data, o8) {
        Some(p) => p,
        None => {
            return None;
        },
    };
    if o9 != data.len() {
        return None;
    }
    Some(
        crate::types::EscrowContract {
            id,
            buyer_did,
            seller_did,
            arbiters,
            amount,
            state,
            multisig_address,
            signatures,
            created_at,
        },
    )
}

} // verus!
