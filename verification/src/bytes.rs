//! Fixed-width big-endian integers, as they appear in keys and records.

use byteorder::{BigEndian, ByteOrder};
use vstd::prelude::*;

verus! {

/// The eight bytes of `n`, most significant first.
pub open spec fn be_bytes(n: u64) -> Seq<u8> {
    seq![
        (n >> 56) as u8,
        ((n >> 48) & 0xff) as u8,
        ((n >> 40) & 0xff) as u8,
        ((n >> 32) & 0xff) as u8,
        ((n >> 24) & 0xff) as u8,
        ((n >> 16) & 0xff) as u8,
        ((n >> 8) & 0xff) as u8,
        (n & 0xff) as u8,
    ]
}

/// The number that the first eight bytes of `s` spell, most significant first.
pub open spec fn be_value(s: Seq<u8>) -> u64
    recommends
        s.len() >= 8,
{
    (s[0] as u64) << 56 | (s[1] as u64) << 48 | (s[2] as u64) << 40 | (s[3] as u64) << 32 | (
    s[4] as u64) << 24 | (s[5] as u64) << 16 | (s[6] as u64) << 8 | (s[7] as u64)
}

/// `s` comes strictly before `t` in the order that compares byte by byte from
/// the front, a proper prefix coming before what extends it.
pub open spec fn lex_less(s: Seq<u8>, t: Seq<u8>) -> bool {
    exists|i: int|
        0 <= i <= s.len() && i <= t.len() && #[trigger] s.take(i) == t.take(i) && (if i == s.len() {
            i < t.len()
        } else {
            i < t.len() && s[i] < t[i]
        })
}

/// `byteorder::BigEndian::write_u64` on a buffer of eight bytes: the buffer
/// then holds `n` in big-endian order.
#[verifier::external_body]
pub(crate) fn u64_to_be(n: u64) -> (buf: [u8; 8])
    ensures
        buf@ == be_bytes(n),
{
    let mut buf = [0u8; 8];
    BigEndian::write_u64(&mut buf, n);
    buf
}

/// `byteorder::BigEndian::read_u64`: the big-endian number in the first eight
/// bytes of `buf`. It panics on a shorter buffer, which `requires` excludes.
#[verifier::external_body]
pub(crate) fn u64_from_be(buf: &[u8]) -> (n: u64)
    requires
        buf@.len() >= 8,
    ensures
        n == be_value(buf@),
{
    BigEndian::read_u64(buf)
}

/// Decoding what was encoded gives the number back.
pub proof fn lemma_be_roundtrip(n: u64)
    ensures
        be_bytes(n).len() == 8,
        be_value(be_bytes(n)) == n,
{
    let b0 = (n >> 56) as u8;
    let b1 = ((n >> 48) & 0xff) as u8;
    let b2 = ((n >> 40) & 0xff) as u8;
    let b3 = ((n >> 32) & 0xff) as u8;
    let b4 = ((n >> 24) & 0xff) as u8;
    let b5 = ((n >> 16) & 0xff) as u8;
    let b6 = ((n >> 8) & 0xff) as u8;
    let b7 = (n & 0xff) as u8;
    assert((b0 as u64) << 56 | (b1 as u64) << 48 | (b2 as u64) << 40 | (b3 as u64) << 32 | (
    b4 as u64) << 24 | (b5 as u64) << 16 | (b6 as u64) << 8 | (b7 as u64) == n) by (bit_vector)
        requires
            b0 == (n >> 56) as u8,
            b1 == ((n >> 48) & 0xff) as u8,
            b2 == ((n >> 40) & 0xff) as u8,
            b3 == ((n >> 32) & 0xff) as u8,
            b4 == ((n >> 24) & 0xff) as u8,
            b5 == ((n >> 16) & 0xff) as u8,
            b6 == ((n >> 8) & 0xff) as u8,
            b7 == (n & 0xff) as u8,
    ;
}

/// Encoding what eight bytes spell gives the eight bytes back.
pub proof fn lemma_be_bytes_of_value(s: Seq<u8>)
    requires
        s.len() == 8,
    ensures
        be_bytes(be_value(s)) == s,
{
    let (b0, b1, b2, b3, b4, b5, b6, b7) = (s[0], s[1], s[2], s[3], s[4], s[5], s[6], s[7]);
    let n = be_value(s);
    assert(b0 == (n >> 56) as u8 && b1 == ((n >> 48) & 0xff) as u8 && b2 == ((n >> 40) & 0xff) as u8
        && b3 == ((n >> 32) & 0xff) as u8 && b4 == ((n >> 24) & 0xff) as u8 && b5 == ((n >> 16)
        & 0xff) as u8 && b6 == ((n >> 8) & 0xff) as u8 && b7 == (n & 0xff) as u8) by (bit_vector)
        requires
            n == (b0 as u64) << 56 | (b1 as u64) << 48 | (b2 as u64) << 40 | (b3 as u64) << 32 | (
            b4 as u64) << 24 | (b5 as u64) << 16 | (b6 as u64) << 8 | (b7 as u64),
    ;
    assert(be_bytes(n) =~= s);
}

/// Different numbers have different encodings.
pub proof fn lemma_be_injective(a: u64, b: u64)
    requires
        be_bytes(a) == be_bytes(b),
    ensures
        a == b,
{
    lemma_be_roundtrip(a);
    lemma_be_roundtrip(b);
}

/// Numeric order and the byte-wise order of the encodings agree.
pub proof fn lemma_be_order(a: u64, b: u64)
    ensures
        a < b <==> lex_less(be_bytes(a), be_bytes(b)),
{
    let s = be_bytes(a);
    let t = be_bytes(b);
    lemma_be_roundtrip(a);
    lemma_be_roundtrip(b);
    let (a0, a1, a2, a3, a4, a5, a6, a7) = (s[0], s[1], s[2], s[3], s[4], s[5], s[6], s[7]);
    let (b0, b1, b2, b3, b4, b5, b6, b7) = (t[0], t[1], t[2], t[3], t[4], t[5], t[6], t[7]);
    let x = be_value(s);
    let y = be_value(t);
    assert(x < y <==> (a0 < b0 || (a0 == b0 && (a1 < b1 || (a1 == b1 && (a2 < b2 || (a2 == b2 && (a3
        < b3 || (a3 == b3 && (a4 < b4 || (a4 == b4 && (a5 < b5 || (a5 == b5 && (a6 < b6 || (a6 == b6
        && a7 < b7))))))))))))))) by (bit_vector)
        requires
            x == (a0 as u64) << 56 | (a1 as u64) << 48 | (a2 as u64) << 40 | (a3 as u64) << 32 | (
            a4 as u64) << 24 | (a5 as u64) << 16 | (a6 as u64) << 8 | (a7 as u64),
            y == (b0 as u64) << 56 | (b1 as u64) << 48 | (b2 as u64) << 40 | (b3 as u64) << 32 | (
            b4 as u64) << 24 | (b5 as u64) << 16 | (b6 as u64) << 8 | (b7 as u64),
    ;
    if a < b {
        let i = if a0 != b0 {
            0int
        } else if a1 != b1 {
            1
        } else if a2 != b2 {
            2
        } else if a3 != b3 {
            3
        } else if a4 != b4 {
            4
        } else if a5 != b5 {
            5
        } else if a6 != b6 {
            6
        } else {
            7
        };
        assert(s.take(i) =~= t.take(i));
        assert(s[i] < t[i]);
    }
    if lex_less(s, t) {
        let i = choose|i: int|
            0 <= i <= s.len() && i <= t.len() && #[trigger] s.take(i) == t.take(i) && (if i
                == s.len() {
                i < t.len()
            } else {
                i < t.len() && s[i] < t[i]
            });
        assert forall|j: int| 0 <= j < i implies s[j] == t[j] by {
            assert(s.take(i)[j] == s[j]);
            assert(t.take(i)[j] == t[j]);
        }
    }
}

/// Appends the bytes of `src` to `out`.
pub fn append(out: &mut Vec<u8>, src: &[u8])
    ensures
        final(out)@ == old(out)@ + src@,
{
    let mut i: usize = 0;
    while i < src.len()
        invariant
            i <= src@.len(),
            out@ == old(out)@ + src@.take(i as int),
        decreases src@.len() - i,
    {
        out.push(src[i]);
        i += 1;
        assert(out@ =~= old(out)@ + src@.take(i as int));
    }
    assert(src@.take(i as int) =~= src@);
}

/// Whether two byte strings are the same.
pub fn same_bytes(a: &[u8], b: &[u8]) -> (same: bool)
    ensures
        same == (a@ == b@),
{
    if a.len() != b.len() {
        return false;
    }
    let mut i: usize = 0;
    while i < a.len()
        invariant
            a@.len() == b@.len(),
            i <= a@.len(),
            a@.take(i as int) == b@.take(i as int),
        decreases a@.len() - i,
    {
        if a[i] != b[i] {
            return false;
        }
        i += 1;
        assert(a@.take(i as int) =~= a@.take(i - 1).push(a@[i - 1]));
        assert(b@.take(i as int) =~= b@.take(i - 1).push(b@[i - 1]));
    }
    assert(a@.take(i as int) =~= a@);
    assert(b@.take(i as int) =~= b@);
    true
}

} // verus!
