//! Storage keys: a one-byte prefix, a separator byte, then the identifier.
//!
//! Every record kind has a prefix of its own, so that all kinds share one
//! flat key space without meeting.

use crate::bytes::{append, be_bytes, lemma_be_injective, lemma_be_order, lex_less, u64_to_be};
use vstd::prelude::*;

verus! {

/// The byte that separates a key's prefix from its identifier (`:`).
pub const SEP: u8 = 58;

/// Prefix of block records (`b`).
pub const BLOCK_PREFIX: u8 = 98;

/// Prefix of header records (`h`).
pub const BLOCK_HEADER_PREFIX: u8 = 104;

/// Prefix of the head pointer (`H`).
pub const HEAD_PREFIX: u8 = 72;

/// Prefix of the header-head pointer (`I`).
pub const HEADER_HEAD_PREFIX: u8 = 73;

/// Prefix of the entries of the height index (`8`).
pub const HEADER_HEIGHT_PREFIX: u8 = 56;

/// The key for `prefix` and the identifier `id`.
pub open spec fn key_of(prefix: u8, id: Seq<u8>) -> Seq<u8> {
    seq![prefix, SEP] + id
}

/// The key for `prefix` and the number `val`: the identifier is the eight
/// big-endian bytes of `val`.
pub open spec fn height_key_of(prefix: u8, val: u64) -> Seq<u8> {
    key_of(prefix, be_bytes(val))
}

/// Builds a key in place: `id` becomes `[prefix][SEP][id]`, and comes back.
pub fn to_key(prefix: u8, id: &mut Vec<u8>) -> (key: &mut Vec<u8>)
    ensures
        key@ == key_of(prefix, old(id)@),
        *final(id) == *final(key),
{
    id.insert(0, SEP);
    id.insert(0, prefix);
    assert(id@ =~= key_of(prefix, old(id)@));
    id
}

/// Builds the key for a prefix and a numeric identifier.
pub fn u64_to_key(prefix: u8, val: u64) -> (key: Vec<u8>)
    ensures
        key@ == height_key_of(prefix, val),
{
    let buf = u64_to_be(val);
    let mut key: Vec<u8> = Vec::new();
    append(&mut key, buf.as_slice());
    assert(key@ =~= be_bytes(val));
    to_key(prefix, &mut key);
    key
}

/// A key shows its prefix, the separator, and the identifier unchanged
/// behind them.
pub proof fn lemma_key_parts(prefix: u8, id: Seq<u8>)
    ensures
        key_of(prefix, id).len() == id.len() + 2,
        key_of(prefix, id)[0] == prefix,
        key_of(prefix, id)[1] == SEP,
        key_of(prefix, id).skip(2) == id,
{
    assert(key_of(prefix, id).skip(2) =~= id);
}

/// Two keys are the same only if prefix and identifier are: keys of
/// different kinds never meet, whatever bytes the identifiers hold.
pub proof fn lemma_key_injective(prefix: u8, id: Seq<u8>, other_prefix: u8, other_id: Seq<u8>)
    requires
        key_of(prefix, id) == key_of(other_prefix, other_id),
    ensures
        prefix == other_prefix,
        id == other_id,
{
    lemma_key_parts(prefix, id);
    lemma_key_parts(other_prefix, other_id);
}

/// Two numeric keys are the same only if prefix and number are.
pub proof fn lemma_height_key_injective(prefix: u8, a: u64, other_prefix: u8, b: u64)
    requires
        height_key_of(prefix, a) == height_key_of(other_prefix, b),
    ensures
        prefix == other_prefix,
        a == b,
{
    lemma_key_injective(prefix, be_bytes(a), other_prefix, be_bytes(b));
    lemma_be_injective(a, b);
}

/// Under one prefix, numeric keys sort byte-wise as their numbers do.
pub proof fn lemma_height_key_order(prefix: u8, a: u64, b: u64)
    ensures
        a < b <==> lex_less(height_key_of(prefix, a), height_key_of(prefix, b)),
{
    let s = be_bytes(a);
    let t = be_bytes(b);
    let ks = height_key_of(prefix, a);
    let kt = height_key_of(prefix, b);
    lemma_be_order(a, b);
    lemma_key_parts(prefix, s);
    lemma_key_parts(prefix, t);
    if lex_less(s, t) {
        let i = choose|i: int|
            0 <= i <= s.len() && i <= t.len() && #[trigger] s.take(i) == t.take(i) && (if i
                == s.len() {
                i < t.len()
            } else {
                i < t.len() && s[i] < t[i]
            });
        assert(ks.take(i + 2) =~= seq![prefix, SEP] + s.take(i));
        assert(kt.take(i + 2) =~= seq![prefix, SEP] + t.take(i));
        assert(ks[i + 2] == s[i]);
        assert(kt[i + 2] == t[i]);
    }
    if lex_less(ks, kt) {
        let i = choose|i: int|
            0 <= i <= ks.len() && i <= kt.len() && #[trigger] ks.take(i) == kt.take(i) && (if i
                == ks.len() {
                i < kt.len()
            } else {
                i < kt.len() && ks[i] < kt[i]
            });
        assert(i >= 2) by {
            if i < 2 {
                assert(ks[i] == kt[i]);
            }
        }
        assert(s.take(i - 2) =~= ks.take(i).skip(2));
        assert(t.take(i - 2) =~= kt.take(i).skip(2));
        assert(ks[i] == s[i - 2]);
        assert(kt[i] == t[i - 2]);
    }
}

} // verus!
