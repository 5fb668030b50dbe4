//! Content hashes and cumulative difficulty: the fixed-width values of a
//! tip.

use crate::bytes::{append, be_bytes, be_value, same_bytes, u64_from_be, u64_to_be};
use crate::error::SerError;
use crate::ser::{Readable, Writeable};
use vstd::prelude::*;

verus! {

/// The number of bytes of a hash.
pub const HASH_SIZE: usize = 32;

/// A content hash. It names a block or a header.
#[derive(Clone, Copy, Debug, PartialEq, Eq)]
pub struct Hash(pub [u8; 32]);

impl Hash {
    /// The hash's 32 bytes.
    pub open spec fn bytes(&self) -> Seq<u8> {
        self.0@
    }

    /// The hash whose bytes are `s`, for `s` of 32 bytes.
    pub open spec fn from_seq(s: Seq<u8>) -> Hash {
        choose|h: Hash| #[trigger] h.bytes() == s
    }

    /// The hash with every byte zero.
    pub fn zero() -> (h: Hash)
        ensures
            h.0@ == Seq::new(32, |i: int| 0u8),
    {
        let h = Hash([0u8; 32]);
        assert(h.0@ =~= Seq::new(32, |i: int| 0u8));
        h
    }

    /// The hash in the first 32 bytes of `bytes`.
    pub fn from_slice(bytes: &[u8]) -> (h: Hash)
        requires
            bytes@.len() >= 32,
        ensures
            h.0@ == bytes@.take(32),
            h == Hash::from_seq(bytes@.take(32)),
    {
        let mut a = [0u8; 32];
        let mut i: usize = 0;
        while i < 32
            invariant
                i <= 32,
                bytes@.len() >= 32,
                forall|j: int| 0 <= j < i ==> a@[j] == bytes@[j],
            decreases 32 - i,
        {
            a[i] = bytes[i];
            i += 1;
        }
        assert(a@ =~= bytes@.take(32));
        let h = Hash(a);
        proof {
            lemma_from_seq(h);
        }
        h
    }

    /// The hash's bytes in a vector.
    pub fn to_vec(&self) -> (v: Vec<u8>)
        ensures
            v@ == self.0@,
    {
        let mut v: Vec<u8> = Vec::new();
        append(&mut v, self.0.as_slice());
        v
    }

    /// Whether two hashes are the same.
    pub fn same(&self, other: &Hash) -> (same: bool)
        ensures
            same == (*self == *other),
    {
        let same = same_bytes(self.0.as_slice(), other.0.as_slice());
        proof {
            lemma_hash_by_bytes(*self, *other);
        }
        same
    }
}

/// A hash is known by its bytes.
pub proof fn lemma_hash_by_bytes(a: Hash, b: Hash)
    ensures
        a.0@.len() == 32,
        (a.0@ == b.0@) <==> a == b,
{
    if a.0@ == b.0@ {
        assert(a.0 =~= b.0);
    }
}

/// Making a hash of a hash's bytes gives the hash back.
pub proof fn lemma_from_seq(h: Hash)
    ensures
        Hash::from_seq(h.0@) == h,
{
    assert(h.bytes() == h.0@);
    lemma_hash_by_bytes(Hash::from_seq(h.0@), h);
}

/// There is an array for every 32 bytes: one whose first `n` bytes are
/// those of `s`.
proof fn lemma_array_of(s: Seq<u8>, n: nat) -> (a: [u8; 32])
    requires
        s.len() == 32,
        n <= 32,
    ensures
        a@.len() == 32,
        forall|i: int| 0 <= i < n ==> a@[i] == s[i],
    decreases n,
{
    if n == 0 {
        vstd::array::spec_array_fill_for_copy_type::<u8, 32>(0u8)
    } else {
        let before = lemma_array_of(s, (n - 1) as nat);
        vstd::array::spec_array_update(before, n - 1, s[n - 1])
    }
}

/// Every 32 bytes are the bytes of a hash.
pub proof fn lemma_from_seq_bytes(s: Seq<u8>)
    requires
        s.len() == 32,
    ensures
        Hash::from_seq(s).0@ == s,
{
    let a = lemma_array_of(s, 32);
    assert(a@ =~= s);
    assert(Hash(a).bytes() == s);
}

impl Writeable for Hash {
    /// A hash is written as its 32 bytes.
    open spec fn encoded(&self) -> Result<Seq<u8>, SerError> {
        Ok(self.0@)
    }

    fn write(&self, out: &mut Vec<u8>) -> (r: Result<(), SerError>) {
        append(out, self.0.as_slice());
        Ok(())
    }
}

impl Readable for Hash {
    /// A hash is read from 32 bytes; fewer hold none.
    open spec fn decoded(bytes: Seq<u8>) -> Result<Hash, SerError> {
        if bytes.len() >= 32 {
            Ok(Hash::from_seq(bytes.take(32)))
        } else {
            Err(SerError::UnexpectedEof)
        }
    }

    fn read(bytes: &[u8]) -> (r: Result<Hash, SerError>) {
        if bytes.len() < 32 {
            return Err(SerError::UnexpectedEof);
        }
        Ok(Hash::from_slice(bytes))
    }
}

/// The work accumulated on a fork, summed from its first block on.
#[derive(Clone, Copy, Debug, PartialEq, Eq, Structural)]
pub struct Difficulty {
    /// The sum, in units of the lowest difficulty.
    pub num: u64,
}

impl Difficulty {
    /// The base unit: the difficulty of a chain that holds its first block
    /// only.
    pub fn one() -> (d: Difficulty)
        ensures
            d.num == 1,
    {
        Difficulty { num: 1 }
    }

    /// The difficulty of `num` units.
    pub fn from_num(num: u64) -> (d: Difficulty)
        ensures
            d.num == num,
    {
        Difficulty { num }
    }

    /// The number of units.
    pub fn into_num(&self) -> (num: u64)
        ensures
            num == self.num,
    {
        self.num
    }
}

impl Writeable for Difficulty {
    /// A difficulty is written as eight big-endian bytes.
    open spec fn encoded(&self) -> Result<Seq<u8>, SerError> {
        Ok(be_bytes(self.num))
    }

    fn write(&self, out: &mut Vec<u8>) -> (r: Result<(), SerError>) {
        let buf = u64_to_be(self.num);
        append(out, buf.as_slice());
        Ok(())
    }
}

impl Readable for Difficulty {
    /// A difficulty is read from eight bytes; fewer hold none.
    open spec fn decoded(bytes: Seq<u8>) -> Result<Difficulty, SerError> {
        if bytes.len() >= 8 {
            Ok(Difficulty { num: be_value(bytes) })
        } else {
            Err(SerError::UnexpectedEof)
        }
    }

    fn read(bytes: &[u8]) -> (r: Result<Difficulty, SerError>) {
        if bytes.len() < 8 {
            return Err(SerError::UnexpectedEof);
        }
        Ok(Difficulty { num: u64_from_be(bytes) })
    }
}

} // verus!
