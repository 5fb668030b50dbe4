//! The encoding contract: what a value must offer to be stored, and to be
//! read back.

use crate::error::SerError;
use vstd::prelude::*;

verus! {

/// A value that has a byte encoding.
pub trait Writeable {
    /// The bytes that stand for the value, or why it has none. A type that
    /// states no encoding has none.
    open spec fn encoded(&self) -> Result<Seq<u8>, SerError> {
        Err(SerError::CorruptedData)
    }

    /// Appends the value's encoding to `out`, or fails as `encoded` says;
    /// after a failure `out` may hold a part of it.
    fn write(&self, out: &mut Vec<u8>) -> (r: Result<(), SerError>)
        ensures
            match self.encoded() {
                Ok(bytes) => r is Ok && final(out)@ == old(out)@ + bytes,
                Err(e) => r == Err::<(), SerError>(e),
            },
    ;
}

/// A value that can be read from the front of a byte string.
pub trait Readable: Sized {
    /// The value that `bytes` start with, or why they hold none. A type
    /// that states no decoding is in no bytes.
    open spec fn decoded(bytes: Seq<u8>) -> Result<Self, SerError> {
        Err(SerError::CorruptedData)
    }

    /// Reads a value from the front of `bytes`; what follows it is ignored.
    fn read(bytes: &[u8]) -> (r: Result<Self, SerError>)
        ensures
            r == Self::decoded(bytes@),
    ;
}

/// The encoding of `value` in a vector of its own.
pub fn ser_vec<W: Writeable>(value: &W) -> (r: Result<Vec<u8>, SerError>)
    ensures
        match value.encoded() {
            Ok(bytes) => r is Ok && r->Ok_0@ == bytes,
            Err(e) => r is Err && r->Err_0 == e,
        },
{
    let mut out: Vec<u8> = Vec::new();
    match value.write(&mut out) {
        Ok(()) => {
            assert(out@ =~= value.encoded()->Ok_0);
            Ok(out)
        },
        Err(e) => Err(e),
    }
}

/// The value that `bytes` start with.
pub fn deserialize<T: Readable>(bytes: &[u8]) -> (r: Result<T, SerError>)
    ensures
        r == T::decoded(bytes@),
{
    T::read(bytes)
}

} // verus!
