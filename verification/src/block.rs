//! Blocks and headers as this layer sees them: what it keys and links them
//! by, and the bytes it stores for them.

use crate::bytes::append;
use crate::error::SerError;
use crate::hash::{self, Difficulty};
use crate::ser::Writeable;
use vstd::prelude::*;

verus! {

/// A block header. Its encoding is made elsewhere and is stored as it
/// comes; this layer reads the fields beside it.
#[derive(Debug, PartialEq, Eq)]
pub struct BlockHeader {
    /// The header's content hash.
    pub hash: hash::Hash,
    /// The height of the block in its chain.
    pub height: u64,
    /// The hash of the header one height below, as this header declares it.
    pub previous: hash::Hash,
    /// The difficulty accumulated up to this block, as validation found it.
    pub total_difficulty: Difficulty,
    /// The header's encoding.
    pub payload: Vec<u8>,
}

impl BlockHeader {
    /// The header's content hash.
    pub fn hash(&self) -> (h: hash::Hash)
        ensures
            h == self.hash,
    {
        self.hash
    }
}

impl Writeable for BlockHeader {
    /// A header is stored as the encoding it came with.
    open spec fn encoded(&self) -> Result<Seq<u8>, SerError> {
        Ok(self.payload@)
    }

    fn write(&self, out: &mut Vec<u8>) -> (r: Result<(), SerError>) {
        append(out, self.payload.as_slice());
        Ok(())
    }
}

/// A block: its header, and the encoding of the whole.
#[derive(Debug, PartialEq, Eq)]
pub struct Block {
    /// The block's header.
    pub header: BlockHeader,
    /// The block's encoding.
    pub payload: Vec<u8>,
}

impl Block {
    /// The block's content hash, which is its header's.
    pub fn hash(&self) -> (h: hash::Hash)
        ensures
            h == self.header.hash,
    {
        self.header.hash
    }
}

impl Writeable for Block {
    /// A block is stored as the encoding it came with.
    open spec fn encoded(&self) -> Result<Seq<u8>, SerError> {
        Ok(self.payload@)
    }

    fn write(&self, out: &mut Vec<u8>) -> (r: Result<(), SerError>) {
        append(out, self.payload.as_slice());
        Ok(())
    }
}

} // verus!
