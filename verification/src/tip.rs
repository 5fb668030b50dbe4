//! The tip of a fork, and its fixed-size record.

use crate::block::BlockHeader;
use crate::bytes::{
    append, be_bytes, be_value, lemma_be_bytes_of_value, lemma_be_roundtrip, u64_from_be,
    u64_to_be,
};
use crate::error::SerError;
use crate::hash::{self, lemma_from_seq, lemma_from_seq_bytes, Difficulty};
use crate::ser::{Readable, Writeable};
use vstd::prelude::*;
use vstd::slice::slice_subrange;

verus! {

/// The number of bytes of an encoded tip.
pub const TIP_SIZE: usize = 80;

/// The tip of a fork: a handle to the fork's ancestry from its leaf.
/// A tip is a value; a chain that moves on gets a new one.
#[derive(Clone, Copy, Debug, PartialEq, Eq)]
pub struct Tip {
    /// Height of the tip (max height of the fork).
    pub height: u64,
    /// Last block pushed to the fork.
    pub last_block_h: hash::Hash,
    /// Block previous to last.
    pub prev_block_h: hash::Hash,
    /// Total difficulty accumulated on that fork.
    pub total_difficulty: Difficulty,
}

impl Tip {
    /// The tip of the chain that holds the genesis block only.
    pub open spec fn genesis(gbh: hash::Hash) -> Tip {
        Tip { height: 0, last_block_h: gbh, prev_block_h: gbh, total_difficulty: Difficulty { num: 1 } }
    }

    /// The tip that a header makes when it becomes the leaf.
    pub open spec fn of_header(bh: BlockHeader) -> Tip {
        Tip {
            height: bh.height,
            last_block_h: bh.hash,
            prev_block_h: bh.previous,
            total_difficulty: bh.total_difficulty,
        }
    }

    /// The tip's record: height in eight big-endian bytes, the last block's
    /// hash, the previous block's hash, the difficulty in eight big-endian
    /// bytes.
    pub open spec fn encoding(&self) -> Seq<u8> {
        be_bytes(self.height) + self.last_block_h.0@ + self.prev_block_h.0@ + be_bytes(
            self.total_difficulty.num,
        )
    }

    /// The tip that the first 80 bytes of `bytes` are the record of.
    pub open spec fn parsed(bytes: Seq<u8>) -> Tip {
        Tip {
            height: be_value(bytes),
            last_block_h: hash::Hash::from_seq(bytes.subrange(8, 40)),
            prev_block_h: hash::Hash::from_seq(bytes.subrange(40, 72)),
            total_difficulty: Difficulty { num: be_value(bytes.subrange(72, 80)) },
        }
    }

    /// Creates a new tip at height zero and the provided genesis hash.
    pub fn new(gbh: hash::Hash) -> (tip: Tip)
        ensures
            tip == Tip::genesis(gbh),
    {
        Tip {
            height: 0,
            last_block_h: gbh,
            prev_block_h: gbh,
            total_difficulty: Difficulty::one(),
        }
    }

    /// The tip of the fork whose leaf is the block of header `bh`. The
    /// difficulty is taken as the header states it.
    pub fn from_block(bh: &BlockHeader) -> (tip: Tip)
        ensures
            tip == Tip::of_header(*bh),
    {
        Tip {
            height: bh.height,
            last_block_h: bh.hash(),
            prev_block_h: bh.previous,
            total_difficulty: bh.total_difficulty,
        }
    }
}

/// Serialization of a tip, required to save to datastore.
impl Writeable for Tip {
    /// Every tip has a record.
    open spec fn encoded(&self) -> Result<Seq<u8>, SerError> {
        Ok(self.encoding())
    }

    fn write(&self, out: &mut Vec<u8>) -> (r: Result<(), SerError>) {
        let height = u64_to_be(self.height);
        append(out, height.as_slice());
        append(out, self.last_block_h.0.as_slice());
        append(out, self.prev_block_h.0.as_slice());
        let difficulty = u64_to_be(self.total_difficulty.num);
        append(out, difficulty.as_slice());
        assert(out@ =~= old(out)@ + self.encoding());
        Ok(())
    }
}

impl Readable for Tip {
    /// A tip is read from 80 bytes; fewer hold none.
    open spec fn decoded(bytes: Seq<u8>) -> Result<Tip, SerError> {
        if bytes.len() >= 80 {
            Ok(Tip::parsed(bytes))
        } else {
            Err(SerError::UnexpectedEof)
        }
    }

    fn read(bytes: &[u8]) -> (r: Result<Tip, SerError>) {
        if bytes.len() < TIP_SIZE {
            return Err(SerError::UnexpectedEof);
        }
        let height = u64_from_be(bytes);
        let last = hash::Hash::from_slice(slice_subrange(bytes, 8, 40));
        let prev = hash::Hash::from_slice(slice_subrange(bytes, 40, 72));
        let diff = u64_from_be(slice_subrange(bytes, 72, 80));
        assert(bytes@.subrange(8, 40).take(32) =~= bytes@.subrange(8, 40));
        assert(bytes@.subrange(40, 72).take(32) =~= bytes@.subrange(40, 72));
        Ok(
            Tip {
                height: height,
                last_block_h: last,
                prev_block_h: prev,
                total_difficulty: Difficulty::from_num(diff),
            },
        )
    }
}

/// A tip's record has 80 bytes.
pub proof fn lemma_tip_encoding_len(tip: Tip)
    ensures
        tip.encoding().len() == TIP_SIZE,
{
    lemma_be_roundtrip(tip.height);
    lemma_be_roundtrip(tip.total_difficulty.num);
}

/// Reading a tip's record gives the tip back, whatever bytes follow the
/// record.
pub proof fn lemma_tip_record_then_more(tip: Tip, rest: Seq<u8>)
    ensures
        Tip::decoded(tip.encoding() + rest) == Ok::<Tip, SerError>(tip),
{
    let bytes = tip.encoding() + rest;
    lemma_tip_encoding_len(tip);
    lemma_be_roundtrip(tip.height);
    lemma_be_roundtrip(tip.total_difficulty.num);
    assert(bytes.subrange(0, 8) =~= be_bytes(tip.height));
    assert(bytes.subrange(8, 40) =~= tip.last_block_h.0@);
    assert(bytes.subrange(40, 72) =~= tip.prev_block_h.0@);
    assert(bytes.subrange(72, 80) =~= be_bytes(tip.total_difficulty.num));
    assert(be_value(bytes) == be_value(bytes.subrange(0, 8)));
    lemma_from_seq(tip.last_block_h);
    lemma_from_seq(tip.prev_block_h);
    assert(Tip::parsed(bytes) == tip);
}

/// Round trip: encoding a tip and decoding the record gives the tip back.
pub proof fn lemma_tip_roundtrip(tip: Tip)
    ensures
        Tip::decoded(tip.encoding()) == Ok::<Tip, SerError>(tip),
{
    lemma_tip_record_then_more(tip, Seq::empty());
    assert(tip.encoding() + Seq::<u8>::empty() =~= tip.encoding());
}

/// Every 80 bytes are the record of a tip, the one that reading them gives:
/// encoding that tip gives the 80 bytes back.
pub proof fn lemma_tip_record_of_parsed(bytes: Seq<u8>)
    requires
        bytes.len() >= TIP_SIZE,
    ensures
        Tip::parsed(bytes).encoding() == bytes.take(TIP_SIZE as int),
{
    let tip = Tip::parsed(bytes);
    lemma_from_seq_bytes(bytes.subrange(8, 40));
    lemma_from_seq_bytes(bytes.subrange(40, 72));
    lemma_be_bytes_of_value(bytes.subrange(0, 8));
    lemma_be_bytes_of_value(bytes.subrange(72, 80));
    assert(be_value(bytes) == be_value(bytes.subrange(0, 8)));
    assert(tip.encoding() =~= bytes.take(80));
}

/// Reading a tip looks at the first 80 bytes only: cutting the bytes there
/// changes nothing.
pub proof fn lemma_tip_prefix(bytes: Seq<u8>)
    requires
        bytes.len() >= TIP_SIZE,
    ensures
        Tip::decoded(bytes.take(TIP_SIZE as int)) == Tip::decoded(bytes),
{
    let head = bytes.take(80);
    assert(head.subrange(8, 40) =~= bytes.subrange(8, 40));
    assert(head.subrange(40, 72) =~= bytes.subrange(40, 72));
    assert(head.subrange(72, 80) =~= bytes.subrange(72, 80));
}

} // verus!
