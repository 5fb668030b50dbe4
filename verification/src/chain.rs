//! The chain state store: blocks and headers by hash, the two head
//! pointers, and the height index with its rule.

use crate::block::{Block, BlockHeader};
use crate::error::{option_to_not_found, Error};
use crate::hash::{self, lemma_from_seq};
use crate::keys::{
    height_key_of, key_of, lemma_height_key_injective, lemma_key_injective, to_key, u64_to_key,
    BLOCK_HEADER_PREFIX, BLOCK_PREFIX, HEADER_HEAD_PREFIX, HEADER_HEIGHT_PREFIX, HEAD_PREFIX,
};
use crate::ser::Readable;
use crate::store::{bytes_of, required, required_bytes, Store};
use crate::tip::{lemma_tip_roundtrip, Tip};
use vstd::prelude::*;

verus! {

/// The key of the head pointer.
pub open spec fn head_key() -> Seq<u8> {
    key_of(HEAD_PREFIX, Seq::empty())
}

/// The key of the header-head pointer.
pub open spec fn header_head_key() -> Seq<u8> {
    key_of(HEADER_HEAD_PREFIX, Seq::empty())
}

/// The key of the block with hash `h`.
pub open spec fn block_key(h: hash::Hash) -> Seq<u8> {
    key_of(BLOCK_PREFIX, h.0@)
}

/// The key of the header with hash `h`.
pub open spec fn header_key(h: hash::Hash) -> Seq<u8> {
    key_of(BLOCK_HEADER_PREFIX, h.0@)
}

/// The key of the height index's entry for `height`.
pub open spec fn height_key(height: u64) -> Seq<u8> {
    height_key_of(HEADER_HEIGHT_PREFIX, height)
}

/// The rule of the height index: a header may be entered at its height if
/// the entry one height below is its declared predecessor. No entry below
/// is `NotFoundErr`, another header below is `HeightErr`. Height zero has
/// nothing below it.
pub open spec fn link_check(m: Map<Seq<u8>, Seq<u8>>, bh: BlockHeader) -> Result<(), Error> {
    if bh.height == 0 {
        Ok(())
    } else {
        match required::<hash::Hash>(m, height_key((bh.height - 1) as u64)) {
            Ok(below) => if below == bh.previous {
                Ok(())
            } else {
                Err(Error::HeightErr)
            },
            Err(e) => Err(e),
        }
    }
}

/// The hash entered in the height index at `height`, if there is one.
pub open spec fn indexed(m: Map<Seq<u8>, Seq<u8>>, height: u64) -> Option<hash::Hash> {
    match required::<hash::Hash>(m, height_key(height)) {
        Ok(h) => Some(h),
        Err(_) => None,
    }
}

/// Up to the height `top` the index describes one chain: every height from
/// 1 to `top` has an entry, and so has the height below it, and the header
/// entered declares the one below as its predecessor. `previous_of` holds
/// the predecessor that each header declares, by the header's hash.
pub open spec fn one_chain(
    m: Map<Seq<u8>, Seq<u8>>,
    previous_of: Map<hash::Hash, hash::Hash>,
    top: u64,
) -> bool {
    forall|h: u64|
        0 < h <= top ==> {
            &&& (#[trigger] indexed(m, h)) is Some
            &&& indexed(m, (h - 1) as u64) is Some
            &&& previous_of.contains_key(indexed(m, h)->Some_0)
            &&& previous_of[indexed(m, h)->Some_0] == indexed(m, (h - 1) as u64)->Some_0
        }
}

/// Whether `bh` may follow the header `below`, which is indexed one height
/// under it.
pub fn check_link(bh: &BlockHeader, below: &hash::Hash) -> (r: Result<(), Error>)
    ensures
        r == (if *below == bh.previous {
            Ok::<(), Error>(())
        } else {
            Err::<(), Error>(Error::HeightErr)
        }),
{
    if below.same(&bh.previous) {
        Ok(())
    } else {
        Err(Error::HeightErr)
    }
}

/// The storage engine failed: a fault of the disk or of the engine, which
/// no rule of this layer decides.
pub open spec fn engine_failed<T>(r: Result<T, Error>) -> bool {
    r matches Err(Error::RocksDbErr(_))
}

/// Trait the chain pipeline requires an implementor for in order to process
/// blocks. Every method says what it reads in the stored bytes, or how it
/// changes them; an engine that fails changes nothing.
pub trait ChainStore: Send + Sync {
    /// The stored bytes, by key. An implementor says where they are; one
    /// that does not has none.
    open spec fn contents(&self) -> Map<Seq<u8>, Seq<u8>> {
        Map::empty()
    }

    /// Get the tip that's also the head of the chain. `NotFoundErr` before
    /// a head was saved.
    fn head(&self) -> (r: Result<Tip, Error>)
        ensures
            engine_failed(r) || r == required::<Tip>(self.contents(), head_key()),
    ;

    /// Block header for the chain head: the stored bytes of the header that
    /// the head names as its last.
    fn head_header(&self) -> (r: Result<Vec<u8>, Error>)
        ensures
            engine_failed(r) || bytes_of(r) == match required::<Tip>(self.contents(), head_key()) {
                Ok(tip) => required_bytes(self.contents(), header_key(tip.last_block_h)),
                Err(e) => Err(e),
            },
    ;

    /// Save the provided tip as the current head of our chain, whatever the
    /// head was.
    fn save_head(&mut self, t: &Tip) -> (r: Result<(), Error>)
        ensures
            r is Ok ==> final(self).contents() == old(self).contents().insert(
                head_key(),
                t.encoding(),
            ),
            r is Err ==> engine_failed(r) && final(self).contents() == old(self).contents(),
    ;

    /// Gets a block by hash: its stored bytes, `NotFoundErr` where there
    /// are none.
    fn get_block(&self, h: &hash::Hash) -> (r: Result<Vec<u8>, Error>)
        ensures
            engine_failed(r) || bytes_of(r) == required_bytes(self.contents(), block_key(*h)),
    ;

    /// Gets a block header by hash: its stored bytes, `NotFoundErr` where
    /// there are none.
    fn get_block_header(&self, h: &hash::Hash) -> (r: Result<Vec<u8>, Error>)
        ensures
            engine_failed(r) || bytes_of(r) == required_bytes(self.contents(), header_key(*h)),
    ;

    /// Save the provided block in store, under its hash.
    fn save_block(&mut self, b: &Block) -> (r: Result<(), Error>)
        ensures
            r is Ok ==> final(self).contents() == old(self).contents().insert(
                block_key(b.header.hash),
                b.payload@,
            ),
            r is Err ==> engine_failed(r) && final(self).contents() == old(self).contents(),
    ;

    /// Save the provided block header in store, under its hash.
    fn save_block_header(&mut self, bh: &BlockHeader) -> (r: Result<(), Error>)
        ensures
            r is Ok ==> final(self).contents() == old(self).contents().insert(
                header_key(bh.hash),
                bh.payload@,
            ),
            r is Err ==> engine_failed(r) && final(self).contents() == old(self).contents(),
    ;

    /// Get the tip of the header chain. `NotFoundErr` before a header head
    /// was saved.
    fn get_header_head(&self) -> (r: Result<Tip, Error>)
        ensures
            engine_failed(r) || r == required::<Tip>(self.contents(), header_head_key()),
    ;

    /// Save the provided tip as the current head of the block header
    /// chain, whatever that head was.
    fn save_header_head(&mut self, t: &Tip) -> (r: Result<(), Error>)
        ensures
            r is Ok ==> final(self).contents() == old(self).contents().insert(
                header_head_key(),
                t.encoding(),
            ),
            r is Err ==> engine_failed(r) && final(self).contents() == old(self).contents(),
    ;

    /// Gets the hash of the header indexed at the provided height,
    /// `NotFoundErr` where the index has no entry there.
    fn get_header_by_height(&self, height: u64) -> (r: Result<hash::Hash, Error>)
        ensures
            engine_failed(r) || r == required::<hash::Hash>(self.contents(), height_key(height)),
    ;

    /// Saves the provided block header at the corresponding height, if the
    /// height index allows it: see `link_check`. A header that the index
    /// refuses is refused with the error of `link_check`, and a header that
    /// is not entered changes nothing.
    fn setup_height(&mut self, bh: &BlockHeader) -> (r: Result<(), Error>)
        ensures
            r is Ok ==> link_check(old(self).contents(), *bh) is Ok && final(self).contents()
                == old(self).contents().insert(height_key(bh.height), bh.hash.0@),
            r is Err ==> final(self).contents() == old(self).contents() && (engine_failed(r) || r
                == link_check(old(self).contents(), *bh)),
    ;
}

/// The chain store over a key/value store.
pub struct ChainKVStore {
    db: Store,
}

impl ChainKVStore {
    /// The chain store that keeps its records in `db`.
    pub fn new(db: Store) -> (store: ChainKVStore)
        ensures
            store.contents() == db@,
    {
        ChainKVStore { db }
    }

    /// Gives the key/value store back.
    pub fn into_store(self) -> (db: Store)
        ensures
            db@ == self.contents(),
    {
        self.db
    }

    /// Gets the tip under `key`, which must be there.
    fn require_tip(&self, key: &[u8]) -> (r: Result<Tip, Error>)
        ensures
            r == required::<Tip>(self.db@, key@),
    {
        option_to_not_found(self.db.get_ser(key))
    }
}

/// The key of a singleton record: prefix and separator, no identifier.
pub fn pointer_key(prefix: u8) -> (key: Vec<u8>)
    ensures
        key@ == key_of(prefix, Seq::empty()),
{
    let mut key: Vec<u8> = Vec::new();
    to_key(prefix, &mut key);
    key
}

/// The key of the record of kind `prefix` for the hash `h`.
pub fn hash_key(prefix: u8, h: &hash::Hash) -> (key: Vec<u8>)
    ensures
        key@ == key_of(prefix, h.0@),
{
    let mut key = h.to_vec();
    to_key(prefix, &mut key);
    key
}

/// Over a key/value store that does not fail, every lookup answers from
/// the contents alone, every save succeeds, and a header is refused by the
/// rule of the height index alone.
impl ChainStore for ChainKVStore {
    closed spec fn contents(&self) -> Map<Seq<u8>, Seq<u8>> {
        self.db@
    }

    fn head(&self) -> (r: Result<Tip, Error>)
        ensures
            r == required::<Tip>(self.contents(), head_key()),
    {
        self.require_tip(pointer_key(HEAD_PREFIX).as_slice())
    }

    fn head_header(&self) -> (r: Result<Vec<u8>, Error>)
        ensures
            bytes_of(r) == match required::<Tip>(self.contents(), head_key()) {
                Ok(tip) => required_bytes(self.contents(), header_key(tip.last_block_h)),
                Err(e) => Err(e),
            },
    {
        match self.head() {
            Ok(tip) => self.get_block_header(&tip.last_block_h),
            Err(e) => Err(e),
        }
    }

    fn save_head(&mut self, t: &Tip) -> (r: Result<(), Error>)
        ensures
            r is Ok,
    {
        self.db.put_ser(pointer_key(HEAD_PREFIX).as_slice(), t)
    }

    fn get_block(&self, h: &hash::Hash) -> (r: Result<Vec<u8>, Error>)
        ensures
            bytes_of(r) == required_bytes(self.contents(), block_key(*h)),
    {
        self.db.require(hash_key(BLOCK_PREFIX, h).as_slice())
    }

    fn get_block_header(&self, h: &hash::Hash) -> (r: Result<Vec<u8>, Error>)
        ensures
            bytes_of(r) == required_bytes(self.contents(), header_key(*h)),
    {
        self.db.require(hash_key(BLOCK_HEADER_PREFIX, h).as_slice())
    }

    fn save_block(&mut self, b: &Block) -> (r: Result<(), Error>)
        ensures
            r is Ok,
    {
        self.db.put_ser(hash_key(BLOCK_PREFIX, &b.hash()).as_slice(), b)
    }

    fn save_block_header(&mut self, bh: &BlockHeader) -> (r: Result<(), Error>)
        ensures
            r is Ok,
    {
        self.db.put_ser(hash_key(BLOCK_HEADER_PREFIX, &bh.hash()).as_slice(), bh)
    }

    fn get_header_head(&self) -> (r: Result<Tip, Error>)
        ensures
            r == required::<Tip>(self.contents(), header_head_key()),
    {
        self.require_tip(pointer_key(HEADER_HEAD_PREFIX).as_slice())
    }

    fn save_header_head(&mut self, t: &Tip) -> (r: Result<(), Error>)
        ensures
            r is Ok,
    {
        self.db.put_ser(pointer_key(HEADER_HEAD_PREFIX).as_slice(), t)
    }

    fn get_header_by_height(&self, height: u64) -> (r: Result<hash::Hash, Error>)
        ensures
            r == required::<hash::Hash>(self.contents(), height_key(height)),
    {
        option_to_not_found(
            self.db.get_ser(u64_to_key(HEADER_HEIGHT_PREFIX, height).as_slice()),
        )
    }

    fn setup_height(&mut self, bh: &BlockHeader) -> (r: Result<(), Error>)
        ensures
            r == link_check(old(self).contents(), *bh),
    {
        if bh.height > 0 {
            match self.get_header_by_height(bh.height - 1) {
                Ok(below) => {
                    match check_link(bh, &below) {
                        Ok(()) => {},
                        Err(e) => {
                            return Err(e);
                        },
                    }
                },
                Err(e) => {
                    return Err(e);
                },
            }
        }
        match self.db.put_ser(u64_to_key(HEADER_HEIGHT_PREFIX, bh.height).as_slice(), &bh.hash()) {
            Ok(()) => Ok(()),
            Err(e) => Err(e),
        }
    }
}

/// Bridge between the chain pipeline and the rest of the system. Handles
/// downstream processing of valid blocks by the rest of the system, most
/// importantly the broadcasting of blocks to our peers.
pub trait ChainAdapter {
    /// The blockchain pipeline has accepted this block as valid and added
    /// it to our chain.
    fn block_accepted(&self, b: &Block);
}

/// The adapter for a chain that nothing listens to.
pub struct NoopAdapter {}

impl ChainAdapter for NoopAdapter {
    fn block_accepted(&self, b: &Block) {
    }
}

/// A tip that was saved under a pointer's key is what a lookup under that
/// key gives, whatever else the store holds.
pub proof fn lemma_saved_tip_is_read(m: Map<Seq<u8>, Seq<u8>>, key: Seq<u8>, tip: Tip)
    ensures
        required::<Tip>(m.insert(key, tip.encoding()), key) == Ok::<Tip, Error>(tip),
{
    lemma_tip_roundtrip(tip);
}

/// A write under one key changes no lookup under another.
pub proof fn lemma_other_key_unchanged<T: Readable>(
    m: Map<Seq<u8>, Seq<u8>>,
    written: Seq<u8>,
    value: Seq<u8>,
    read: Seq<u8>,
)
    requires
        written != read,
    ensures
        required::<T>(m.insert(written, value), read) == required::<T>(m, read),
        required_bytes(m.insert(written, value), read) == required_bytes(m, read),
{
}

/// The five kinds of keys are apart: the two pointers differ from each
/// other and from every block, header and height key, and those differ
/// from kind to kind; within a kind, keys differ as their hashes or
/// heights do.
pub proof fn lemma_keys_apart(h1: hash::Hash, h2: hash::Hash, a: u64, b: u64)
    ensures
        head_key() != header_head_key(),
        head_key() != block_key(h1) && head_key() != header_key(h1) && head_key() != height_key(a),
        header_head_key() != block_key(h1) && header_head_key() != header_key(h1)
            && header_head_key() != height_key(a),
        block_key(h1) != header_key(h2) && block_key(h1) != height_key(a),
        header_key(h1) != height_key(a),
        block_key(h1) == block_key(h2) <==> h1 == h2,
        header_key(h1) == header_key(h2) <==> h1 == h2,
        height_key(a) == height_key(b) <==> a == b,
{
    let none = Seq::<u8>::empty();
    assert(head_key()[0] == HEAD_PREFIX);
    assert(header_head_key()[0] == HEADER_HEAD_PREFIX);
    assert(block_key(h1)[0] == BLOCK_PREFIX);
    assert(header_key(h1)[0] == BLOCK_HEADER_PREFIX);
    assert(header_key(h2)[0] == BLOCK_HEADER_PREFIX);
    assert(height_key(a)[0] == HEADER_HEIGHT_PREFIX);
    if block_key(h1) == block_key(h2) {
        lemma_key_injective(BLOCK_PREFIX, h1.0@, BLOCK_PREFIX, h2.0@);
        hash::lemma_hash_by_bytes(h1, h2);
    }
    if header_key(h1) == header_key(h2) {
        lemma_key_injective(BLOCK_HEADER_PREFIX, h1.0@, BLOCK_HEADER_PREFIX, h2.0@);
        hash::lemma_hash_by_bytes(h1, h2);
    }
    if height_key(a) == height_key(b) {
        lemma_height_key_injective(HEADER_HEIGHT_PREFIX, a, HEADER_HEIGHT_PREFIX, b);
    }
}

/// The two head pointers are independent: saving a tip as one of them is
/// read back from that one and leaves the other as it was.
pub proof fn lemma_heads_independent(m: Map<Seq<u8>, Seq<u8>>, tip: Tip)
    ensures
        required::<Tip>(m.insert(head_key(), tip.encoding()), head_key()) == Ok::<Tip, Error>(tip),
        required::<Tip>(m.insert(head_key(), tip.encoding()), header_head_key()) == required::<Tip>(
            m,
            header_head_key(),
        ),
        required::<Tip>(m.insert(header_head_key(), tip.encoding()), header_head_key()) == Ok::<
            Tip,
            Error,
        >(tip),
        required::<Tip>(m.insert(header_head_key(), tip.encoding()), head_key()) == required::<Tip>(
            m,
            head_key(),
        ),
{
    lemma_saved_tip_is_read(m, head_key(), tip);
    lemma_saved_tip_is_read(m, header_head_key(), tip);
    lemma_keys_apart(tip.last_block_h, tip.last_block_h, 0, 0);
}

/// A hash that was entered in the height index is what a lookup at that
/// height gives.
pub proof fn lemma_indexed_hash_is_read(m: Map<Seq<u8>, Seq<u8>>, height: u64, h: hash::Hash)
    ensures
        required::<hash::Hash>(m.insert(height_key(height), h.0@), height_key(height)) == Ok::<
            hash::Hash,
            Error,
        >(h),
{
    hash::lemma_hash_by_bytes(h, h);
    assert(h.0@.take(32) =~= h.0@);
    lemma_from_seq(h);
}

/// The order of the height index. Let the header with hash `below` be
/// indexed one height under `bh`. Then `bh` is accepted if and only if it
/// declares `below` as its predecessor, and is refused with `HeightErr`
/// otherwise; once it is accepted, a lookup at its height gives its hash.
/// With no entry one height under it, `bh` is refused with `NotFoundErr`.
pub proof fn lemma_index_order(m: Map<Seq<u8>, Seq<u8>>, bh: BlockHeader, below: hash::Hash)
    requires
        bh.height > 0,
    ensures
        m.get(height_key((bh.height - 1) as u64)) == Some(below.0@) ==> link_check(m, bh) == (
        if bh.previous == below {
            Ok::<(), Error>(())
        } else {
            Err::<(), Error>(Error::HeightErr)
        }),
        !m.contains_key(height_key((bh.height - 1) as u64)) ==> link_check(m, bh) == Err::<
            (),
            Error,
        >(Error::NotFoundErr),
        required::<hash::Hash>(m.insert(height_key(bh.height), bh.hash.0@), height_key(bh.height))
            == Ok::<hash::Hash, Error>(bh.hash),
{
    let under = height_key((bh.height - 1) as u64);
    if m.get(under) == Some(below.0@) {
        lemma_indexed_hash_is_read(m, (bh.height - 1) as u64, below);
        assert(m.insert(under, below.0@).get(under) == m.get(under));
    }
    lemma_indexed_hash_is_read(m, bh.height, bh.hash);
}

/// Entering a header at its height leaves every other height of the index
/// as it was.
pub proof fn lemma_index_other_heights(
    m: Map<Seq<u8>, Seq<u8>>,
    height: u64,
    h: hash::Hash,
    other: u64,
)
    requires
        other != height,
    ensures
        required::<hash::Hash>(m.insert(height_key(height), h.0@), height_key(other)) == required::<
            hash::Hash,
        >(m, height_key(other)),
{
    lemma_keys_apart(h, h, height, other);
}

/// Saving a record twice is saving it once.
pub proof fn lemma_save_idempotent(m: Map<Seq<u8>, Seq<u8>>, key: Seq<u8>, value: Seq<u8>)
    ensures
        m.insert(key, value).insert(key, value) == m.insert(key, value),
{
    assert(m.insert(key, value).insert(key, value) =~= m.insert(key, value));
}

/// The height index stays one chain. Let the index describe one chain up
/// to the height under `bh`, and let it accept `bh`. Then it describes one
/// chain up to the height of `bh`, with `bh` as that chain's leaf. A hash
/// names one header: if `previous_of` knows the hash of `bh`, it knows it
/// with the predecessor that `bh` declares.
pub proof fn lemma_index_stays_one_chain(
    m: Map<Seq<u8>, Seq<u8>>,
    previous_of: Map<hash::Hash, hash::Hash>,
    bh: BlockHeader,
)
    requires
        bh.height > 0 ==> one_chain(m, previous_of, (bh.height - 1) as u64),
        link_check(m, bh) is Ok,
        previous_of.contains_key(bh.hash) ==> previous_of[bh.hash] == bh.previous,
    ensures
        one_chain(
            m.insert(height_key(bh.height), bh.hash.0@),
            previous_of.insert(bh.hash, bh.previous),
            bh.height,
        ),
        indexed(m.insert(height_key(bh.height), bh.hash.0@), bh.height) == Some(bh.hash),
{
    let after = m.insert(height_key(bh.height), bh.hash.0@);
    let known = previous_of.insert(bh.hash, bh.previous);
    lemma_indexed_hash_is_read(m, bh.height, bh.hash);
    assert forall|h: u64| 0 < h <= bh.height implies {
        &&& (#[trigger] indexed(after, h)) is Some
        &&& indexed(after, (h - 1) as u64) is Some
        &&& known.contains_key(indexed(after, h)->Some_0)
        &&& known[indexed(after, h)->Some_0] == indexed(after, (h - 1) as u64)->Some_0
    } by {
        let under = (h - 1) as u64;
        lemma_index_other_heights(m, bh.height, bh.hash, under);
        assert(indexed(after, under) == indexed(m, under));
        if h < bh.height {
            lemma_index_other_heights(m, bh.height, bh.hash, h);
            assert(indexed(after, h) == indexed(m, h));
            assert(indexed(m, h) is Some);
        }
    }
}

} // verus!
