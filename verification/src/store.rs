//! The storage engine: a key/value store with plain and encoding-aware
//! access, and batches of writes that become visible together. A batch
//! holds its store from the moment it is made until it is written or
//! dropped, so nothing sees the store between two of its writes.
//!
//! `Store` holds its entries in memory. An engine that keeps them on disk
//! belongs to the program around this library, which reads and writes there
//! and uses the functions of this module for everything between.

use crate::error::{option_to_not_found, Error, SerError};
use crate::kv::{
    apply_writes, has_key, last_write, lemma_apply_writes_dom, lemma_apply_writes_last,
    lemma_apply_writes_push, lemma_remove_write, lemma_replace_write,
};
use crate::bytes::same_bytes;
use crate::ser::{ser_vec, Readable, Writeable};
use vstd::prelude::*;
use vstd::slice::{slice_subrange, slice_to_vec};

verus! {

/// How the engine on disk is to be opened. The choices are fixed.
#[derive(Clone, Copy, Debug, PartialEq, Eq, Structural)]
pub struct OpenOptions {
    /// A store that is not there yet is created.
    pub create_if_missing: bool,
    /// Compaction suited to many small writes, at the cost of space.
    pub universal_compaction: bool,
    /// The most files that the engine keeps open at a time.
    pub max_open_files: i32,
    /// Whether every write is forced to disk before it returns.
    pub use_fsync: bool,
}

/// The view of stored bytes that an optional value gives.
pub open spec fn opt_bytes(data: Option<Vec<u8>>) -> Option<Seq<u8>> {
    match data {
        Some(v) => Some(v@),
        None => None,
    }
}

/// What reading a `T` from an entry gives: nothing where there is no
/// entry; else the value at the front of the entry's bytes, or of their
/// first `len` bytes where `len` is not zero. An entry shorter than `len`
/// holds no such value.
pub open spec fn decode_entry<T: Readable>(data: Option<Seq<u8>>, len: usize) -> Result<
    Option<T>,
    Error,
> {
    match data {
        None => Ok(None),
        Some(val) => if len > val.len() {
            Err(Error::SerErr(SerError::UnexpectedEof))
        } else {
            match T::decoded(if len > 0 { val.take(len as int) } else { val }) {
                Ok(t) => Ok(Some(t)),
                Err(e) => Err(Error::SerErr(e)),
            }
        },
    }
}

/// The bytes of a lookup's answer.
pub open spec fn bytes_of(r: Result<Vec<u8>, Error>) -> Result<Seq<u8>, Error> {
    match r {
        Ok(v) => Ok(v@),
        Err(e) => Err(e),
    }
}

/// What a lookup answers that needs its entry to be there: the bytes under
/// `key`, or `NotFoundErr`.
pub open spec fn required_bytes(m: Map<Seq<u8>, Seq<u8>>, key: Seq<u8>) -> Result<Seq<u8>, Error> {
    if m.contains_key(key) {
        Ok(m[key])
    } else {
        Err(Error::NotFoundErr)
    }
}

/// What a decoding lookup answers that needs its entry to be there: the
/// value under `key`, `NotFoundErr` where there is none, `SerErr` where the
/// bytes hold no value.
pub open spec fn required<T: Readable>(m: Map<Seq<u8>, Seq<u8>>, key: Seq<u8>) -> Result<T, Error> {
    match decode_entry::<T>(m.get(key), 0) {
        Ok(None) => Err(Error::NotFoundErr),
        Ok(Some(t)) => Ok(t),
        Err(e) => Err(e),
    }
}

/// Reads a `T` from what a lookup returned, looking at the first `len`
/// bytes only where `len` is not zero.
pub fn decode_limited<T: Readable>(data: Option<Vec<u8>>, len: usize) -> (r: Result<
    Option<T>,
    Error,
>)
    ensures
        r == decode_entry::<T>(opt_bytes(data), len),
{
    match data {
        Some(val) => {
            if len > val.len() {
                return Err(Error::SerErr(SerError::UnexpectedEof));
            }
            let read = if len > 0 {
                let lval = slice_subrange(val.as_slice(), 0, len);
                assert(lval@ =~= val@.take(len as int));
                T::read(lval)
            } else {
                T::read(val.as_slice())
            };
            match read {
                Ok(t) => Ok(Some(t)),
                Err(e) => Err(Error::SerErr(e)),
            }
        },
        None => Ok(None),
    }
}

/// A key/value store.
pub struct Store {
    /// The entries, in the order of their first writing. A key's value is in
    /// the last entry that has the key.
    entries: Vec<(Vec<u8>, Vec<u8>)>,
}

/// The pairs of byte strings that a vector of entries holds.
pub open spec fn pairs_of(entries: Seq<(Vec<u8>, Vec<u8>)>) -> Seq<(Seq<u8>, Seq<u8>)> {
    Seq::new(entries.len(), |i: int| (entries[i].0@, entries[i].1@))
}

impl View for Store {
    type V = Map<Seq<u8>, Seq<u8>>;

    /// The store's contents: each key with its value.
    closed spec fn view(&self) -> Map<Seq<u8>, Seq<u8>> {
        apply_writes(Map::empty(), pairs_of(self.entries@))
    }
}

impl Store {
    /// The fixed choices for an engine on disk: create what is missing,
    /// compact for many small writes, keep at most 256 files open, and
    /// leave it to the system when a write reaches the disk.
    pub fn open_options() -> (o: OpenOptions)
        ensures
            o == (OpenOptions {
                create_if_missing: true,
                universal_compaction: true,
                max_open_files: 256,
                use_fsync: false,
            }),
    {
        OpenOptions {
            create_if_missing: true,
            universal_compaction: true,
            max_open_files: 256,
            use_fsync: false,
        }
    }

    /// A store that holds nothing.
    pub fn new() -> (store: Store)
        ensures
            store@ == Map::<Seq<u8>, Seq<u8>>::empty(),
    {
        let store = Store { entries: Vec::new() };
        assert(pairs_of(store.entries@) =~= Seq::empty());
        store
    }

    /// Where the last entry of `key` stands, if there is one.
    fn find_last(&self, key: &[u8]) -> (at: Option<usize>)
        ensures
            match at {
                Some(i) => last_write(pairs_of(self.entries@), key@, i as int),
                None => !has_key(pairs_of(self.entries@), key@),
            },
    {
        let ghost p = pairs_of(self.entries@);
        let mut i: usize = self.entries.len();
        while i > 0
            invariant
                i <= self.entries@.len(),
                p == pairs_of(self.entries@),
                forall|j: int| i <= j < p.len() ==> (#[trigger] p[j]).0 != key@,
            decreases i,
        {
            i -= 1;
            if same_bytes(self.entries[i].0.as_slice(), key) {
                assert(p[i as int].0 == key@);
                return Some(i);
            }
            assert(p[i as int].0 != key@);
        }
        None
    }

    /// Gets a value from the store, provided its key. That the key is
    /// absent is an answer, not a failure.
    pub fn get(&self, key: &[u8]) -> (r: Result<Option<Vec<u8>>, Error>)
        ensures
            r is Ok,
            opt_bytes(r->Ok_0) == self@.get(key@),
    {
        let ghost p = pairs_of(self.entries@);
        match self.find_last(key) {
            Some(i) => {
                let value = slice_to_vec(self.entries[i].1.as_slice());
                proof {
                    lemma_apply_writes_last(Map::empty(), p, key@, i as int);
                }
                Ok(Some(value))
            },
            None => {
                proof {
                    lemma_apply_writes_dom(Map::empty(), p, key@);
                }
                Ok(None)
            },
        }
    }

    /// Gets the value of a key that must be there: that the key is absent
    /// is `NotFoundErr`.
    pub fn require(&self, key: &[u8]) -> (r: Result<Vec<u8>, Error>)
        ensures
            bytes_of(r) == required_bytes(self@, key@),
    {
        option_to_not_found(self.get(key))
    }

    /// Writes a single key/value pair to the store.
    pub fn put(&mut self, key: &[u8], value: Vec<u8>) -> (r: Result<(), Error>)
        ensures
            r is Ok,
            final(self)@ == old(self)@.insert(key@, value@),
    {
        let ghost p = pairs_of(self.entries@);
        let entry = (slice_to_vec(key), value);
        match self.find_last(key) {
            Some(i) => {
                self.entries[i] = entry;
                proof {
                    assert(pairs_of(self.entries@) =~= p.update(i as int, (key@, value@)));
                    lemma_replace_write(Map::empty(), p, i as int, value@);
                }
            },
            None => {
                self.entries.push(entry);
                proof {
                    assert(pairs_of(self.entries@) =~= p.push((key@, value@)));
                    lemma_apply_writes_push(Map::empty(), p, key@, value@);
                }
            },
        }
        Ok(())
    }

    /// Deletes a key/value pair from the store. Deleting what is not there
    /// is no failure.
    pub fn delete(&mut self, key: &[u8]) -> (r: Result<(), Error>)
        ensures
            r is Ok,
            final(self)@ == old(self)@.remove(key@),
    {
        loop
            invariant
                forall|x: Seq<u8>| x != key@ ==> self@.get(x) == old(self)@.get(x),
            decreases self.entries@.len(),
        {
            let ghost p = pairs_of(self.entries@);
            match self.find_last(key) {
                Some(i) => {
                    self.entries.remove(i);
                    proof {
                        assert(pairs_of(self.entries@) =~= p.remove(i as int));
                        lemma_remove_write(Map::empty(), p, i as int);
                    }
                },
                None => {
                    proof {
                        lemma_apply_writes_dom(Map::empty(), p, key@);
                        let gone = old(self)@.remove(key@);
                        assert(!self@.contains_key(key@));
                        assert forall|x: Seq<u8>| #[trigger]
                            self@.dom().contains(x) == gone.dom().contains(x) && (
                            self@.dom().contains(x) ==> self@[x] == gone[x]) by {
                            if x != key@ {
                                assert(self@.get(x) == old(self)@.get(x));
                            }
                        }
                        assert(self@ =~= gone);
                    }
                    return Ok(());
                },
            }
        }
    }

    /// Writes a single key and the encoding of its value to the store. A
    /// value that has no encoding leaves the store as it was.
    pub fn put_ser<W: Writeable>(&mut self, key: &[u8], value: &W) -> (r: Result<(), Error>)
        ensures
            match value.encoded() {
                Ok(bytes) => r is Ok && final(self)@ == old(self)@.insert(key@, bytes),
                Err(e) => r == Err::<(), Error>(Error::SerErr(e)) && final(self)@ == old(self)@,
            },
    {
        let ser_value = ser_vec(value);
        match ser_value {
            Ok(data) => self.put(key, data),
            Err(err) => Err(Error::SerErr(err)),
        }
    }

    /// Gets a value from the store, provided its key, and decodes it.
    pub fn get_ser<T: Readable>(&self, key: &[u8]) -> (r: Result<Option<T>, Error>)
        ensures
            r == decode_entry::<T>(self@.get(key@), 0),
    {
        self.get_ser_limited(key, 0)
    }

    /// Gets a value from the store, provided its key, and decodes the first
    /// `len` bytes of it, or all of it where `len` is zero. This is for
    /// values whose record has a fixed size of `len` bytes at its front.
    pub fn get_ser_limited<T: Readable>(&self, key: &[u8], len: usize) -> (r: Result<
        Option<T>,
        Error,
    >)
        ensures
            r == decode_entry::<T>(self@.get(key@), len),
    {
        match self.get(key) {
            Ok(data) => decode_limited(data, len),
            Err(e) => Err(e),
        }
    }

    /// Builds a new batch to be used with this store. The batch holds no
    /// write yet and is bound to this store, which it keeps to itself
    /// until it is written or dropped: what becomes of the batch's store is
    /// what becomes of this one.
    pub fn batch(&mut self) -> (batch: Batch<'_>)
        ensures
            batch@ == Seq::<(Seq<u8>, Seq<u8>)>::empty(),
            *batch.store() == *old(self),
            *final(batch.store()) == *final(self),
    {
        let batch = Batch { store: self, writes: Vec::new() };
        assert(pairs_of(batch.writes@) =~= Seq::empty());
        batch
    }

    /// Applies writes, front to back.
    fn write(&mut self, writes: &Vec<(Vec<u8>, Vec<u8>)>) -> (r: Result<(), Error>)
        ensures
            r is Ok,
            final(self)@ == apply_writes(old(self)@, pairs_of(writes@)),
    {
        let ghost w = pairs_of(writes@);
        let mut i: usize = 0;
        assert(w.take(0) =~= Seq::empty());
        while i < writes.len()
            invariant
                i <= writes@.len(),
                w == pairs_of(writes@),
                self@ == apply_writes(old(self)@, w.take(i as int)),
            decreases writes@.len() - i,
        {
            let value = slice_to_vec(writes[i].1.as_slice());
            let _ = self.put(writes[i].0.as_slice(), value);
            proof {
                assert(w.take(i + 1) =~= w.take(i as int).push(w[i as int]));
                lemma_apply_writes_push(old(self)@, w.take(i as int), w[i as int].0, w[i as int].1);
            }
            i += 1;
        }
        assert(w.take(i as int) =~= w);
        Ok(())
    }
}

/// What was put under a key is what a lookup of that key gives, byte for
/// byte, whatever bytes key and value hold; under every other key the
/// lookup gives what it gave before.
pub proof fn lemma_put_then_get(
    m: Map<Seq<u8>, Seq<u8>>,
    key: Seq<u8>,
    value: Seq<u8>,
    other: Seq<u8>,
)
    ensures
        m.insert(key, value).get(key) == Some(value),
        other != key ==> m.insert(key, value).get(other) == m.get(other),
{
}

/// A key that is not there is absent for a plain lookup and for a decoding
/// one alike: neither fails.
pub proof fn lemma_absent_is_no_failure<T: Readable>(
    m: Map<Seq<u8>, Seq<u8>>,
    key: Seq<u8>,
    len: usize,
)
    requires
        !m.contains_key(key),
    ensures
        m.get(key) == None::<Seq<u8>>,
        decode_entry::<T>(m.get(key), len) == Ok::<Option<T>, Error>(None),
{
}

/// A key that was deleted is absent, and every other key is as it was.
pub proof fn lemma_delete_then_get(m: Map<Seq<u8>, Seq<u8>>, key: Seq<u8>, other: Seq<u8>)
    ensures
        m.remove(key).get(key) == None::<Seq<u8>>,
        other != key ==> m.remove(key).get(other) == m.get(other),
{
}

/// Batch to write multiple values to a store in an atomic manner: the
/// writes are staged here and reach the store together, or not at all.
/// A batch is bound to the store that made it, and nothing else reaches
/// that store while the batch lives.
pub struct Batch<'a> {
    store: &'a mut Store,
    writes: Vec<(Vec<u8>, Vec<u8>)>,
}

impl<'a> View for Batch<'a> {
    type V = Seq<(Seq<u8>, Seq<u8>)>;

    /// The staged writes, first to last.
    closed spec fn view(&self) -> Seq<(Seq<u8>, Seq<u8>)> {
        pairs_of(self.writes@)
    }
}

impl<'a> Batch<'a> {
    /// The store that the batch is bound to.
    pub closed spec fn store(self) -> &'a mut Store {
        self.store
    }

    /// Stages a single key and the encoding of its value, for the same
    /// store. The store is not touched: `write` commits. A value without
    /// encoding ends the batch, and the store is left as it was.
    pub fn put_ser<W: Writeable>(self, key: &[u8], value: &W) -> (r: Result<Batch<'a>, Error>)
        ensures
            match value.encoded() {
                Ok(bytes) => r is Ok && r->Ok_0@ == self@.push((key@, bytes)) && r->Ok_0.store()
                    == self.store(),
                Err(e) => r is Err && r->Err_0 == Error::SerErr(e) && *final(self.store()) == *old(
                    self.store(),
                ),
            },
    {
        let ser_value = ser_vec(value);
        match ser_value {
            Ok(data) => {
                let mut batch = self;
                batch.writes.push((slice_to_vec(key), data));
                assert(batch@ =~= self@.push((key@, data@)));
                Ok(batch)
            },
            Err(err) => Err(Error::SerErr(err)),
        }
    }

    /// Writes the batch to its store: every staged write, in the order of
    /// staging, as one change of the store's contents.
    pub fn write(self) -> (r: Result<(), Error>)
        ensures
            r is Ok,
            (*final(self.store()))@ == apply_writes((*old(self.store()))@, self@),
    {
        self.store.write(&self.writes)
    }
}

/// All or nothing, the "nothing" half: a batch that is dropped unwritten,
/// with whatever it had staged, leaves its store as the store was.
pub proof fn lemma_dropped_batch(batch: Batch<'_>)
    requires
        has_resolved(batch),
    ensures
        *final(batch.store()) == *batch.store(),
{
}

} // verus!
