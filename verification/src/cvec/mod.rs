//! The chunked compressing vector.

pub mod cache;
pub mod inner;
pub mod iterator;
pub mod laws;
pub mod model;
pub mod order;
pub mod summary;

use vstd::prelude::*;
use self::cache::{Cache, CacheAccess, Cached, RcCacheAccess, RcCached, Uncached};
use self::inner::CVec as CVecInner;
pub use self::iterator::{CVecIntoIter, CVecIntoIterUncached, CVecIter};
use self::cache::CacheLine;
use self::model::{
    admits, lemma_chunks_check, lemma_chunks_check_skip, lemma_joined_index, lemma_joined_len,
    lemma_split_rule, lookup, restored, snapshot_parts, split_rule, well_chunked, Step, Stored,
};
use crate::batches::{batch, joined, lemma_joined_push};
use crate::compression::{
    chunk_line, compress, decompress, lemma_bytes_deep_view, postcard_from_bytes,
    postcard_to_stdvec, DecodeError,
};

verus! {

broadcast use lemma_bytes_deep_view;

/// The result of a read: nothing, a value taken from a compressed chunk, or
/// a value that lies uncompressed.
pub type Value<A, B> = Option<Stored<A, B>>;

/// A chunked vector that owns a cache of one decoded chunk.
pub type CVec<const CHUNK_ELEMS: usize, const COMPRESSION_LEVEL: u32> = CVecInner<
    CHUNK_ELEMS,
    COMPRESSION_LEVEL,
    Cached<CHUNK_ELEMS>,
>;

/// A chunked vector whose cache of one decoded chunk is filled through shared
/// references, so that it can be read without exclusive access.
pub type CVecRc<const CHUNK_ELEMS: usize, const COMPRESSION_LEVEL: u32> = CVecInner<
    CHUNK_ELEMS,
    COMPRESSION_LEVEL,
    RcCached<CHUNK_ELEMS>,
>;

/// A chunked vector without a cache.
pub type CVecUncached<const CHUNK_ELEMS: usize, const COMPRESSION_LEVEL: u32> = CVecInner<
    CHUNK_ELEMS,
    COMPRESSION_LEVEL,
    Uncached,
>;

impl CVec<0, 0> {
    /// An empty vector with chunks of `CHUNK_ELEMS` elements, compressed at
    /// quality `COMPRESSION_LEVEL`.
    pub fn new<const CHUNK_ELEMS: usize, const COMPRESSION_LEVEL: u32>() -> (out: CVec<
        CHUNK_ELEMS,
        COMPRESSION_LEVEL,
    >)
        requires
            CHUNK_ELEMS > 0,
            COMPRESSION_LEVEL <= 11,
        ensures
            out.wf(),
            out@ == Seq::<Seq<u8>>::empty(),
            out.cache().line() is None,
    {
        CVecInner::default()
    }
}

impl CVecRc<0, 0> {
    /// An empty vector with chunks of `CHUNK_ELEMS` elements, compressed at
    /// quality `COMPRESSION_LEVEL`.
    pub fn new<const CHUNK_ELEMS: usize, const COMPRESSION_LEVEL: u32>() -> (out: CVecRc<
        CHUNK_ELEMS,
        COMPRESSION_LEVEL,
    >)
        requires
            CHUNK_ELEMS > 0,
            COMPRESSION_LEVEL <= 11,
        ensures
            out.wf(),
            out@ == Seq::<Seq<u8>>::empty(),
            out.cache().line() is None,
    {
        CVecInner::default()
    }
}

impl CVecUncached<0, 0> {
    /// An empty vector with chunks of `CHUNK_ELEMS` elements, compressed at
    /// quality `COMPRESSION_LEVEL`.
    pub fn new<const CHUNK_ELEMS: usize, const COMPRESSION_LEVEL: u32>() -> (out: CVecUncached<
        CHUNK_ELEMS,
        COMPRESSION_LEVEL,
    >)
        requires
            CHUNK_ELEMS > 0,
            COMPRESSION_LEVEL <= 11,
        ensures
            out.wf(),
            out@ == Seq::<Seq<u8>>::empty(),
            out.cache().line() is None,
    {
        CVecInner::default()
    }
}

impl<const CHUNK_ELEMS: usize, const COMPRESSION_LEVEL: u32, C: Cache> View for CVecInner<
    CHUNK_ELEMS,
    COMPRESSION_LEVEL,
    C,
> {
    type V = Seq<Seq<u8>>;

    /// The elements of the vector: those of the chunks, then the tail.
    open spec fn view(&self) -> Seq<Seq<u8>> {
        joined(self.chunks()) + self.tail()
    }
}

impl<const CHUNK_ELEMS: usize, const COMPRESSION_LEVEL: u32, C: Cache> CVecInner<
    CHUNK_ELEMS,
    COMPRESSION_LEVEL,
    C,
> {
    /// The compressed chunks, oldest first.
    pub closed spec fn chunks(&self) -> Seq<Seq<u8>> {
        self.compressed_storage.deep_view()
    }

    /// The uncompressed elements, which follow those of the chunks.
    pub closed spec fn tail(&self) -> Seq<Seq<u8>> {
        self.uncompressed_buffer.deep_view()
    }

    /// The cache.
    pub closed spec fn cache(&self) -> C {
        self.cache
    }

    /// The invariant of the vector: a valid configuration, a tail shorter
    /// than a chunk, chunks that each decode to `CHUNK_ELEMS` elements, a
    /// length that a `usize` holds, and a cache that mirrors the chunks.
    pub open spec fn wf(&self) -> bool {
        &&& CHUNK_ELEMS > 0
        &&& COMPRESSION_LEVEL <= 11
        &&& self.tail().len() < CHUNK_ELEMS
        &&& well_chunked(self.chunks(), CHUNK_ELEMS)
        &&& self.chunks().len() * CHUNK_ELEMS + self.tail().len() <= usize::MAX
        &&& self.cache().mirrors(self.chunks())
    }

    /// An empty vector.
    pub fn default() -> (out: Self)
        requires
            CHUNK_ELEMS > 0,
            COMPRESSION_LEVEL <= 11,
        ensures
            out.wf(),
            out@ == Seq::<Seq<u8>>::empty(),
            out.chunks().len() == 0,
            out.cache().line() is None,
    {
        let out = CVecInner {
            compressed_storage: Vec::new(),
            uncompressed_buffer: Vec::new(),
            cache: C::fresh(),
        };
        proof {
            assert(out@ =~= Seq::empty());
        }
        out
    }

    /// An empty vector, or `None` where the configuration is not valid:
    /// where a chunk holds no element, or the quality is above 11.
    pub fn try_default() -> (out: Option<Self>)
        ensures
            out is Some <==> CHUNK_ELEMS > 0 && COMPRESSION_LEVEL <= 11,
            out matches Some(v) ==> v.wf() && v@ == Seq::<Seq<u8>>::empty() && v.chunks().len() == 0
                && v.cache().line() is None,
    {
        if CHUNK_ELEMS > 0 && COMPRESSION_LEVEL <= 11 {
            Some(Self::default())
        } else {
            None
        }
    }

    /// The length of a well-formed vector is what its chunks and its tail
    /// hold.
    pub proof fn lemma_len(&self)
        requires
            self.wf(),
        ensures
            self@.len() == self.chunks().len() * CHUNK_ELEMS + self.tail().len(),
            self@.len() <= usize::MAX,
    {
        lemma_joined_len(self.chunks(), CHUNK_ELEMS);
    }

    /// Appends `value`. A tail that reaches `CHUNK_ELEMS` elements is
    /// compressed into a new chunk and emptied.
    pub fn push(&mut self, value: Vec<u8>)
        requires
            old(self).wf(),
            old(self)@.len() < usize::MAX,
        ensures
            final(self).wf(),
            final(self)@ == old(self)@.push(value@),
            admits(old(self)@, Step::Push(value@), None, final(self)@),
            if old(self).tail().len() + 1 == CHUNK_ELEMS {
                &&& final(self).chunks().len() == old(self).chunks().len() + 1
                &&& final(self).chunks().drop_last() == old(self).chunks()
                &&& batch(final(self).chunks().last()) == old(self).tail().push(value@)
                &&& final(self).tail() == Seq::<Seq<u8>>::empty()
            } else {
                &&& final(self).chunks() == old(self).chunks()
                &&& final(self).tail() == old(self).tail().push(value@)
            },
            final(self).cache().line() == old(self).cache().line(),
    {
        proof {
            old(self).lemma_len();
            self.cache.lemma_mirrors_line(self.chunks());
        }
        let ghost chunks = self.chunks();
        let ghost tail = self.tail();
        self.uncompressed_buffer.push(value);
        assert(self.tail() =~= tail.push(value@));
        assert(self@ =~= old(self)@.push(value@));
        if self.uncompressed_buffer.len() >= CHUNK_ELEMS {
            let compressed = compress(&self.uncompressed_buffer, COMPRESSION_LEVEL as i32);
            self.compressed_storage.push(compressed);
            self.uncompressed_buffer.clear();
            self.cache.resync(self.compressed_storage.len(), Ghost(chunks), Ghost(self.chunks()));
            proof {
                assert(self.chunks() =~= chunks.push(compressed@));
                assert(self.chunks().drop_last() =~= chunks);
                assert(self.tail() =~= Seq::empty());
                lemma_joined_push(chunks, compressed@);
                assert(self@ =~= old(self)@.push(value@));
                assert((chunks.len() + 1) * CHUNK_ELEMS == chunks.len() * CHUNK_ELEMS + CHUNK_ELEMS)
                    by (nonlinear_arith);
            }
        }
    }

    /// Removes the last element and returns it; `None` where the vector is
    /// empty. Where the tail is empty the last chunk is decoded into it
    /// first, and the cache drops that chunk if it holds it.
    pub fn pop(&mut self) -> (out: Option<Vec<u8>>)
        requires
            old(self).wf(),
        ensures
            final(self).wf(),
            match out {
                Some(value) => old(self)@.len() > 0 && value@ == old(self)@.last() && final(self)@
                    == old(self)@.drop_last(),
                None => old(self)@.len() == 0 && final(self)@ == old(self)@,
            },
            admits(
                old(self)@,
                Step::Pop,
                match out {
                    Some(value) => Some(value@),
                    None => None,
                },
                final(self)@,
            ),
            if old(self).tail().len() == 0 && old(self).chunks().len() > 0 {
                &&& final(self).chunks() == old(self).chunks().drop_last()
                &&& final(self).tail() == batch(old(self).chunks().last()).drop_last()
            } else {
                &&& final(self).chunks() == old(self).chunks()
                &&& final(self).tail() == if old(self).tail().len() > 0 {
                    old(self).tail().drop_last()
                } else {
                    old(self).tail()
                }
            },
            final(self).cache().line() == if old(self).tail().len() == 0 && (old(self).cache().line()
                matches Some((held, _)) && held + 1 == old(self).chunks().len()) {
                None
            } else {
                old(self).cache().line()
            },
    {
        proof {
            old(self).lemma_len();
            self.cache.lemma_mirrors_line(self.chunks());
        }
        let ghost chunks = self.chunks();
        if self.uncompressed_buffer.is_empty() {
            if let Some(x) = self.compressed_storage.pop() {
                proof {
                    assert(self.chunks() =~= chunks.drop_last());
                    assert(x.deep_view() =~= chunks.last());
                    assert(chunk_line(chunks[chunks.len() - 1], CHUNK_ELEMS) is Ok);
                    assert(joined(chunks) =~= joined(chunks.drop_last()) + batch(chunks.last()));
                    assert((chunks.len() - 1) * CHUNK_ELEMS + CHUNK_ELEMS == chunks.len()
                        * CHUNK_ELEMS) by (nonlinear_arith);
                }
                if let Ok(items) = decompress(x.as_slice()) {
                    self.uncompressed_buffer = items;
                }
                self.cache.resync(self.compressed_storage.len(), Ghost(chunks), Ghost(self.chunks()));
            }
        }
        let ghost tail = self.tail();
        let out = self.uncompressed_buffer.pop();
        proof {
            assert(joined(self.chunks()) + tail =~= old(self)@);
            if tail.len() > 0 {
                assert(self.tail() =~= tail.drop_last());
                assert(self@ =~= old(self)@.drop_last());
                assert(out->Some_0@ =~= tail.last());
            }
        }
        out
    }

    /// The number of elements.
    pub fn len(&self) -> (out: usize)
        requires
            self.wf(),
        ensures
            out == self@.len(),
    {
        proof {
            self.lemma_len();
        }
        self.uncompressed_buffer.len() + self.compressed_storage.len() * CHUNK_ELEMS
    }

    /// Whether the vector holds no element.
    pub fn is_empty(&self) -> (out: bool)
        requires
            self.wf(),
        ensures
            out <==> self@.len() == 0,
    {
        proof {
            if self.chunks().len() > 0 {
                assert(self.chunks().len() * CHUNK_ELEMS >= CHUNK_ELEMS) by (nonlinear_arith)
                    requires
                        self.chunks().len() >= 1,
                        CHUNK_ELEMS > 0,
                ;
            }
        }
        self.uncompressed_buffer.is_empty() && self.compressed_storage.is_empty()
    }

    /// Finds where the element at `idx` lies, by the split rule.
    fn split(&self, idx: usize) -> (out: Value<(usize, usize), usize>)
        requires
            self.wf(),
        ensures
            out == split_rule(idx, CHUNK_ELEMS, self.chunks().len(), self.tail().len()),
    {
        let (idx, offset) = (idx / CHUNK_ELEMS, idx % CHUNK_ELEMS);
        if idx < self.compressed_storage.len() {
            Some(Stored::Compressed((idx, offset)))
        } else if idx == self.compressed_storage.len() && offset < self.uncompressed_buffer.len() {
            Some(Stored::Uncompressed(offset))
        } else {
            None
        }
    }

    /// What the split rule finds is the element of the view at that index.
    pub proof fn lemma_split(&self, idx: usize)
        requires
            self.wf(),
        ensures
            match split_rule(idx, CHUNK_ELEMS, self.chunks().len(), self.tail().len()) {
                Some(Stored::Compressed((chunk_idx, offset))) => {
                    &&& idx < self.chunks().len() * CHUNK_ELEMS
                    &&& idx < self@.len()
                    &&& chunk_idx < self.chunks().len()
                    &&& offset < CHUNK_ELEMS
                    &&& chunk_line(self.chunks()[chunk_idx as int], CHUNK_ELEMS) is Ok
                    &&& self@[idx as int] == chunk_line(
                        self.chunks()[chunk_idx as int],
                        CHUNK_ELEMS,
                    )->Ok_0[offset as int]
                },
                Some(Stored::Uncompressed(offset)) => {
                    &&& self.chunks().len() * CHUNK_ELEMS <= idx < self@.len()
                    &&& offset < self.tail().len()
                    &&& self@[idx as int] == self.tail()[offset as int]
                },
                None => idx >= self@.len(),
            },
    {
        self.lemma_len();
        lemma_split_rule(idx, CHUNK_ELEMS, self.chunks().len(), self.tail().len());
        if idx < self.chunks().len() * CHUNK_ELEMS {
            lemma_joined_index(self.chunks(), CHUNK_ELEMS, idx as int);
        }
    }

    /// The element at `idx`, or `None` where `idx` is not below the length.
    /// An element of a chunk is decoded afresh, without the cache, and
    /// returned by value; an element of the tail is returned by reference.
    #[must_use]
    pub fn get_uncached(&self, idx: usize) -> (out: Value<Vec<u8>, &Vec<u8>>)
        requires
            self.wf(),
        ensures
            match out {
                Some(Stored::Compressed(value)) => idx < self.chunks().len() * CHUNK_ELEMS
                    && lookup(self@, idx) == Some(value@),
                Some(Stored::Uncompressed(value)) => idx >= self.chunks().len() * CHUNK_ELEMS
                    && lookup(self@, idx) == Some(value@),
                None => lookup(self@, idx) is None,
            },
    {
        proof {
            self.lemma_split(idx);
        }
        match self.split(idx) {
            Some(Stored::Compressed((chunk_idx, chunk_offset))) => {
                match decompress(self.compressed_storage[chunk_idx].as_slice()) {
                    Ok(mut data) => {
                        assert(data.deep_view() =~= chunk_line(
                            self.chunks()[chunk_idx as int],
                            CHUNK_ELEMS,
                        )->Ok_0);
                        Some(Stored::Compressed(data.swap_remove(chunk_offset)))
                    },
                    Err(_) => None,
                }
            },
            Some(Stored::Uncompressed(elem)) => Some(
                Stored::Uncompressed(&self.uncompressed_buffer[elem]),
            ),
            None => None,
        }
    }

    /// The element at `idx`, or `None` where `idx` is not below the length.
    /// An element of a chunk is read from the cache, which decodes the chunk
    /// only if it does not hold it.
    #[must_use]
    pub fn get_ref(&mut self, idx: usize) -> (out: Option<&Vec<u8>>)
        where C: CacheAccess<CHUNK_ELEMS>
        requires
            old(self).wf(),
        ensures
            final(self).wf(),
            final(self)@ == old(self)@,
            final(self).chunks() == old(self).chunks(),
            final(self).tail() == old(self).tail(),
            match out {
                Some(value) => lookup(old(self)@, idx) == Some(value@),
                None => lookup(old(self)@, idx) is None,
            },
            final(self).cache().line() == if idx < old(self).chunks().len() * CHUNK_ELEMS {
                Some(
                    (
                        (idx as int / CHUNK_ELEMS as int) as usize,
                        batch(old(self).chunks()[idx as int / CHUNK_ELEMS as int]),
                    ),
                )
            } else {
                old(self).cache().line()
            },
    {
        proof {
            self.lemma_split(idx);
            self.lemma_len();
        }
        match self.split(idx) {
            Some(Stored::Compressed((chunk_idx, chunk_offset))) => {
                proof {
                    self.cache.lemma_mirrors_agrees(self.chunks(), chunk_idx);
                    assert(chunk_idx as int == idx as int / CHUNK_ELEMS as int);
                    assert(batch(self.chunks()[chunk_idx as int]) == chunk_line(
                        self.chunks()[chunk_idx as int],
                        CHUNK_ELEMS,
                    )->Ok_0);
                }
                let data = &self.compressed_storage[chunk_idx];
                Some(self.cache.get_compressed(chunk_idx, chunk_offset, data.as_slice()))
            },
            Some(Stored::Uncompressed(elem)) => Some(&self.uncompressed_buffer[elem]),
            None => None,
        }
    }

    /// A copy of the element at `idx`, or `None` where `idx` is not below the
    /// length. An element of a chunk is read through the shared cache, which
    /// decodes the chunk only if it does not hold it.
    #[must_use]
    pub fn get(&self, idx: usize) -> (out: Option<Vec<u8>>)
        where C: RcCacheAccess<CHUNK_ELEMS>
        requires
            self.wf(),
        ensures
            match out {
                Some(value) => lookup(self@, idx) == Some(value@),
                None => lookup(self@, idx) is None,
            },
    {
        proof {
            self.lemma_split(idx);
        }
        match self.split(idx) {
            Some(Stored::Compressed((chunk_idx, chunk_offset))) => {
                proof {
                    self.cache.lemma_mirrors_agrees(self.chunks(), chunk_idx);
                }
                let data = &self.compressed_storage[chunk_idx];
                Some(
                    self.cache.get_compressed(
                        chunk_idx,
                        chunk_offset,
                        data.as_slice(),
                    ).borrow().deref().clone(),
                )
            },
            Some(Stored::Uncompressed(elem)) => Some(self.uncompressed_buffer[elem].clone()),
            None => None,
        }
    }

    /// The vector that holds the elements of `iter`, in their order.
    pub fn from_iter(iter: Vec<Vec<u8>>) -> (out: Self)
        requires
            CHUNK_ELEMS > 0,
            COMPRESSION_LEVEL <= 11,
        ensures
            out.wf(),
            out@ == iter.deep_view(),
            out.cache().line() is None,
    {
        let mut c = Self::default();
        let ghost all = iter.deep_view();
        assert(all.len() == iter.len());
        for i in it: iter
            invariant
                c.wf(),
                c.cache().line() is None,
                all.len() <= usize::MAX,
                it.seq().len() == all.len(),
                forall|k: int| 0 <= k < all.len() ==> (#[trigger] it.seq()[k])@ == all[k],
                c@ == all.take(it.index() as int),
        {
            c.push(i);
        }
        c
    }

    /// The bytes that stand for the vector: its chunks and its tail, without
    /// the cache. `from_bytes` restores the vector from them.
    pub fn to_bytes(&self) -> (out: Vec<u8>)
        requires
            self.wf(),
        ensures
            snapshot_parts(out@) == Some((self.chunks(), self.tail())),
            restored(out@, CHUNK_ELEMS) == Ok::<_, DecodeError>(self@),
    {
        let mut parts: Vec<Vec<u8>> = Vec::new();
        parts.push(postcard_to_stdvec(&self.compressed_storage));
        parts.push(postcard_to_stdvec(&self.uncompressed_buffer));
        let out = compress(&parts, COMPRESSION_LEVEL as i32);
        proof {
            assert(parts.deep_view() =~= seq![
                crate::compression::postcard_bytes(self.chunks()),
                crate::compression::postcard_bytes(self.tail()),
            ]);
            lemma_chunks_check(self.chunks(), CHUNK_ELEMS);
        }
        out
    }

    /// Restores a vector from the bytes that stand for one. Every chunk is
    /// decoded once to see that it holds `CHUNK_ELEMS` elements; the first
    /// faulty chunk is reported. The cache of the restored vector is empty.
    pub fn from_bytes(bytes: &[u8]) -> (out: Result<Self, DecodeError>)
        requires
            CHUNK_ELEMS > 0,
            COMPRESSION_LEVEL <= 11,
        ensures
            match out {
                Ok(restored_vec) => {
                    &&& restored_vec.wf()
                    &&& restored(bytes@, CHUNK_ELEMS) == Ok::<_, DecodeError>(restored_vec@)
                    &&& snapshot_parts(bytes@) == Some((restored_vec.chunks(), restored_vec.tail()))
                    &&& restored_vec.cache().line() is None
                },
                Err(e) => restored(bytes@, CHUNK_ELEMS) == Err::<Seq<Seq<u8>>, _>(e),
            },
    {
        let parts = match decompress(bytes) {
            Ok(parts) => parts,
            Err(e) => {
                return Err(e);
            },
        };
        if parts.len() != 2 {
            return Err(DecodeError::Malformed);
        }
        let compressed_storage = match postcard_from_bytes(parts[0].as_slice()) {
            Ok(chunks) => chunks,
            Err(_) => {
                return Err(DecodeError::Malformed);
            },
        };
        let uncompressed_buffer = match postcard_from_bytes(parts[1].as_slice()) {
            Ok(tail) => tail,
            Err(_) => {
                return Err(DecodeError::Malformed);
            },
        };
        let ghost chunks = compressed_storage.deep_view();
        if uncompressed_buffer.len() >= CHUNK_ELEMS {
            return Err(DecodeError::Malformed);
        }
        let fits = match compressed_storage.len().checked_mul(CHUNK_ELEMS) {
            Some(in_chunks) => in_chunks.checked_add(uncompressed_buffer.len()).is_some(),
            None => false,
        };
        if !fits {
            return Err(DecodeError::Malformed);
        }
        let mut i: usize = 0;
        while i < compressed_storage.len()
            invariant
                i <= compressed_storage.len(),
                chunks == compressed_storage.deep_view(),
                snapshot_parts(bytes@) == Some((chunks, uncompressed_buffer.deep_view())),
                uncompressed_buffer.len() < CHUNK_ELEMS,
                chunks.len() * CHUNK_ELEMS + uncompressed_buffer.len() <= usize::MAX,
                forall|k: int| 0 <= k < i ==> chunk_line(#[trigger] chunks[k], CHUNK_ELEMS) is Ok,
            decreases compressed_storage.len() - i,
        {
            match CacheLine::<CHUNK_ELEMS>::deserialize(compressed_storage[i].as_slice()) {
                Ok(_) => {},
                Err(e) => {
                    proof {
                        lemma_chunks_check_skip(chunks, CHUNK_ELEMS, i as int);
                    }
                    return Err(e);
                },
            }
            i += 1;
        }
        proof {
            lemma_chunks_check(chunks, CHUNK_ELEMS);
        }
        let mut cache = C::fresh();
        cache.resync(compressed_storage.len(), Ghost(Seq::empty()), Ghost(chunks));
        Ok(CVecInner { compressed_storage, uncompressed_buffer, cache })
    }
}

} // verus!
