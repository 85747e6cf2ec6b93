//! The single-slot caches that a chunked vector can carry: none, one that the
//! vector owns, and one that can be filled through a shared reference.

use vstd::prelude::*;
use vstd::cell::invcell::InvCell;
use vstd::predicate::Predicate;
use crate::batches::batch;
use crate::compression::{chunk_line, decompress, DecodeError};

verus! {

/// One decoded chunk: exactly `CHUNK_ELEMS` elements.
pub struct CacheLine<const CHUNK_ELEMS: usize> {
    items: Vec<Vec<u8>>,
}

impl<const CHUNK_ELEMS: usize> View for CacheLine<CHUNK_ELEMS> {
    type V = Seq<Seq<u8>>;

    closed spec fn view(&self) -> Seq<Seq<u8>> {
        self.items.deep_view()
    }
}

impl<const CHUNK_ELEMS: usize> CacheLine<CHUNK_ELEMS> {
    /// Takes a batch of elements as a line if it has the length of a chunk.
    pub fn from_items(items: Vec<Vec<u8>>) -> (out: Result<Self, DecodeError>)
        ensures
            match out {
                Ok(line) => items.len() == CHUNK_ELEMS && line@ == items.deep_view(),
                Err(e) => items.len() != CHUNK_ELEMS && e == (DecodeError::InvalidLength {
                    found: items.len(),
                    expected: CHUNK_ELEMS,
                }),
            },
    {
        if items.len() == CHUNK_ELEMS {
            Ok(CacheLine { items })
        } else {
            Err(DecodeError::InvalidLength { found: items.len(), expected: CHUNK_ELEMS })
        }
    }

    /// Decodes a stored chunk. A chunk that does not hold exactly
    /// `CHUNK_ELEMS` elements is reported with both counts.
    pub fn deserialize(data: &[u8]) -> (out: Result<Self, DecodeError>)
        ensures
            match out {
                Ok(line) => chunk_line(data@, CHUNK_ELEMS) == Ok::<_, DecodeError>(line@),
                Err(e) => chunk_line(data@, CHUNK_ELEMS) == Err::<Seq<Seq<u8>>, _>(e),
            },
    {
        match decompress(data) {
            Ok(items) => Self::from_items(items),
            Err(e) => Err(e),
        }
    }

    /// The element at `offset`.
    pub fn get(&self, offset: usize) -> (item: &Vec<u8>)
        requires
            offset < self@.len(),
        ensures
            item@ == self@[offset as int],
    {
        &self.items[offset]
    }
}

/// What every cache of a chunked vector can do.
pub trait Cache: Sized {
    /// Whether whatever the cache holds is true of the chunk list `chunks`.
    spec fn mirrors(&self, chunks: Seq<Seq<u8>>) -> bool;

    /// Whether the cache may be asked for chunk `index`, stored as `data`.
    spec fn agrees(&self, index: usize, data: Seq<u8>) -> bool;

    /// The chunk that the cache is known to hold, as its index and its
    /// elements: `None` where it holds none, and where what it holds is not
    /// known, as in a cache that is filled through shared references.
    spec fn line(&self) -> Option<(usize, Seq<Seq<u8>>)>;

    /// The line of a cache that mirrors a chunk list is a chunk of the list
    /// with its elements.
    proof fn lemma_mirrors_line(&self, chunks: Seq<Seq<u8>>)
        requires
            self.mirrors(chunks),
        ensures
            self.line() matches Some((held, items)) ==> held < chunks.len() && batch(
                chunks[held as int],
            ) == items,
    ;

    /// A cache that mirrors a chunk list agrees with each of its chunks.
    proof fn lemma_mirrors_agrees(&self, chunks: Seq<Seq<u8>>, index: usize)
        requires
            self.mirrors(chunks),
            index < chunks.len(),
        ensures
            self.agrees(index, chunks[index as int]),
    ;

    /// An empty cache.
    fn fresh() -> (cache: Self)
        ensures
            cache.mirrors(Seq::empty()),
            cache.line() is None,
    ;

    /// Whether the cache holds the chunk at `index`. A line that the cache is
    /// known to hold is reported.
    fn is_cached(&self, index: usize) -> (hit: bool)
        ensures
            self.line() matches Some((held, _)) && held == index ==> hit,
    ;

    /// Empties the cache.
    fn kill_all(&mut self)
        ensures
            forall|chunks: Seq<Seq<u8>>| old(self).mirrors(chunks) ==> final(self).mirrors(chunks),
            final(self).line() is None,
    ;

    /// Tells the cache that the chunk list, `before` so far, is now `after`,
    /// of `len` chunks. A line that mirrors a chunk which is gone is dropped.
    fn resync(&mut self, len: usize, Ghost(before): Ghost<Seq<Seq<u8>>>, Ghost(after): Ghost<Seq<Seq<u8>>>)
        requires
            old(self).mirrors(before),
            after.len() == len,
            forall|i: int| 0 <= i < before.len() && i < after.len() ==> before[i] == after[i],
        ensures
            final(self).mirrors(after),
            final(self).line() == if old(self).line() matches Some((held, _)) && held >= len {
                None
            } else {
                old(self).line()
            },
    ;
}

/// No cache: every read of a compressed element decodes its chunk.
pub struct Uncached;

impl Cache for Uncached {
    open spec fn mirrors(&self, chunks: Seq<Seq<u8>>) -> bool {
        true
    }

    open spec fn agrees(&self, index: usize, data: Seq<u8>) -> bool {
        true
    }

    open spec fn line(&self) -> Option<(usize, Seq<Seq<u8>>)> {
        None
    }

    proof fn lemma_mirrors_agrees(&self, chunks: Seq<Seq<u8>>, index: usize) {
    }

    proof fn lemma_mirrors_line(&self, chunks: Seq<Seq<u8>>) {
    }

    fn fresh() -> (cache: Self) {
        Uncached
    }

    fn is_cached(&self, index: usize) -> (hit: bool)
        ensures
            !hit,
    {
        false
    }

    fn kill_all(&mut self) {
    }

    fn resync(&mut self, len: usize, Ghost(before): Ghost<Seq<Seq<u8>>>, Ghost(after): Ghost<Seq<Seq<u8>>>) {
    }
}

/// A cache of one decoded chunk, owned by the vector.
pub struct Cached<const CHUNK_ELEMS: usize> {
    index: usize,
    data: Option<CacheLine<CHUNK_ELEMS>>,
}

impl<const CHUNK_ELEMS: usize> Cached<CHUNK_ELEMS> {
    /// Decodes `data` and keeps it as the chunk at `index`, in place of what
    /// the cache held. Where `data` is no chunk of `CHUNK_ELEMS` elements the
    /// cache is left empty.
    pub fn fill_cache(&mut self, index: usize, data: &[u8]) -> (out: Result<(), DecodeError>)
        ensures
            match out {
                Ok(()) => chunk_line(data@, CHUNK_ELEMS) is Ok && final(self).line() == Some(
                    (index, chunk_line(data@, CHUNK_ELEMS)->Ok_0),
                ),
                Err(e) => chunk_line(data@, CHUNK_ELEMS) == Err::<Seq<Seq<u8>>, _>(e)
                    && final(self).line() is None,
            },
    {
        self.index = index;
        match CacheLine::deserialize(data) {
            Ok(line) => {
                self.data = Some(line);
                Ok(())
            },
            Err(e) => {
                self.data = None;
                Err(e)
            },
        }
    }
}

impl<const CHUNK_ELEMS: usize> Cache for Cached<CHUNK_ELEMS> {
    open spec fn mirrors(&self, chunks: Seq<Seq<u8>>) -> bool {
        self.line() matches Some((index, items)) ==> index < chunks.len() && chunk_line(
            chunks[index as int],
            CHUNK_ELEMS,
        ) == Ok::<_, DecodeError>(items)
    }

    open spec fn agrees(&self, index: usize, data: Seq<u8>) -> bool {
        self.line() matches Some((held, items)) ==> held == index ==> chunk_line(data, CHUNK_ELEMS)
            == Ok::<_, DecodeError>(items)
    }

    /// The index of the chunk that the cache holds and its elements, if it
    /// holds one.
    closed spec fn line(&self) -> Option<(usize, Seq<Seq<u8>>)> {
        match self.data {
            Some(line) => Some((self.index, line@)),
            None => None,
        }
    }

    proof fn lemma_mirrors_agrees(&self, chunks: Seq<Seq<u8>>, index: usize) {
    }

    proof fn lemma_mirrors_line(&self, chunks: Seq<Seq<u8>>) {
    }

    fn fresh() -> (cache: Self) {
        Cached { index: usize::MAX, data: None }
    }

    fn is_cached(&self, index: usize) -> (hit: bool)
        ensures
            hit <==> (self.line() matches Some((held, _)) && held == index),
    {
        self.data.is_some() && self.index == index
    }

    fn kill_all(&mut self) {
        *self = Self::fresh();
    }

    fn resync(&mut self, len: usize, Ghost(before): Ghost<Seq<Seq<u8>>>, Ghost(after): Ghost<Seq<Seq<u8>>>) {
        if self.data.is_some() && self.index >= len {
            self.kill_all();
        }
    }
}

impl Default for Uncached {
    fn default() -> (cache: Self) {
        Uncached
    }
}

impl<const CHUNK_ELEMS: usize> Default for Cached<CHUNK_ELEMS> {
    /// An empty cache.
    fn default() -> (cache: Self)
        ensures
            cache.line() is None,
    {
        Self::fresh()
    }
}

/// A cache that hands out references to the elements of the chunk it holds.
pub trait CacheAccess<const CHUNK_ELEMS: usize>: Cache {
    /// The element at `offset` of the chunk at `index`, stored as `data`. On
    /// a miss the chunk is decoded and takes the place of the cached one.
    fn get_compressed(&mut self, index: usize, offset: usize, data: &[u8]) -> (item: &Vec<u8>)
        requires
            old(self).agrees(index, data@),
            chunk_line(data@, CHUNK_ELEMS) is Ok,
            offset < CHUNK_ELEMS,
        ensures
            item@ == chunk_line(data@, CHUNK_ELEMS)->Ok_0[offset as int],
            forall|chunks: Seq<Seq<u8>>|
                index < chunks.len() && chunks[index as int] == data@ ==> final(self).mirrors(chunks),
            final(self).line() == Some((index, chunk_line(data@, CHUNK_ELEMS)->Ok_0)),
    ;
}

impl<const CHUNK_ELEMS: usize> CacheAccess<CHUNK_ELEMS> for Cached<CHUNK_ELEMS> {
    fn get_compressed(&mut self, index: usize, offset: usize, data: &[u8]) -> (item: &Vec<u8>) {
        if !self.is_cached(index) {
            let _ = self.fill_cache(index, data);
        }
        self.data.as_ref().unwrap().get(offset)
    }
}

/// The rule that the content of a shared cache obeys: it mirrors `chunks`.
pub struct LineRule {
    pub chunks: Seq<Seq<u8>>,
}

impl<const CHUNK_ELEMS: usize> Predicate<Cached<CHUNK_ELEMS>> for LineRule {
    open spec fn predicate(&self, v: Cached<CHUNK_ELEMS>) -> bool {
        v.mirrors(self.chunks)
    }
}

/// A cache of one decoded chunk that can be read and filled through a shared
/// reference.
pub struct RcCached<const CHUNK_ELEMS: usize>(InvCell<Cached<CHUNK_ELEMS>, LineRule>);

impl<const CHUNK_ELEMS: usize> RcCached<CHUNK_ELEMS> {
    /// The chunk list that the cache follows.
    pub closed spec fn chunks(&self) -> Seq<Seq<u8>> {
        self.0.predicate().chunks
    }
}

impl<const CHUNK_ELEMS: usize> Cache for RcCached<CHUNK_ELEMS> {
    open spec fn mirrors(&self, chunks: Seq<Seq<u8>>) -> bool {
        self.chunks() == chunks
    }

    open spec fn agrees(&self, index: usize, data: Seq<u8>) -> bool {
        index < self.chunks().len() && self.chunks()[index as int] == data
    }

    /// What the cell holds is not part of the value of the cache, so no line
    /// is known.
    open spec fn line(&self) -> Option<(usize, Seq<Seq<u8>>)> {
        None
    }

    proof fn lemma_mirrors_agrees(&self, chunks: Seq<Seq<u8>>, index: usize) {
    }

    proof fn lemma_mirrors_line(&self, chunks: Seq<Seq<u8>>) {
    }

    fn fresh() -> (cache: Self) {
        RcCached(InvCell::new(Cached::fresh(), Ghost(LineRule { chunks: Seq::empty() })))
    }

    /// Whether the cache holds the chunk at `index`. What the cache holds
    /// obeys its rule, so a hit names a chunk of the list that the cache
    /// follows, and that chunk decodes to `CHUNK_ELEMS` elements: a cache that
    /// follows no chunk at `index` never reports one.
    fn is_cached(&self, index: usize) -> (hit: bool)
        ensures
            hit ==> index < self.chunks().len(),
            hit ==> chunk_line(self.chunks()[index as int], CHUNK_ELEMS) is Ok,
    {
        let slot = self.0.replace(Cached::fresh());
        let hit = slot.is_cached(index);
        self.0.set(slot);
        hit
    }

    fn kill_all(&mut self) {
        self.0.set(Cached::fresh());
    }

    fn resync(&mut self, len: usize, Ghost(before): Ghost<Seq<Seq<u8>>>, Ghost(after): Ghost<Seq<Seq<u8>>>) {
        let mut followed = InvCell::new(Cached::fresh(), Ghost(LineRule { chunks: after }));
        core::mem::swap(&mut self.0, &mut followed);
        let mut slot = followed.into_inner();
        slot.resync(len, Ghost(before), Ghost(after));
        self.0.set(slot);
    }
}

impl<const CHUNK_ELEMS: usize> Default for RcCached<CHUNK_ELEMS> {
    /// An empty cache that follows the empty chunk list.
    fn default() -> (cache: Self)
        ensures
            cache.mirrors(Seq::empty()),
    {
        Self::fresh()
    }
}

/// A cache that answers a request with a handle, which decodes the chunk only
/// when it is borrowed.
pub trait RcCacheAccess<const CHUNK_ELEMS: usize>: Cache {
    /// A handle for the element at `offset` of the chunk at `index`, stored as
    /// `data`.
    fn get_compressed<'e>(&'e self, index: usize, offset: usize, data: &'e [u8]) -> (entry: Entry<
        'e,
        CHUNK_ELEMS,
    >)
        requires
            self.agrees(index, data@),
            chunk_line(data@, CHUNK_ELEMS) is Ok,
            offset < CHUNK_ELEMS,
        ensures
            entry.ready(),
            entry.target() == chunk_line(data@, CHUNK_ELEMS)->Ok_0[offset as int],
    ;
}

impl<const CHUNK_ELEMS: usize> RcCacheAccess<CHUNK_ELEMS> for RcCached<CHUNK_ELEMS> {
    fn get_compressed<'e>(&'e self, index: usize, offset: usize, data: &'e [u8]) -> (entry: Entry<
        'e,
        CHUNK_ELEMS,
    >)
        ensures
            entry == (Entry::Compressed { cache: self, index, offset, data }),
    {
        Entry::Compressed { cache: self, index, offset, data }
    }
}

/// A handle for one element: either a place in a compressed chunk, which is
/// decoded into the cache when the handle is borrowed, or an element that
/// lies uncompressed.
pub enum Entry<'e, const CHUNK_ELEMS: usize> {
    Compressed { cache: &'e RcCached<CHUNK_ELEMS>, index: usize, offset: usize, data: &'e [u8] },
    Uncompressed(&'e Vec<u8>),
}

impl<'e, const CHUNK_ELEMS: usize> Entry<'e, CHUNK_ELEMS> {
    /// Whether the handle can be borrowed: a compressed place lies in a chunk
    /// of `CHUNK_ELEMS` elements that its cache follows.
    pub open spec fn ready(self) -> bool {
        match self {
            Entry::Compressed { cache, index, offset, data } => {
                &&& cache.agrees(index, data@)
                &&& chunk_line(data@, CHUNK_ELEMS) is Ok
                &&& offset < CHUNK_ELEMS
            },
            Entry::Uncompressed(_) => true,
        }
    }

    /// The element that the handle stands for.
    pub open spec fn target(self) -> Seq<u8> {
        match self {
            Entry::Compressed { cache, index, offset, data } => chunk_line(
                data@,
                CHUNK_ELEMS,
            )->Ok_0[offset as int],
            Entry::Uncompressed(item) => item@,
        }
    }

    /// Makes the element available. For a compressed place the chunk is
    /// decoded into the cache unless the cache holds it already.
    pub fn borrow(&self) -> (out: EntryRef<'e>)
        requires
            self.ready(),
        ensures
            out@ == self.target(),
    {
        match *self {
            Entry::Compressed { cache, index, offset, data } => {
                let mut slot = cache.0.replace(Cached::fresh());
                let item = slot.get_compressed(index, offset, data).clone();
                cache.0.set(slot);
                EntryRef::Compressed { item }
            },
            Entry::Uncompressed(data) => EntryRef::Uncompressed(data),
        }
    }
}

/// An element made available by a handle.
pub enum EntryRef<'e> {
    Compressed { item: Vec<u8> },
    Uncompressed(&'e Vec<u8>),
}

impl<'e> View for EntryRef<'e> {
    type V = Seq<u8>;

    open spec fn view(&self) -> Seq<u8> {
        match self {
            EntryRef::Compressed { item } => item@,
            EntryRef::Uncompressed(item) => item@,
        }
    }
}

impl<'e> EntryRef<'e> {
    /// The element.
    pub fn deref(&self) -> (item: &Vec<u8>)
        ensures
            item@ == self@,
    {
        match self {
            EntryRef::Compressed { item } => item,
            EntryRef::Uncompressed(data) => *data,
        }
    }

    /// The element.
    pub fn as_ref(&self) -> (item: &Vec<u8>)
        ensures
            item@ == self@,
    {
        self.deref()
    }
}

} // verus!
