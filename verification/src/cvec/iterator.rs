//! Walking a chunked vector: by value, which empties it from the end, and by
//! reference, which decodes one chunk at a time.

use vstd::prelude::*;
use super::cache::{Cache, Cached, Uncached};
use super::inner::CVec as CVecInner;
use crate::batches::{joined, lemma_joined_skip};
use crate::compression::{chunk_line, decompress, lemma_bytes_deep_view};

verus! {

broadcast use lemma_bytes_deep_view;

/// The walk by value of a vector with an owned cache.
pub type CVecIntoIter<const CHUNK_ELEMS: usize, const COMPRESSION_LEVEL: u32> = CVecIntoIterInner<
    CHUNK_ELEMS,
    COMPRESSION_LEVEL,
    Cached<CHUNK_ELEMS>,
>;

/// The walk by value of a vector without a cache.
pub type CVecIntoIterUncached<
    const CHUNK_ELEMS: usize,
    const COMPRESSION_LEVEL: u32,
> = CVecIntoIterInner<CHUNK_ELEMS, COMPRESSION_LEVEL, Uncached>;

/// The walk by value: it owns the vector and takes its elements from the
/// end. The view is what is left of the vector.
pub struct CVecIntoIterInner<const CHUNK_ELEMS: usize, const COMPRESSION_LEVEL: u32, C: Cache> {
    inner: CVecInner<CHUNK_ELEMS, COMPRESSION_LEVEL, C>,
}

impl<const CHUNK_ELEMS: usize, const COMPRESSION_LEVEL: u32, C: Cache> View for CVecIntoIterInner<
    CHUNK_ELEMS,
    COMPRESSION_LEVEL,
    C,
> {
    type V = Seq<Seq<u8>>;

    closed spec fn view(&self) -> Seq<Seq<u8>> {
        self.inner@
    }
}

impl<const CHUNK_ELEMS: usize, const COMPRESSION_LEVEL: u32, C: Cache> CVecIntoIterInner<
    CHUNK_ELEMS,
    COMPRESSION_LEVEL,
    C,
> {
    /// The invariant of the walk: that of the vector it owns.
    pub closed spec fn wf(&self) -> bool {
        self.inner.wf()
    }

    /// The next element from the end; `None` once the vector is empty.
    pub fn next(&mut self) -> (out: Option<Vec<u8>>)
        requires
            old(self).wf(),
        ensures
            final(self).wf(),
            match out {
                Some(value) => old(self)@.len() > 0 && value@ == old(self)@.last() && final(self)@
                    == old(self)@.drop_last(),
                None => old(self)@.len() == 0 && final(self)@ == old(self)@,
            },
    {
        self.inner.pop()
    }

    /// The number of elements that are left, as a lower and an upper bound.
    pub fn size_hint(&self) -> (out: (usize, Option<usize>))
        requires
            self.wf(),
        ensures
            out.0 == self@.len(),
            out.1 == Some(out.0),
    {
        (self.inner.len(), Some(self.inner.len()))
    }

    /// All elements that are left, in the order in which `next` yields them:
    /// from the last to the first.
    pub fn collect(self) -> (out: Vec<Vec<u8>>)
        requires
            self.wf(),
        ensures
            out.deep_view() == self@.reverse(),
    {
        let mut walk = self;
        let mut out: Vec<Vec<u8>> = Vec::new();
        let ghost all = walk@;
        loop
            invariant
                walk.wf(),
                all == self@,
                walk@.len() + out.len() == all.len(),
                walk@ == all.take(walk@.len() as int),
                out.deep_view() == all.skip(walk@.len() as int).reverse(),
            decreases walk@.len(),
        {
            let ghost taken = out.deep_view();
            match walk.next() {
                Some(item) => {
                    out.push(item);
                    proof {
                        assert(out.deep_view() =~= taken.push(item@));
                    }
                },
                None => {
                    return out;
                },
            }
        }
    }
}

impl<const CHUNK_ELEMS: usize, const COMPRESSION_LEVEL: u32, C: Cache> CVecInner<
    CHUNK_ELEMS,
    COMPRESSION_LEVEL,
    C,
> {
    /// The walk by value of the vector.
    pub fn into_iter(self) -> (out: CVecIntoIterInner<CHUNK_ELEMS, COMPRESSION_LEVEL, C>)
        requires
            self.wf(),
        ensures
            out.wf(),
            out@ == self@,
    {
        CVecIntoIterInner { inner: self }
    }

    /// The walk by reference of the vector.
    pub fn iter<'i>(&'i self) -> (out: CVecIter<'i, CHUNK_ELEMS, COMPRESSION_LEVEL, C>)
        requires
            self.wf(),
        ensures
            out.wf(),
            out@ == self@,
            out.source() == self,
    {
        let out = CVecIter { chunk_idx: 0, in_tail: false, inner: self, staged: Vec::new(), pos: 0 };
        proof {
            assert(self.chunks().skip(0) =~= self.chunks());
        }
        out
    }
}

/// The walk by reference: it yields copies of the elements from the first to
/// the last, decoding one chunk at a time into a staging buffer. The view is
/// the sequence of the elements that are still to come.
pub struct CVecIter<'i, const CHUNK_ELEMS: usize, const COMPRESSION_LEVEL: u32, C: Cache> {
    chunk_idx: usize,
    in_tail: bool,
    inner: &'i CVecInner<CHUNK_ELEMS, COMPRESSION_LEVEL, C>,
    staged: Vec<Vec<u8>>,
    pos: usize,
}

impl<'i, const CHUNK_ELEMS: usize, const COMPRESSION_LEVEL: u32, C: Cache> View for CVecIter<
    'i,
    CHUNK_ELEMS,
    COMPRESSION_LEVEL,
    C,
> {
    type V = Seq<Seq<u8>>;

    closed spec fn view(&self) -> Seq<Seq<u8>> {
        if self.in_tail {
            self.inner.tail().skip(self.pos as int)
        } else {
            self.staged.deep_view().skip(self.pos as int) + joined(
                self.inner.chunks().skip(self.chunk_idx as int),
            ) + self.inner.tail()
        }
    }
}

impl<'i, const CHUNK_ELEMS: usize, const COMPRESSION_LEVEL: u32, C: Cache> CVecIter<
    'i,
    CHUNK_ELEMS,
    COMPRESSION_LEVEL,
    C,
> {
    /// The vector that is walked.
    pub closed spec fn source(&self) -> &'i CVecInner<CHUNK_ELEMS, COMPRESSION_LEVEL, C> {
        self.inner
    }

    /// The invariant of the walk: the vector is well formed, and the walk
    /// is either within the staged chunk or within the tail.
    pub closed spec fn wf(&self) -> bool {
        &&& self.inner.wf()
        &&& self.chunk_idx <= self.inner.chunks().len()
        &&& if self.in_tail {
            self.pos <= self.inner.tail().len()
        } else {
            self.pos <= self.staged.len() <= self.chunk_idx * CHUNK_ELEMS
        }
    }

    /// A copy of the next element; `None` once the walk has passed the last.
    pub fn next(&mut self) -> (out: Option<Vec<u8>>)
        requires
            old(self).wf(),
        ensures
            final(self).wf(),
            final(self).source() == old(self).source(),
            match out {
                Some(value) => old(self)@.len() > 0 && value@ == old(self)@.first() && final(self)@
                    == old(self)@.drop_first(),
                None => old(self)@.len() == 0 && final(self)@ == old(self)@,
            },
    {
        let ghost chunks = self.inner.chunks();
        let staged_left = if self.in_tail {
            self.inner.uncompressed_buffer.len() - self.pos
        } else {
            self.staged.len() - self.pos
        };
        if staged_left == 0 {
            if self.in_tail {
                return None;
            }
            if self.chunk_idx < self.inner.compressed_storage.len() {
                proof {
                    lemma_joined_skip(chunks, self.chunk_idx as int);
                    assert((self.chunk_idx + 1) * CHUNK_ELEMS >= CHUNK_ELEMS) by (nonlinear_arith)
                        requires
                            self.chunk_idx >= 0,
                            CHUNK_ELEMS >= 0,
                    ;
                }
                if let Ok(data) = decompress(self.inner.compressed_storage[self.chunk_idx].as_slice()) {
                    self.staged = data;
                }
                self.pos = 0;
                self.chunk_idx += 1;
            } else {
                self.staged = Vec::new();
                self.pos = 0;
                self.in_tail = true;
            }
        }
        if self.in_tail {
            if self.pos < self.inner.uncompressed_buffer.len() {
                let item = self.inner.uncompressed_buffer[self.pos].clone();
                self.pos += 1;
                Some(item)
            } else {
                None
            }
        } else {
            let item = self.staged[self.pos].clone();
            self.pos += 1;
            Some(item)
        }
    }

    /// Copies of all elements that are still to come, in their order.
    pub fn collect(self) -> (out: Vec<Vec<u8>>)
        requires
            self.wf(),
        ensures
            out.deep_view() == self@,
    {
        let mut walk = self;
        let mut out: Vec<Vec<u8>> = Vec::new();
        let ghost all = walk@;
        loop
            invariant
                walk.wf(),
                all == self@,
                out.deep_view() + walk@ == all,
            decreases walk@.len(),
        {
            match walk.next() {
                Some(item) => {
                    out.push(item);
                },
                None => {
                    return out;
                },
            }
        }
    }

    /// The number of elements that are still to come, as a lower and an
    /// upper bound.
    pub fn size_hint(&self) -> (out: (usize, Option<usize>))
        requires
            self.wf(),
        ensures
            out.0 == self@.len(),
            out.1 == Some(out.0),
    {
        if self.in_tail {
            let len = self.inner.uncompressed_buffer.len() - self.pos;
            (len, Some(len))
        } else {
            proof {
                lemma_rest_len(self.inner.chunks(), CHUNK_ELEMS, self.chunk_idx as int);
                assert(self.chunk_idx * CHUNK_ELEMS + (self.inner.chunks().len() - self.chunk_idx)
                    * CHUNK_ELEMS == self.inner.chunks().len() * CHUNK_ELEMS) by (nonlinear_arith);
            }
            let len = self.staged.len() - self.pos;
            let compressed_len = (self.inner.compressed_storage.len() - self.chunk_idx) * CHUNK_ELEMS;
            let uncompressed_len = self.inner.uncompressed_buffer.len();
            (len + compressed_len + uncompressed_len, Some(len + compressed_len + uncompressed_len))
        }
    }
}

/// The chunks from `from` on hold `chunk_elems` elements each.
proof fn lemma_rest_len(chunks: Seq<Seq<u8>>, chunk_elems: usize, from: int)
    requires
        super::model::well_chunked(chunks, chunk_elems),
        0 <= from <= chunks.len(),
    ensures
        joined(chunks.skip(from)).len() == (chunks.len() - from) * chunk_elems,
        (chunks.len() - from) * chunk_elems <= chunks.len() * chunk_elems,
{
    let rest = chunks.skip(from);
    assert forall|i: int| 0 <= i < rest.len() implies chunk_line(
        #[trigger] rest[i],
        chunk_elems,
    ) is Ok by {
        assert(rest[i] == chunks[from + i]);
    }
    super::model::lemma_joined_len(rest, chunk_elems);
    assert((chunks.len() - from) * chunk_elems <= chunks.len() * chunk_elems) by (nonlinear_arith)
        requires
            0 <= from <= chunks.len(),
            chunk_elems >= 0,
    ;
}

} // verus!
