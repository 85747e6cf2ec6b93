//! A double-ended queue that compresses what lies between its two ends.

use vstd::prelude::*;
use std::collections::VecDeque;
use crate::batches::{
    all_filled, batch, joined, lemma_joined_add, lemma_joined_one, lemma_joined_push,
    lemma_joined_skip,
};
use crate::chunk_size::ChunkSize;
use crate::compression::{compress, decoded, decompress, lemma_bytes_deep_view};

verus! {

broadcast use lemma_bytes_deep_view;

/// A double-ended queue whose elements are compressed in chunks once enough
/// of them have been pushed at one end. The view is the sequence of its
/// elements from the front to the back.
#[derive(Eq, PartialEq, Ord, PartialOrd, Hash, Debug)]
pub struct Deque {
    uncompressed_buffer_front: VecDeque<Vec<u8>>,
    uncompressed_buffer_back: VecDeque<Vec<u8>>,
    compressed_storage: VecDeque<Vec<u8>>,
    chunk_size: usize,
    compression_level: i32,
    length: usize,
}

impl View for Deque {
    type V = Seq<Seq<u8>>;

    /// The elements of the deque: those that lie uncompressed at the front,
    /// those of the chunks, and those that lie uncompressed at the back.
    open spec fn view(&self) -> Seq<Seq<u8>> {
        self.front() + joined(self.chunks()) + self.back()
    }
}

/// Moves the elements of a buffer into a vector, in their order.
fn drain(buffer: &mut VecDeque<Vec<u8>>) -> (out: Vec<Vec<u8>>)
    ensures
        out.deep_view() == old(buffer).deep_view(),
        final(buffer)@.len() == 0,
{
    let mut out: Vec<Vec<u8>> = Vec::new();
    let ghost all = buffer.deep_view();
    while buffer.len() > 0
        invariant
            out.deep_view() + buffer.deep_view() == all,
        decreases buffer.len(),
    {
        let ghost rest = buffer.deep_view();
        let ghost moved = out.deep_view();
        if let Some(x) = buffer.pop_front() {
            out.push(x);
            assert(out.deep_view() + buffer.deep_view() =~= moved + rest);
        }
    }
    assert(out.deep_view() =~= all);
    out
}

/// A copy of a buffer.
fn clone_buffer(buffer: &VecDeque<Vec<u8>>) -> (out: VecDeque<Vec<u8>>)
    ensures
        out.deep_view() == buffer.deep_view(),
{
    let mut out: VecDeque<Vec<u8>> = VecDeque::new();
    let mut i: usize = 0;
    while i < buffer.len()
        invariant
            i <= buffer.len(),
            out.deep_view() == buffer.deep_view().take(i as int),
        decreases buffer.len() - i,
    {
        let ghost copied = out.deep_view();
        let item = buffer[i].clone();
        out.push_back(item);
        i += 1;
        assert(out.deep_view() =~= copied.push(item@));
        assert(out.deep_view() =~= buffer.deep_view().take(i as int));
    }
    assert(buffer.deep_view().take(buffer.len() as int) =~= buffer.deep_view());
    out
}

/// Moves the elements of a vector into a buffer, in their order.
fn refill(items: Vec<Vec<u8>>) -> (out: VecDeque<Vec<u8>>)
    ensures
        out.deep_view() == items.deep_view(),
{
    let mut out: VecDeque<Vec<u8>> = VecDeque::new();
    let ghost all = items.deep_view();
    for item in it: items
        invariant
            it.seq().len() == all.len(),
            forall|k: int| 0 <= k < all.len() ==> (#[trigger] it.seq()[k])@ == all[k],
            out.deep_view() == all.take(it.index() as int),
    {
        let ghost moved = out.deep_view();
        out.push_back(item);
        assert(out.deep_view() =~= moved.push(item@));
        assert(all.take(it.index() + 1) =~= all.take(it.index() as int).push(item@));
    }
    assert(all.take(all.len() as int) =~= all);
    out
}

impl Deque {
    /// The elements that lie uncompressed at the front.
    pub closed spec fn front(&self) -> Seq<Seq<u8>> {
        self.uncompressed_buffer_front.deep_view()
    }

    /// The compressed chunks, from the front to the back.
    pub closed spec fn chunks(&self) -> Seq<Seq<u8>> {
        self.compressed_storage.deep_view()
    }

    /// The elements that lie uncompressed at the back.
    pub closed spec fn back(&self) -> Seq<Seq<u8>> {
        self.uncompressed_buffer_back.deep_view()
    }

    /// The invariant of the deque: every chunk holds an element, and the
    /// recorded length is the number of elements.
    pub closed spec fn wf(&self) -> bool {
        &&& all_filled(self.compressed_storage.deep_view())
        &&& self.length == self@.len()
    }

    /// The number of uncompressed elements at one end at which they are
    /// compressed.
    pub closed spec fn chunk_size(&self) -> usize {
        self.chunk_size
    }

    /// The brotli quality at which chunks are compressed.
    pub closed spec fn compression_level(&self) -> i32 {
        self.compression_level
    }

    /// An empty deque with chunks of ten mebibytes, compressed at quality 0.
    pub fn new() -> (out: Deque)
        ensures
            out.wf(),
            out@ == Seq::<Seq<u8>>::empty(),
            out.front() == Seq::<Seq<u8>>::empty(),
            out.chunks() == Seq::<Seq<u8>>::empty(),
            out.back() == Seq::<Seq<u8>>::empty(),
            out.chunk_size() == ChunkSize::Default.spec_elements(
                vstd::layout::size_of::<Vec<u8>>() as usize,
            ),
            out.compression_level() == 0,
    {
        Deque::new_with_options(ChunkSize::Default, 0)
    }

    /// An empty deque with chunks of the size `chunksize`, compressed at
    /// brotli quality `compression_level`. A size in bytes is counted in
    /// elements by the room that one element takes in a buffer.
    pub fn new_with_options(chunksize: ChunkSize, compression_level: i32) -> (out: Deque)
        requires
            chunksize.fits(),
        ensures
            out.wf(),
            out@ == Seq::<Seq<u8>>::empty(),
            out.front() == Seq::<Seq<u8>>::empty(),
            out.chunks() == Seq::<Seq<u8>>::empty(),
            out.back() == Seq::<Seq<u8>>::empty(),
            out.chunk_size() == chunksize.spec_elements(vstd::layout::size_of::<Vec<u8>>() as usize),
            out.compression_level() == compression_level,
    {
        let elementsize = core::mem::size_of::<Vec<u8>>();
        let chunk_size = chunksize.elements(elementsize);
        let uncompressed_buffer_front = VecDeque::new();
        let uncompressed_buffer_back = VecDeque::new();
        let compressed_storage = VecDeque::new();
        let length: usize = 0;
        let out = Deque {
            uncompressed_buffer_front,
            uncompressed_buffer_back,
            compressed_storage,
            chunk_size,
            compression_level,
            length,
        };
        proof {
            assert(out.compressed_storage.deep_view() =~= Seq::empty());
            assert(out@ =~= Seq::empty());
        }
        out
    }

    /// Appends `value` at the back. Once `chunk_size` elements lie
    /// uncompressed at the back they are compressed into one chunk.
    pub fn push_back(&mut self, value: Vec<u8>)
        requires
            old(self).wf(),
            old(self)@.len() < usize::MAX,
        ensures
            final(self).wf(),
            final(self)@ == old(self)@.push(value@),
            final(self).chunk_size() == old(self).chunk_size(),
            final(self).compression_level() == old(self).compression_level(),
            final(self).front() == old(self).front(),
            if old(self).back().len() + 1 >= old(self).chunk_size() {
                &&& final(self).chunks().len() == old(self).chunks().len() + 1
                &&& final(self).chunks().drop_last() == old(self).chunks()
                &&& batch(final(self).chunks().last()) == old(self).back().push(value@)
                &&& final(self).back() == Seq::<Seq<u8>>::empty()
            } else {
                &&& final(self).chunks() == old(self).chunks()
                &&& final(self).back() == old(self).back().push(value@)
            },
    {
        let ghost front = self.uncompressed_buffer_front.deep_view();
        let ghost chunks = self.compressed_storage.deep_view();
        let ghost back = self.uncompressed_buffer_back.deep_view();
        self.uncompressed_buffer_back.push_back(value);
        self.length += 1;
        assert(self.uncompressed_buffer_back.deep_view() =~= back.push(value@));
        if self.uncompressed_buffer_back.len() >= self.chunk_size {
            let items = drain(&mut self.uncompressed_buffer_back);
            let compressed = compress(&items, self.compression_level);
            self.compressed_storage.push_back(compressed);
            proof {
                assert(self.compressed_storage.deep_view() =~= chunks.push(compressed@));
                assert(self.compressed_storage.deep_view().drop_last() =~= chunks);
                assert(self.uncompressed_buffer_back.deep_view() =~= Seq::empty());
                lemma_joined_push(chunks, compressed@);
            }
        }
        assert(self@ =~= old(self)@.push(value@));
    }

    /// Puts `value` before the front. Once `chunk_size` elements lie
    /// uncompressed at the front they are compressed into one chunk.
    pub fn push_front(&mut self, value: Vec<u8>)
        requires
            old(self).wf(),
            old(self)@.len() < usize::MAX,
        ensures
            final(self).wf(),
            final(self)@ == seq![value@] + old(self)@,
            final(self).chunk_size() == old(self).chunk_size(),
            final(self).compression_level() == old(self).compression_level(),
            final(self).back() == old(self).back(),
            if old(self).front().len() + 1 >= old(self).chunk_size() {
                &&& final(self).chunks().len() == old(self).chunks().len() + 1
                &&& final(self).chunks().drop_first() == old(self).chunks()
                &&& batch(final(self).chunks().first()) == seq![value@] + old(self).front()
                &&& final(self).front() == Seq::<Seq<u8>>::empty()
            } else {
                &&& final(self).chunks() == old(self).chunks()
                &&& final(self).front() == seq![value@] + old(self).front()
            },
    {
        let ghost front = self.uncompressed_buffer_front.deep_view();
        let ghost chunks = self.compressed_storage.deep_view();
        let ghost back = self.uncompressed_buffer_back.deep_view();
        self.uncompressed_buffer_front.push_front(value);
        self.length += 1;
        assert(self.uncompressed_buffer_front.deep_view() =~= seq![value@] + front);
        if self.uncompressed_buffer_front.len() >= self.chunk_size {
            let items = drain(&mut self.uncompressed_buffer_front);
            let compressed = compress(&items, self.compression_level);
            self.compressed_storage.push_front(compressed);
            proof {
                assert(self.compressed_storage.deep_view() =~= seq![compressed@] + chunks);
                assert(self.compressed_storage.deep_view().drop_first() =~= chunks);
                assert(self.uncompressed_buffer_front.deep_view() =~= Seq::empty());
                lemma_joined_add(seq![compressed@], chunks);
                lemma_joined_one(compressed@);
            }
        }
        assert(self@ =~= seq![value@] + old(self)@);
    }

    /// Removes the last element and returns it; `None` where the deque is
    /// empty.
    pub fn pop_back(&mut self) -> (out: Option<Vec<u8>>)
        requires
            old(self).wf(),
        ensures
            final(self).wf(),
            final(self).chunk_size() == old(self).chunk_size(),
            final(self).compression_level() == old(self).compression_level(),
            match out {
                Some(value) => old(self)@.len() > 0 && value@ == old(self)@.last() && final(self)@
                    == old(self)@.drop_last(),
                None => old(self)@.len() == 0 && final(self)@ == old(self)@,
            },
            if old(self).back().len() > 0 {
                &&& final(self).front() == old(self).front()
                &&& final(self).chunks() == old(self).chunks()
                &&& final(self).back() == old(self).back().drop_last()
            } else if old(self).chunks().len() > 0 {
                &&& final(self).front() == old(self).front()
                &&& final(self).chunks() == old(self).chunks().drop_last()
                &&& final(self).back() == batch(old(self).chunks().last()).drop_last()
            } else {
                &&& final(self).front() == Seq::<Seq<u8>>::empty()
                &&& final(self).chunks() == old(self).chunks()
                &&& final(self).back() == if old(self).front().len() > 0 {
                    old(self).front().drop_last()
                } else {
                    old(self).front()
                }
            },
    {
        let ghost chunks = self.compressed_storage.deep_view();
        if self.uncompressed_buffer_back.len() == 0 {
            assert(self.uncompressed_buffer_back.deep_view() =~= Seq::empty());
            if let Some(x) = self.compressed_storage.pop_back() {
                proof {
                    assert(self.compressed_storage.deep_view() =~= chunks.drop_last());
                    assert(decoded(chunks[chunks.len() - 1]) is Some);
                    assert(joined(chunks) =~= joined(chunks.drop_last()) + batch(chunks.last()));
                }
                if let Ok(items) = decompress(x.as_slice()) {
                    self.uncompressed_buffer_back = refill(items);
                }
            } else {
                core::mem::swap(
                    &mut self.uncompressed_buffer_back,
                    &mut self.uncompressed_buffer_front,
                );
                assert(self.uncompressed_buffer_front.deep_view() =~= Seq::empty());
            }
        }
        let ghost back = self.uncompressed_buffer_back.deep_view();
        assert(self@ =~= old(self)@);
        let result = self.uncompressed_buffer_back.pop_back();
        if result.is_some() {
            self.length -= 1;
        }
        proof {
            if back.len() > 0 {
                assert(self.uncompressed_buffer_back.deep_view() =~= back.drop_last());
                assert(self@ =~= old(self)@.drop_last());
                assert(result->Some_0@ =~= back.last());
            }
        }
        result
    }

    /// Removes the first element and returns it; `None` where the deque is
    /// empty.
    pub fn pop_front(&mut self) -> (out: Option<Vec<u8>>)
        requires
            old(self).wf(),
        ensures
            final(self).wf(),
            match out {
                Some(value) => old(self)@.len() > 0 && value@ == old(self)@.first() && final(self)@
                    == old(self)@.drop_first(),
                None => old(self)@.len() == 0 && final(self)@ == old(self)@,
            },
            final(self).chunk_size() == old(self).chunk_size(),
            final(self).compression_level() == old(self).compression_level(),
            if old(self).front().len() > 0 {
                &&& final(self).front() == old(self).front().drop_first()
                &&& final(self).chunks() == old(self).chunks()
                &&& final(self).back() == old(self).back()
            } else if old(self).chunks().len() > 0 {
                &&& final(self).front() == batch(old(self).chunks().first()).drop_first()
                &&& final(self).chunks() == old(self).chunks().drop_first()
                &&& final(self).back() == old(self).back()
            } else {
                &&& final(self).front() == if old(self).back().len() > 0 {
                    old(self).back().drop_first()
                } else {
                    old(self).back()
                }
                &&& final(self).chunks() == old(self).chunks()
                &&& final(self).back() == Seq::<Seq<u8>>::empty()
            },
    {
        let ghost chunks = self.compressed_storage.deep_view();
        if self.uncompressed_buffer_front.len() == 0 {
            assert(self.uncompressed_buffer_front.deep_view() =~= Seq::empty());
            if let Some(x) = self.compressed_storage.pop_front() {
                proof {
                    assert(self.compressed_storage.deep_view() =~= chunks.drop_first());
                    assert(decoded(chunks[0]) is Some);
                    lemma_joined_skip(chunks, 0);
                    assert(chunks.skip(0) =~= chunks);
                    assert(chunks.skip(1) =~= chunks.drop_first());
                }
                if let Ok(items) = decompress(x.as_slice()) {
                    self.uncompressed_buffer_front = refill(items);
                }
            } else {
                core::mem::swap(
                    &mut self.uncompressed_buffer_front,
                    &mut self.uncompressed_buffer_back,
                );
                assert(self.uncompressed_buffer_back.deep_view() =~= Seq::empty());
            }
        }
        let ghost front = self.uncompressed_buffer_front.deep_view();
        assert(self@ =~= old(self)@);
        let result = self.uncompressed_buffer_front.pop_front();
        if result.is_some() {
            self.length -= 1;
        }
        proof {
            if front.len() > 0 {
                assert(self.uncompressed_buffer_front.deep_view() =~= front.drop_first());
                assert(self@ =~= old(self)@.drop_first());
                assert(result->Some_0@ =~= front.first());
            }
        }
        result
    }

    /// The number of elements.
    pub fn len(&self) -> (out: usize)
        requires
            self.wf(),
        ensures
            out == self@.len(),
    {
        self.length
    }

    /// Whether the deque holds no element.
    pub fn is_empty(&self) -> (out: bool)
        requires
            self.wf(),
        ensures
            out <==> self@.len() == 0,
    {
        self.length == 0
    }

    /// Removes the first element and returns it: a deque is walked from the
    /// front, and the walk empties it.
    pub fn next(&mut self) -> (out: Option<Vec<u8>>)
        requires
            old(self).wf(),
        ensures
            final(self).wf(),
            match out {
                Some(value) => old(self)@.len() > 0 && value@ == old(self)@.first() && final(self)@
                    == old(self)@.drop_first(),
                None => old(self)@.len() == 0 && final(self)@ == old(self)@,
            },
            final(self).chunk_size() == old(self).chunk_size(),
            final(self).compression_level() == old(self).compression_level(),
            if old(self).front().len() > 0 {
                &&& final(self).front() == old(self).front().drop_first()
                &&& final(self).chunks() == old(self).chunks()
                &&& final(self).back() == old(self).back()
            } else if old(self).chunks().len() > 0 {
                &&& final(self).front() == batch(old(self).chunks().first()).drop_first()
                &&& final(self).chunks() == old(self).chunks().drop_first()
                &&& final(self).back() == old(self).back()
            } else {
                &&& final(self).front() == if old(self).back().len() > 0 {
                    old(self).back().drop_first()
                } else {
                    old(self).back()
                }
                &&& final(self).chunks() == old(self).chunks()
                &&& final(self).back() == Seq::<Seq<u8>>::empty()
            },
    {
        self.pop_front()
    }

    /// The deque that results from appending the elements of `iter`, in
    /// their order, to an empty one.
    pub fn from_iter(iter: Vec<Vec<u8>>) -> (out: Deque)
        ensures
            out.wf(),
            out@ == iter.deep_view(),
    {
        let mut c = Deque::new();
        let ghost all = iter.deep_view();
        assert(all.len() == iter.len());
        for i in it: iter
            invariant
                c.wf(),
                all.len() <= usize::MAX,
                it.seq().len() == all.len(),
                forall|k: int| 0 <= k < all.len() ==> (#[trigger] it.seq()[k])@ == all[k],
                c@ == all.take(it.index() as int),
        {
            proof {
                assert(all.take(it.index() + 1) =~= all.take(it.index() as int).push(i@));
            }
            c.push_back(i);
        }
        proof {
            assert(all.take(all.len() as int) =~= all);
        }
        c
    }
}

impl Clone for Deque {
    /// A copy of the deque: the same chunks, the same uncompressed elements
    /// at both ends and the same options.
    fn clone(&self) -> (out: Deque)
        ensures
            out@ == self@,
            out.front() == self.front(),
            out.chunks() == self.chunks(),
            out.back() == self.back(),
            out.chunk_size() == self.chunk_size(),
            out.compression_level() == self.compression_level(),
            out.wf() == self.wf(),
    {
        Deque {
            uncompressed_buffer_front: clone_buffer(&self.uncompressed_buffer_front),
            uncompressed_buffer_back: clone_buffer(&self.uncompressed_buffer_back),
            compressed_storage: clone_buffer(&self.compressed_storage),
            chunk_size: self.chunk_size,
            compression_level: self.compression_level,
            length: self.length,
        }
    }
}

impl Default for Deque {
    /// An empty deque with chunks of ten mebibytes, compressed at quality 0.
    fn default() -> (out: Deque)
        ensures
            out.wf(),
            out@ == Seq::<Seq<u8>>::empty(),
    {
        Self::new()
    }
}

} // verus!
