//! A stack that compresses what lies below its top.

use vstd::prelude::*;
use crate::batches::{all_filled, batch, clone_items, joined, lemma_joined_push};
use crate::chunk_size::ChunkSize;
use crate::compression::{compress, decompress, lemma_bytes_deep_view};

verus! {

broadcast use lemma_bytes_deep_view;

/// A stack whose elements are compressed in chunks once enough of them have
/// been pushed. The view is the sequence of its elements, the top last.
#[derive(Eq, PartialEq, Ord, PartialOrd, Hash, Debug)]
pub struct Stack {
    uncompressed_buffer: Vec<Vec<u8>>,
    compressed_storage: Vec<Vec<u8>>,
    chunk_size: usize,
    compression_level: i32,
    length: usize,
}

impl View for Stack {
    type V = Seq<Seq<u8>>;

    /// The elements of the stack: those of the chunks, then those that lie
    /// uncompressed.
    open spec fn view(&self) -> Seq<Seq<u8>> {
        joined(self.chunks()) + self.buffer()
    }
}

impl Stack {
    /// The compressed chunks, oldest first.
    pub closed spec fn chunks(&self) -> Seq<Seq<u8>> {
        self.compressed_storage.deep_view()
    }

    /// The elements that lie uncompressed, which are on top of those of the
    /// chunks.
    pub closed spec fn buffer(&self) -> Seq<Seq<u8>> {
        self.uncompressed_buffer.deep_view()
    }

    /// The invariant of the stack: every chunk holds an element, and the
    /// recorded length is the number of elements.
    pub closed spec fn wf(&self) -> bool {
        &&& all_filled(self.compressed_storage.deep_view())
        &&& self.length == self@.len()
    }

    /// The number of uncompressed elements at which they are compressed.
    pub closed spec fn chunk_size(&self) -> usize {
        self.chunk_size
    }

    /// The brotli quality at which chunks are compressed.
    pub closed spec fn compression_level(&self) -> i32 {
        self.compression_level
    }

    /// An empty stack with chunks of ten mebibytes, compressed at quality 0.
    pub fn new() -> (out: Stack)
        ensures
            out.wf(),
            out@ == Seq::<Seq<u8>>::empty(),
            out.chunks() == Seq::<Seq<u8>>::empty(),
            out.buffer() == Seq::<Seq<u8>>::empty(),
            out.chunk_size() == ChunkSize::Default.spec_elements(
                vstd::layout::size_of::<Vec<u8>>() as usize,
            ),
            out.compression_level() == 0,
    {
        Stack::new_with_options(ChunkSize::Default, 0)
    }

    /// An empty stack with chunks of the size `chunksize`, compressed at
    /// brotli quality `compression_level`. A size in bytes is counted in
    /// elements by the room that one element takes in the buffer.
    pub fn new_with_options(chunksize: ChunkSize, compression_level: i32) -> (out: Stack)
        requires
            chunksize.fits(),
        ensures
            out.wf(),
            out@ == Seq::<Seq<u8>>::empty(),
            out.chunks() == Seq::<Seq<u8>>::empty(),
            out.buffer() == Seq::<Seq<u8>>::empty(),
            out.chunk_size() == chunksize.spec_elements(vstd::layout::size_of::<Vec<u8>>() as usize),
            out.compression_level() == compression_level,
    {
        let elementsize = core::mem::size_of::<Vec<u8>>();
        let chunk_size = chunksize.elements(elementsize);
        let uncompressed_buffer = Vec::new();
        let compressed_storage = Vec::new();
        let length: usize = 0;
        let out = Stack {
            uncompressed_buffer,
            compressed_storage,
            chunk_size,
            compression_level,
            length,
        };
        proof {
            assert(out.compressed_storage.deep_view() =~= Seq::empty());
            assert(out@ =~= Seq::empty());
        }
        out
    }

    /// Pushes `value`. Once `chunk_size` elements lie uncompressed they are
    /// compressed into one chunk.
    pub fn push(&mut self, value: Vec<u8>)
        requires
            old(self).wf(),
            old(self)@.len() < usize::MAX,
        ensures
            final(self).wf(),
            final(self)@ == old(self)@.push(value@),
            final(self).chunk_size() == old(self).chunk_size(),
            final(self).compression_level() == old(self).compression_level(),
            if old(self).buffer().len() + 1 >= old(self).chunk_size() {
                &&& final(self).chunks().len() == old(self).chunks().len() + 1
                &&& final(self).chunks().drop_last() == old(self).chunks()
                &&& batch(final(self).chunks().last()) == old(self).buffer().push(value@)
                &&& final(self).buffer() == Seq::<Seq<u8>>::empty()
            } else {
                &&& final(self).chunks() == old(self).chunks()
                &&& final(self).buffer() == old(self).buffer().push(value@)
            },
    {
        let ghost chunks = self.compressed_storage.deep_view();
        let ghost tail = self.uncompressed_buffer.deep_view();
        self.uncompressed_buffer.push(value);
        self.length += 1;
        assert(self.uncompressed_buffer.deep_view() =~= tail.push(value@));
        if self.uncompressed_buffer.len() >= self.chunk_size {
            let compressed = compress(&self.uncompressed_buffer, self.compression_level);
            self.compressed_storage.push(compressed);
            self.uncompressed_buffer.clear();
            proof {
                assert(self.compressed_storage.deep_view() =~= chunks.push(compressed@));
                assert(self.compressed_storage.deep_view().drop_last() =~= chunks);
                assert(self.uncompressed_buffer.deep_view() =~= Seq::empty());
                lemma_joined_push(chunks, compressed@);
            }
        }
        assert(self@ =~= old(self)@.push(value@));
    }

    /// Removes the top element and returns it; `None` where the stack is
    /// empty.
    pub fn pop(&mut self) -> (out: Option<Vec<u8>>)
        requires
            old(self).wf(),
        ensures
            final(self).wf(),
            match out {
                Some(value) => old(self)@.len() > 0 && value@ == old(self)@.last() && final(self)@
                    == old(self)@.drop_last(),
                None => old(self)@.len() == 0 && final(self)@ == old(self)@,
            },
            final(self).chunk_size() == old(self).chunk_size(),
            final(self).compression_level() == old(self).compression_level(),
            if old(self).buffer().len() == 0 && old(self).chunks().len() > 0 {
                &&& final(self).chunks() == old(self).chunks().drop_last()
                &&& final(self).buffer() == batch(old(self).chunks().last()).drop_last()
            } else {
                &&& final(self).chunks() == old(self).chunks()
                &&& final(self).buffer() == if old(self).buffer().len() > 0 {
                    old(self).buffer().drop_last()
                } else {
                    old(self).buffer()
                }
            },
    {
        let ghost chunks = self.compressed_storage.deep_view();
        if self.uncompressed_buffer.is_empty() {
            if let Some(x) = self.compressed_storage.pop() {
                proof {
                    assert(self.compressed_storage.deep_view() =~= chunks.drop_last());
                    assert(crate::compression::decoded(chunks[chunks.len() - 1]) is Some);
                    assert(joined(chunks) =~= joined(chunks.drop_last()) + batch(chunks.last()));
                }
                if let Ok(items) = decompress(x.as_slice()) {
                    self.uncompressed_buffer = items;
                }
            }
        }
        let ghost tail = self.uncompressed_buffer.deep_view();
        assert(joined(self.compressed_storage.deep_view()) + tail =~= old(self)@);
        let result = self.uncompressed_buffer.pop();
        if result.is_some() {
            self.length -= 1;
        }
        proof {
            if tail.len() > 0 {
                assert(self.uncompressed_buffer.deep_view() =~= tail.drop_last());
                assert(self@ =~= old(self)@.drop_last());
                assert(result->Some_0@ =~= tail.last());
            } else {
                assert(chunks.len() == 0);
            }
        }
        result
    }

    /// The number of elements.
    pub fn len(&self) -> (out: usize)
        requires
            self.wf(),
        ensures
            out == self@.len(),
    {
        self.length
    }

    /// Whether the stack holds no element.
    pub fn is_empty(&self) -> (out: bool)
        requires
            self.wf(),
        ensures
            out <==> self@.len() == 0,
    {
        self.length == 0
    }

    /// Removes the top element and returns it: a stack is walked from the
    /// top down, and the walk empties it.
    pub fn next(&mut self) -> (out: Option<Vec<u8>>)
        requires
            old(self).wf(),
        ensures
            final(self).wf(),
            match out {
                Some(value) => old(self)@.len() > 0 && value@ == old(self)@.last() && final(self)@
                    == old(self)@.drop_last(),
                None => old(self)@.len() == 0 && final(self)@ == old(self)@,
            },
            final(self).chunk_size() == old(self).chunk_size(),
            final(self).compression_level() == old(self).compression_level(),
            if old(self).buffer().len() == 0 && old(self).chunks().len() > 0 {
                &&& final(self).chunks() == old(self).chunks().drop_last()
                &&& final(self).buffer() == batch(old(self).chunks().last()).drop_last()
            } else {
                &&& final(self).chunks() == old(self).chunks()
                &&& final(self).buffer() == if old(self).buffer().len() > 0 {
                    old(self).buffer().drop_last()
                } else {
                    old(self).buffer()
                }
            },
    {
        self.pop()
    }

    /// The stack that results from pushing the elements of `iter`, in their
    /// order, on an empty one.
    pub fn from_iter(iter: Vec<Vec<u8>>) -> (out: Stack)
        ensures
            out.wf(),
            out@ == iter.deep_view(),
    {
        let mut c = Stack::new();
        let ghost all = iter.deep_view();
        assert(all.len() == iter.len());
        for i in it: iter
            invariant
                c.wf(),
                all.len() <= usize::MAX,
                it.seq().len() == all.len(),
                forall|k: int| 0 <= k < all.len() ==> (#[trigger] it.seq()[k])@ == all[k],
                c@ == all.take(it.index() as int),
        {
            proof {
                assert(all.take(it.index() + 1) =~= all.take(it.index() as int).push(i@));
            }
            c.push(i);
        }
        proof {
            assert(all.take(all.len() as int) =~= all);
        }
        c
    }
}

impl Clone for Stack {
    /// A copy of the stack: the same chunks, the same uncompressed elements
    /// and the same options.
    fn clone(&self) -> (out: Stack)
        ensures
            out@ == self@,
            out.chunks() == self.chunks(),
            out.buffer() == self.buffer(),
            out.chunk_size() == self.chunk_size(),
            out.compression_level() == self.compression_level(),
            out.wf() == self.wf(),
    {
        Stack {
            uncompressed_buffer: clone_items(&self.uncompressed_buffer),
            compressed_storage: clone_items(&self.compressed_storage),
            chunk_size: self.chunk_size,
            compression_level: self.compression_level,
            length: self.length,
        }
    }
}

impl Default for Stack {
    /// An empty stack with chunks of ten mebibytes, compressed at quality 0.
    fn default() -> (out: Stack)
        ensures
            out.wf(),
            out@ == Seq::<Seq<u8>>::empty(),
    {
        Self::new()
    }
}

} // verus!
