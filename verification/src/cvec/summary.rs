//! What a chunked vector can tell about itself without decoding a chunk, and
//! copies and comparisons of its stored form.

use vstd::prelude::*;
use super::cache::Cache;
use super::inner::CVec as CVecInner;
use crate::batches::clone_items;
use crate::compression::lemma_bytes_deep_view;

verus! {

broadcast use lemma_bytes_deep_view;

/// The unit in which an amount of memory is shown.
#[derive(Clone, Copy, Debug, PartialEq, Eq, Structural)]
pub enum SizeUnit {
    B,
    KB,
    MB,
    GB,
}

/// An amount of bytes in the unit in which it is shown: bytes below 4 KB,
/// whole kilobytes below 4 MB, whole megabytes below 4 GB, and whole
/// gigabytes from there on, a kilobyte being 1024 bytes and so on.
pub open spec fn size_label(bytes: usize) -> (usize, SizeUnit) {
    if bytes < 4 * 1024 {
        (bytes, SizeUnit::B)
    } else if bytes < 4 * 1024 * 1024 {
        ((bytes / 1024) as usize, SizeUnit::KB)
    } else if bytes < 4 * 1024 * 1024 * 1024 {
        ((bytes / 1024 / 1024) as usize, SizeUnit::MB)
    } else {
        ((bytes / 1024 / 1024 / 1024) as usize, SizeUnit::GB)
    }
}

/// The total length of the byte strings of a list.
pub open spec fn total_len(chunks: Seq<Seq<u8>>) -> nat
    decreases chunks.len(),
{
    if chunks.len() == 0 {
        0
    } else {
        total_len(chunks.drop_last()) + chunks.last().len()
    }
}

/// An amount of bytes in the unit in which it is shown.
pub fn size_in_units(compressed_bytes: usize) -> (out: (usize, SizeUnit))
    ensures
        out == size_label(compressed_bytes),
{
    let cb_kb = compressed_bytes / 1024;
    let mb = cb_kb / 1024;
    let gb = mb / 1024;
    if gb == 0 && mb == 0 && cb_kb < 4 {
        (compressed_bytes, SizeUnit::B)
    } else if gb == 0 && mb < 4 {
        (cb_kb, SizeUnit::KB)
    } else if gb < 4 {
        (mb, SizeUnit::MB)
    } else {
        (gb, SizeUnit::GB)
    }
}

/// Whether two byte strings are the same.
fn same_bytes(a: &Vec<u8>, b: &Vec<u8>) -> (out: bool)
    ensures
        out <==> a@ == b@,
{
    if a.len() != b.len() {
        return false;
    }
    let mut i: usize = 0;
    while i < a.len()
        invariant
            i <= a.len(),
            a.len() == b.len(),
            forall|k: int| 0 <= k < i ==> a@[k] == b@[k],
        decreases a.len() - i,
    {
        if a[i] != b[i] {
            return false;
        }
        i += 1;
    }
    assert(a@ =~= b@);
    true
}

/// Whether two lists of byte strings are the same.
fn same_items(a: &Vec<Vec<u8>>, b: &Vec<Vec<u8>>) -> (out: bool)
    ensures
        out <==> a.deep_view() == b.deep_view(),
{
    if a.len() != b.len() {
        assert(a.deep_view().len() != b.deep_view().len());
        return false;
    }
    let mut i: usize = 0;
    while i < a.len()
        invariant
            i <= a.len(),
            a.len() == b.len(),
            forall|k: int| 0 <= k < i ==> a.deep_view()[k] == b.deep_view()[k],
        decreases a.len() - i,
    {
        if !same_bytes(&a[i], &b[i]) {
            assert(a.deep_view()[i as int] != b.deep_view()[i as int]);
            return false;
        }
        i += 1;
    }
    assert(a.deep_view() =~= b.deep_view());
    true
}

impl<const CHUNK_ELEMS: usize, const COMPRESSION_LEVEL: u32, C: Cache> CVecInner<
    CHUNK_ELEMS,
    COMPRESSION_LEVEL,
    C,
> {
    /// The number of elements that lie in compressed chunks.
    pub fn compressed_elems(&self) -> (out: usize)
        requires
            self.wf(),
        ensures
            out == self.chunks().len() * CHUNK_ELEMS,
            out <= self@.len(),
    {
        proof {
            self.lemma_len();
        }
        self.compressed_storage.len() * CHUNK_ELEMS
    }

    /// The number of bytes that the compressed chunks take, or `usize::MAX`
    /// where a `usize` does not hold that number.
    pub fn compressed_bytes(&self) -> (out: usize)
        ensures
            out == if total_len(self.chunks()) <= usize::MAX {
                total_len(self.chunks())
            } else {
                usize::MAX as nat
            },
    {
        let ghost chunks = self.chunks();
        let mut total: usize = 0;
        let mut i: usize = 0;
        while i < self.compressed_storage.len()
            invariant
                i <= self.compressed_storage.len(),
                chunks == self.compressed_storage.deep_view(),
                total == if total_len(chunks.take(i as int)) <= usize::MAX {
                    total_len(chunks.take(i as int))
                } else {
                    usize::MAX as nat
                },
            decreases self.compressed_storage.len() - i,
        {
            proof {
                assert(chunks.take(i + 1).drop_last() =~= chunks.take(i as int));
            }
            total = total.saturating_add(self.compressed_storage[i].len());
            i += 1;
        }
        proof {
            assert(chunks.take(chunks.len() as int) =~= chunks);
        }
        total
    }

    /// A copy of the vector, with an empty cache.
    pub fn clone(&self) -> (out: Self)
        requires
            self.wf(),
        ensures
            out.wf(),
            out@ == self@,
            out.chunks() == self.chunks(),
            out.tail() == self.tail(),
            out.cache().line() is None,
    {
        let compressed_storage = clone_items(&self.compressed_storage);
        let uncompressed_buffer = clone_items(&self.uncompressed_buffer);
        let mut cache = C::fresh();
        cache.resync(
            compressed_storage.len(),
            Ghost(Seq::empty()),
            Ghost(compressed_storage.deep_view()),
        );
        CVecInner { compressed_storage, uncompressed_buffer, cache }
    }

    /// Whether two vectors have the same stored form: the same chunks, byte
    /// for byte, and the same tail. Vectors with the same stored form hold
    /// the same elements.
    pub fn eq(&self, other: &Self) -> (out: bool)
        ensures
            out <==> self.chunks() == other.chunks() && self.tail() == other.tail(),
            out ==> self@ == other@,
    {
        same_items(&self.compressed_storage, &other.compressed_storage) && same_items(
            &self.uncompressed_buffer,
            &other.uncompressed_buffer,
        )
    }
}

} // verus!
