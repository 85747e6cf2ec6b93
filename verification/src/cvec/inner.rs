//! The data of a chunked compressing vector.

use vstd::prelude::*;
use super::cache::Cache;

verus! {

/// A vector that keeps its last elements uncompressed and all elements before
/// them in compressed chunks of `CHUNK_ELEMS` elements each, with a cache of
/// kind `C` for reads that fall into a chunk.
pub struct CVec<const CHUNK_ELEMS: usize, const COMPRESSION_LEVEL: u32, C: Cache> {
    pub(super) compressed_storage: Vec<Vec<u8>>,
    pub(super) uncompressed_buffer: Vec<Vec<u8>>,
    pub(super) cache: C,
}

} // verus!
