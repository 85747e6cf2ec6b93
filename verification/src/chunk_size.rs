//! How the size of a chunk is chosen.

use vstd::prelude::*;

verus! {

/// The size of the chunks of a container: a number of elements, or an amount
/// of memory that the uncompressed elements of one chunk may take.
#[derive(Clone, Copy, Debug, PartialEq, Eq, Structural)]
pub enum ChunkSize {
    /// So many elements.
    SizeElements(usize),
    /// As many elements as take so many bytes.
    SizeBytes(usize),
    /// As many elements as take so many mebibytes.
    SizeMB(usize),
    /// As many elements as take ten mebibytes.
    Default,
}

/// How many elements of `element_size` bytes each fit into `bytes` bytes:
/// any number where an element takes no room.
pub open spec fn elements_in(bytes: int, element_size: int) -> int {
    if element_size == 0 {
        usize::MAX as int
    } else {
        bytes / element_size
    }
}

impl ChunkSize {
    /// Whether the size can be counted in bytes on this machine.
    pub open spec fn fits(self) -> bool {
        self matches ChunkSize::SizeMB(x) ==> x * 1024 * 1024 <= usize::MAX
    }

    /// The number of elements of `element_size` bytes each in a chunk of
    /// this size.
    pub open spec fn spec_elements(self, element_size: usize) -> int {
        match self {
            ChunkSize::SizeElements(x) => x as int,
            ChunkSize::SizeBytes(x) => elements_in(x as int, element_size as int),
            ChunkSize::SizeMB(x) => elements_in(x * 1024 * 1024, element_size as int),
            ChunkSize::Default => elements_in(10int * 1024 * 1024, element_size as int),
        }
    }

    /// The number of elements of `element_size` bytes each in a chunk of
    /// this size.
    pub fn elements(self, element_size: usize) -> (out: usize)
        requires
            self.fits(),
        ensures
            out == self.spec_elements(element_size),
    {
        let bytes: usize = match self {
            ChunkSize::SizeElements(x) => {
                return x;
            },
            ChunkSize::SizeBytes(x) => x,
            ChunkSize::SizeMB(x) => x * 1024 * 1024,
            ChunkSize::Default => 10 * 1024 * 1024,
        };
        if element_size == 0 {
            usize::MAX
        } else {
            bytes / element_size
        }
    }
}

} // verus!
