//! Collections that keep their most recent elements in memory as they are and
//! hold older elements in compressed chunks.
//!
//! An element is a byte string: the serialized form of whatever the caller
//! stores. Every container is described by the sequence of elements it holds,
//! and each operation states its effect on that sequence.

pub mod batches;
pub mod chunk_size;
pub mod compression;
pub mod cvec;
pub mod deque;
pub mod stack;

pub use chunk_size::ChunkSize;
pub use compression::{compress, decompress, DecodeError};
pub use cvec::cache::{
    Cache, CacheAccess, CacheLine, Cached, Entry, EntryRef, RcCacheAccess, RcCached, Uncached,
};
pub use cvec::model::Stored;
pub use cvec::order::Order;
pub use cvec::summary::{size_in_units, SizeUnit};
pub use cvec::{CVec, CVecIntoIter, CVecIntoIterUncached, CVecIter, CVecRc, CVecUncached, Value};
pub use deque::Deque;
pub use stack::Stack;
