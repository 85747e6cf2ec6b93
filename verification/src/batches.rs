//! The sequence of elements that a list of compressed batches stands for.

use vstd::prelude::*;
use crate::compression::{decoded, lemma_bytes_deep_view};

verus! {

broadcast use lemma_bytes_deep_view;

/// The elements of one compressed batch; none where the bytes are no batch.
pub open spec fn batch(data: Seq<u8>) -> Seq<Seq<u8>> {
    match decoded(data) {
        Some(items) => items,
        None => Seq::empty(),
    }
}

/// The elements of all batches of a list, in order.
pub open spec fn joined(chunks: Seq<Seq<u8>>) -> Seq<Seq<u8>>
    decreases chunks.len(),
{
    if chunks.len() == 0 {
        Seq::empty()
    } else {
        joined(chunks.drop_last()) + batch(chunks.last())
    }
}

/// Whether every batch of the list decodes and holds an element.
pub open spec fn all_filled(chunks: Seq<Seq<u8>>) -> bool {
    forall|i: int| 0 <= i < chunks.len() ==> (#[trigger] decoded(chunks[i])) is Some && batch(chunks[i]).len() > 0
}

/// Appending a batch appends its elements.
pub proof fn lemma_joined_push(chunks: Seq<Seq<u8>>, data: Seq<u8>)
    ensures
        joined(chunks.push(data)) == joined(chunks) + batch(data),
{
    assert(chunks.push(data).drop_last() =~= chunks);
}

/// The elements of two lists of batches, one after the other.
pub proof fn lemma_joined_add(front: Seq<Seq<u8>>, back: Seq<Seq<u8>>)
    ensures
        joined(front + back) == joined(front) + joined(back),
    decreases back.len(),
{
    if back.len() > 0 {
        lemma_joined_add(front, back.drop_last());
        assert((front + back).drop_last() =~= front + back.drop_last());
    }
}

/// The elements of a list of one batch.
pub proof fn lemma_joined_one(data: Seq<u8>)
    ensures
        joined(seq![data]) == batch(data),
{
    reveal_with_fuel(joined, 2);
}

/// The elements of the batches from `from` on: those of batch `from`, then
/// those of the batches after it.
pub proof fn lemma_joined_skip(chunks: Seq<Seq<u8>>, from: int)
    requires
        0 <= from < chunks.len(),
    ensures
        joined(chunks.skip(from)) == batch(chunks[from]) + joined(chunks.skip(from + 1)),
{
    let head = seq![chunks[from]];
    assert(chunks.skip(from) =~= head + chunks.skip(from + 1));
    lemma_joined_add(head, chunks.skip(from + 1));
    lemma_joined_one(chunks[from]);
}

/// A copy of a list of byte strings.
pub(crate) fn clone_items(items: &Vec<Vec<u8>>) -> (out: Vec<Vec<u8>>)
    ensures
        out.deep_view() == items.deep_view(),
{
    let mut out: Vec<Vec<u8>> = Vec::new();
    let mut i: usize = 0;
    while i < items.len()
        invariant
            i <= items.len(),
            out.deep_view() == items.deep_view().take(i as int),
        decreases items.len() - i,
    {
        let ghost copied = out.deep_view();
        let item = items[i].clone();
        out.push(item);
        i += 1;
        assert(out.deep_view() =~= copied.push(item@));
    }
    out
}

} // verus!
