//! The sequence that a chunk list and a tail stand for.

use vstd::prelude::*;
use vstd::arithmetic::div_mod::{lemma_fundamental_div_mod, lemma_fundamental_div_mod_converse};
use crate::batches::{batch, joined};
use crate::compression::{chunk_line, decoded, postcard_items, DecodeError};

verus! {

/// Where an element lies: in a compressed chunk or in the uncompressed tail.
pub enum Stored<A, B> {
    Compressed(A),
    Uncompressed(B),
}

/// Whether every chunk of the list decodes to exactly `chunk_elems` elements.
pub open spec fn well_chunked(chunks: Seq<Seq<u8>>, chunk_elems: usize) -> bool {
    forall|i: int| 0 <= i < chunks.len() ==> chunk_line(#[trigger] chunks[i], chunk_elems) is Ok
}

/// The element at `idx` of a sequence, if there is one.
pub open spec fn lookup(elems: Seq<Seq<u8>>, idx: usize) -> Option<Seq<u8>> {
    if idx < elems.len() {
        Some(elems[idx as int])
    } else {
        None
    }
}

/// One operation on a vector: a push of an element, or a pop.
pub enum Step {
    Push(Seq<u8>),
    Pop,
}

/// What one operation does to a plain sequence: the sequence after it, and
/// the element that it returns, if it returns one.
pub open spec fn reference_step(elems: Seq<Seq<u8>>, step: Step) -> (Seq<Seq<u8>>, Option<Seq<u8>>) {
    match step {
        Step::Push(value) => (elems.push(value), None),
        Step::Pop => if elems.len() > 0 {
            (elems.drop_last(), Some(elems.last()))
        } else {
            (elems, None)
        },
    }
}

/// What a run of operations does to a plain sequence: the sequence after
/// the last of them, and what each of them returns.
pub open spec fn reference_run(elems: Seq<Seq<u8>>, steps: Seq<Step>) -> (
    Seq<Seq<u8>>,
    Seq<Option<Seq<u8>>>,
)
    decreases steps.len(),
{
    if steps.len() == 0 {
        (elems, Seq::empty())
    } else {
        let (next, out) = reference_step(elems, steps.first());
        let (last, outs) = reference_run(next, steps.drop_first());
        (last, seq![out] + outs)
    }
}

/// What `push` and `pop` ensure of one operation on a vector that holds
/// `before`: the elements `after` that it holds then, and what was returned.
pub open spec fn admits(
    before: Seq<Seq<u8>>,
    step: Step,
    out: Option<Seq<u8>>,
    after: Seq<Seq<u8>>,
) -> bool {
    match step {
        Step::Push(value) => after == before.push(value) && out is None,
        Step::Pop => match out {
            Some(value) => before.len() > 0 && value == before.last() && after
                == before.drop_last(),
            None => before.len() == 0 && after == before,
        },
    }
}

/// The rule that finds index `idx` in a vector of `chunk_count` chunks of
/// `chunk_elems` elements and a tail of `tail_len` elements: the chunk and
/// the offset in it, or the offset in the tail, or nothing.
pub open spec fn split_rule(idx: usize, chunk_elems: usize, chunk_count: nat, tail_len: nat) -> Option<
    Stored<(usize, usize), usize>,
> {
    let chunk_idx = idx as int / chunk_elems as int;
    let offset = idx as int % chunk_elems as int;
    if chunk_idx < chunk_count {
        Some(Stored::Compressed((chunk_idx as usize, offset as usize)))
    } else if chunk_idx == chunk_count && offset < tail_len {
        Some(Stored::Uncompressed(offset as usize))
    } else {
        None
    }
}

/// The first fault among the chunks of a list, if one of them is no chunk of
/// `chunk_elems` elements.
pub open spec fn chunks_check(chunks: Seq<Seq<u8>>, chunk_elems: usize) -> Result<(), DecodeError>
    decreases chunks.len(),
{
    if chunks.len() == 0 {
        Ok(())
    } else {
        match chunk_line(chunks.first(), chunk_elems) {
            Err(e) => Err(e),
            Ok(_) => chunks_check(chunks.drop_first(), chunk_elems),
        }
    }
}

/// The chunks and the tail that a snapshot holds, if the bytes are a
/// snapshot: the compressed form of a batch of two byte strings, from which
/// postcard reads the list of chunks and the list of the elements of the
/// tail.
pub open spec fn snapshot_parts(bytes: Seq<u8>) -> Option<(Seq<Seq<u8>>, Seq<Seq<u8>>)> {
    match decoded(bytes) {
        Some(parts) => if parts.len() == 2 {
            match (postcard_items(parts[0]), postcard_items(parts[1])) {
                (Some(chunks), Some(tail)) => Some((chunks, tail)),
                _ => None,
            }
        } else {
            None
        },
        None => None,
    }
}

/// The elements of the vector that a snapshot stands for, at chunks of
/// `chunk_elems` elements, or why the bytes stand for none: they are no
/// snapshot, the tail is not shorter than a chunk, or the length exceeds a
/// `usize` (all three malformed), or a chunk is faulty.
pub open spec fn restored(bytes: Seq<u8>, chunk_elems: usize) -> Result<Seq<Seq<u8>>, DecodeError> {
    match snapshot_parts(bytes) {
        None => Err(DecodeError::Malformed),
        Some((chunks, tail)) => if tail.len() >= chunk_elems || chunks.len() * chunk_elems
            + tail.len() > usize::MAX {
            Err(DecodeError::Malformed)
        } else {
            match chunks_check(chunks, chunk_elems) {
                Err(e) => Err(e),
                Ok(()) => Ok(joined(chunks) + tail),
            }
        },
    }
}

/// A list passes the check exactly if it is well chunked.
pub proof fn lemma_chunks_check(chunks: Seq<Seq<u8>>, chunk_elems: usize)
    ensures
        chunks_check(chunks, chunk_elems) is Ok <==> well_chunked(chunks, chunk_elems),
    decreases chunks.len(),
{
    if chunks.len() > 0 {
        let rest = chunks.drop_first();
        lemma_chunks_check(rest, chunk_elems);
        if well_chunked(chunks, chunk_elems) {
            assert forall|i: int| 0 <= i < rest.len() implies chunk_line(
                #[trigger] rest[i],
                chunk_elems,
            ) is Ok by {
                assert(rest[i] == chunks[i + 1]);
            }
        }
        if chunks_check(chunks, chunk_elems) is Ok {
            assert forall|i: int| 0 <= i < chunks.len() implies chunk_line(
                #[trigger] chunks[i],
                chunk_elems,
            ) is Ok by {
                if i > 0 {
                    assert(chunks[i] == rest[i - 1]);
                }
            }
        }
    }
}

/// A fault in the part of a list that is left to check, after a part that
/// passed, is the fault of the whole list.
pub proof fn lemma_chunks_check_skip(chunks: Seq<Seq<u8>>, chunk_elems: usize, done: int)
    requires
        0 <= done <= chunks.len(),
        forall|i: int| 0 <= i < done ==> chunk_line(#[trigger] chunks[i], chunk_elems) is Ok,
    ensures
        chunks_check(chunks, chunk_elems) == chunks_check(chunks.skip(done), chunk_elems),
    decreases done,
{
    if done == 0 {
        assert(chunks.skip(0) =~= chunks);
    } else {
        lemma_chunks_check_skip(chunks, chunk_elems, done - 1);
        let rest = chunks.skip(done - 1);
        assert(rest.drop_first() =~= chunks.skip(done));
    }
}

/// A well chunked list holds `chunk_elems` elements per chunk.
pub proof fn lemma_joined_len(chunks: Seq<Seq<u8>>, chunk_elems: usize)
    requires
        well_chunked(chunks, chunk_elems),
    ensures
        joined(chunks).len() == chunks.len() * chunk_elems,
    decreases chunks.len(),
{
    if chunks.len() > 0 {
        lemma_joined_len(chunks.drop_last(), chunk_elems);
        assert((chunks.len() - 1) * chunk_elems + chunk_elems == chunks.len() * chunk_elems)
            by (nonlinear_arith);
    }
}

/// In a well chunked list, element `i` is element `i % chunk_elems` of chunk
/// `i / chunk_elems`.
pub proof fn lemma_joined_index(chunks: Seq<Seq<u8>>, chunk_elems: usize, i: int)
    requires
        well_chunked(chunks, chunk_elems),
        chunk_elems > 0,
        0 <= i < chunks.len() * chunk_elems,
    ensures
        0 <= i / (chunk_elems as int) < chunks.len(),
        0 <= i % (chunk_elems as int) < chunk_elems,
        joined(chunks).len() == chunks.len() * chunk_elems,
        joined(chunks)[i] == batch(chunks[i / (chunk_elems as int)])[i % (chunk_elems as int)],
    decreases chunks.len(),
{
    let n = chunk_elems as int;
    lemma_joined_len(chunks, chunk_elems);
    if chunks.len() > 0 {
        let front = chunks.drop_last();
        assert((chunks.len() - 1) * n + n == chunks.len() * n) by (nonlinear_arith);
        if i < front.len() * n {
            lemma_joined_index(front, chunk_elems, i);
        } else {
            let r = i - front.len() * n;
            lemma_fundamental_div_mod_converse(i, n, front.len() as int, r);
        }
    }
}

/// The split rule finds exactly the indices below the length, and finds each
/// where its element lies.
pub proof fn lemma_split_rule(idx: usize, chunk_elems: usize, chunk_count: nat, tail_len: nat)
    requires
        chunk_elems > 0,
        tail_len < chunk_elems,
    ensures
        match split_rule(idx, chunk_elems, chunk_count, tail_len) {
            Some(Stored::Compressed((chunk_idx, offset))) => {
                &&& idx < chunk_count * chunk_elems
                &&& chunk_idx == idx as int / chunk_elems as int
                &&& offset == idx as int % chunk_elems as int
                &&& chunk_idx < chunk_count
                &&& offset < chunk_elems
            },
            Some(Stored::Uncompressed(offset)) => {
                &&& chunk_count * chunk_elems <= idx < chunk_count * chunk_elems + tail_len
                &&& offset == idx - chunk_count * chunk_elems
            },
            None => idx >= chunk_count * chunk_elems + tail_len,
        },
{
    let n = chunk_elems as int;
    let i = idx as int;
    let q = i / n;
    let r = i % n;
    lemma_fundamental_div_mod(i, n);
    assert(0 <= r < n) by (nonlinear_arith)
        requires
            r == i % n,
            n > 0,
    ;
    assert(0 <= q <= i) by (nonlinear_arith)
        requires
            q == i / n,
            n > 0,
            i >= 0,
    ;
    if q < chunk_count {
        assert(q * n + n <= chunk_count * n) by (nonlinear_arith)
            requires
                q + 1 <= chunk_count,
                n > 0,
        ;
    } else if q == chunk_count {
    } else {
        assert(q * n >= chunk_count * n + n) by (nonlinear_arith)
            requires
                q >= chunk_count + 1,
                n > 0,
        ;
    }
}

} // verus!
