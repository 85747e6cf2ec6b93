//! What holds of every chunked vector, whatever was done to it.

use vstd::prelude::*;
use super::cache::{Cache, CacheAccess};
use super::inner::CVec as CVecInner;
use super::model::{
    admits, lemma_chunks_check, lemma_joined_len, lookup, reference_run, restored,
    snapshot_parts, well_chunked, Step,
};
use super::order::{lemma_items_order_equal, stored_order, Order};
use crate::batches::joined;
use crate::compression::DecodeError;

verus! {

/// Under any run of pushes and pops, in any order, a vector holds what a
/// plain sequence holds under the same run and returns what it returns:
/// where `states` are the elements of the vector before, between and after
/// the operations `steps`, and `outs` what they returned, as `push` and `pop`
/// ensure, `states` ends and `outs` is as the run on a plain sequence says.
pub proof fn law_matches_plain_sequence(
    states: Seq<Seq<Seq<u8>>>,
    steps: Seq<Step>,
    outs: Seq<Option<Seq<u8>>>,
)
    requires
        states.len() == steps.len() + 1,
        outs.len() == steps.len(),
        forall|i: int|
            0 <= i < steps.len() ==> admits(
                #[trigger] states[i],
                steps[i],
                outs[i],
                states[i + 1],
            ),
    ensures
        reference_run(states[0], steps) == (states.last(), outs),
        reference_run(states[0], steps).0.len() == states.last().len(),
    decreases steps.len(),
{
    if steps.len() > 0 {
        let rest_states = states.drop_first();
        let rest_steps = steps.drop_first();
        let rest_outs = outs.drop_first();
        assert forall|i: int| 0 <= i < rest_steps.len() implies admits(
            #[trigger] rest_states[i],
            rest_steps[i],
            rest_outs[i],
            rest_states[i + 1],
        ) by {
            assert(admits(states[i + 1], steps[i + 1], outs[i + 1], states[i + 2]));
        }
        law_matches_plain_sequence(rest_states, rest_steps, rest_outs);
    }
}

/// A read by index returns the element of the sequence at that index for
/// every index below the length, the last index of a chunk and the first of
/// the tail among them, and nothing for every other index.
pub proof fn law_reads_follow_the_sequence<
    const CHUNK_ELEMS: usize,
    const COMPRESSION_LEVEL: u32,
    C: Cache,
>(v: CVecInner<CHUNK_ELEMS, COMPRESSION_LEVEL, C>, idx: usize)
    requires
        v.wf(),
    ensures
        idx < v@.len() ==> lookup(v@, idx) == Some(v@[idx as int]),
        idx >= v@.len() ==> lookup(v@, idx) is None,
        v@.len() == v.chunks().len() * CHUNK_ELEMS + v.tail().len(),
        v.chunks().len() * CHUNK_ELEMS <= idx < v@.len() ==> lookup(v@, idx) == Some(
            v.tail()[idx - v.chunks().len() * CHUNK_ELEMS],
        ),
{
    v.lemma_len();
}

/// Bytes from which a vector is restored hold a well-formed vector: chunks
/// that each decode to `chunk_elems` elements and a tail shorter than a
/// chunk, which together are the restored elements.
pub proof fn law_restored_is_well_formed(bytes: Seq<u8>, chunk_elems: usize)
    requires
        restored(bytes, chunk_elems) is Ok,
    ensures
        snapshot_parts(bytes) is Some,
        ({
            let (chunks, tail) = snapshot_parts(bytes)->Some_0;
            &&& well_chunked(chunks, chunk_elems)
            &&& tail.len() < chunk_elems
            &&& restored(bytes, chunk_elems)->Ok_0 == joined(chunks) + tail
            &&& restored(bytes, chunk_elems)->Ok_0.len() == chunks.len() * chunk_elems + tail.len()
            &&& restored(bytes, chunk_elems)->Ok_0.len() <= usize::MAX
        }),
{
    let (chunks, tail) = snapshot_parts(bytes)->Some_0;
    lemma_chunks_check(chunks, chunk_elems);
    lemma_joined_len(chunks, chunk_elems);
}

/// Two vectors are equal in the order of stored forms exactly if they have
/// the same stored form, which is when `eq` holds of them.
pub proof fn law_order_agrees_with_eq<const CHUNK_ELEMS: usize, const COMPRESSION_LEVEL: u32, C: Cache>(
    a: CVecInner<CHUNK_ELEMS, COMPRESSION_LEVEL, C>,
    b: CVecInner<CHUNK_ELEMS, COMPRESSION_LEVEL, C>,
)
    ensures
        stored_order(a.chunks(), a.tail(), b.chunks(), b.tail()) == Order::Equal <==> a.chunks()
            == b.chunks() && a.tail() == b.tail(),
{
    lemma_items_order_equal(a.chunks(), b.chunks());
    lemma_items_order_equal(a.tail(), b.tail());
}

/// A `pop` that follows a `push` returns the pushed element and leaves the
/// elements that were there before the `push`.
pub proof fn law_pop_undoes_push<const CHUNK_ELEMS: usize, const COMPRESSION_LEVEL: u32, C: Cache>(
    pushed: &mut CVecInner<CHUNK_ELEMS, COMPRESSION_LEVEL, C>,
    value: Vec<u8>,
    popped: &mut CVecInner<CHUNK_ELEMS, COMPRESSION_LEVEL, C>,
    out: Option<Vec<u8>>,
)
    requires
        old(pushed).wf(),
        old(pushed)@.len() < usize::MAX,
        call_ensures(
            CVecInner::<CHUNK_ELEMS, COMPRESSION_LEVEL, C>::push,
            (pushed, value),
            (),
        ),
        *old(popped) == *final(pushed),
        call_ensures(CVecInner::<CHUNK_ELEMS, COMPRESSION_LEVEL, C>::pop, (popped,), out),
    ensures
        out is Some,
        out->Some_0@ == value@,
        final(popped).wf(),
        final(popped)@ == old(pushed)@,
        final(popped).cache().line() == old(pushed).cache().line(),
{
    old(pushed).lemma_len();
    old(pushed).cache().lemma_mirrors_line(old(pushed).chunks());
    assert(old(pushed)@.push(value@).drop_last() =~= old(pushed)@);
}

/// A read by `get_ref` returns the same whether the cache is cold or warm:
/// a second read at the same index returns what the first returned, and two
/// vectors that hold the same elements answer a read alike, whatever their
/// caches hold.
pub proof fn law_cache_is_transparent<
    const CHUNK_ELEMS: usize,
    const COMPRESSION_LEVEL: u32,
    C: CacheAccess<CHUNK_ELEMS>,
>(
    first: &mut CVecInner<CHUNK_ELEMS, COMPRESSION_LEVEL, C>,
    second: &mut CVecInner<CHUNK_ELEMS, COMPRESSION_LEVEL, C>,
    other: &mut CVecInner<CHUNK_ELEMS, COMPRESSION_LEVEL, C>,
    idx: usize,
    cold: Option<&Vec<u8>>,
    warm: Option<&Vec<u8>>,
    elsewhere: Option<&Vec<u8>>,
)
    requires
        old(first).wf(),
        call_ensures(
            CVecInner::<CHUNK_ELEMS, COMPRESSION_LEVEL, C>::get_ref,
            (first, idx),
            cold,
        ),
        *old(second) == *final(first),
        call_ensures(
            CVecInner::<CHUNK_ELEMS, COMPRESSION_LEVEL, C>::get_ref,
            (second, idx),
            warm,
        ),
        old(other).wf(),
        old(other)@ == old(first)@,
        call_ensures(
            CVecInner::<CHUNK_ELEMS, COMPRESSION_LEVEL, C>::get_ref,
            (other, idx),
            elsewhere,
        ),
    ensures
        cold is Some <==> idx < old(first)@.len(),
        warm is Some <==> cold is Some,
        elsewhere is Some <==> cold is Some,
        cold is Some ==> warm->Some_0@ == cold->Some_0@ && elsewhere->Some_0@ == cold->Some_0@,
        final(second)@ == old(first)@,
{
}

/// A read after a `pop` returns what the vector holds then: the popped
/// element is gone, at whatever the cache held before.
pub proof fn law_read_after_pop<
    const CHUNK_ELEMS: usize,
    const COMPRESSION_LEVEL: u32,
    C: CacheAccess<CHUNK_ELEMS>,
>(
    popped: &mut CVecInner<CHUNK_ELEMS, COMPRESSION_LEVEL, C>,
    out: Option<Vec<u8>>,
    read: &mut CVecInner<CHUNK_ELEMS, COMPRESSION_LEVEL, C>,
    idx: usize,
    got: Option<&Vec<u8>>,
)
    requires
        old(popped).wf(),
        old(popped)@.len() > 0,
        call_ensures(CVecInner::<CHUNK_ELEMS, COMPRESSION_LEVEL, C>::pop, (popped,), out),
        *old(read) == *final(popped),
        call_ensures(CVecInner::<CHUNK_ELEMS, COMPRESSION_LEVEL, C>::get_ref, (read, idx), got),
    ensures
        got is Some <==> idx < old(popped)@.len() - 1,
        got is Some ==> got->Some_0@ == old(popped)@[idx as int],
        final(popped).cache().line() matches Some((held, _)) ==> held < final(popped).chunks().len(),
{
    final(popped).cache().lemma_mirrors_line(final(popped).chunks());
}

/// Restoring a vector from its own snapshot gives its elements back: what
/// `from_bytes` returns on the result of `to_bytes` is a well-formed vector
/// of the same length with the same elements and an empty cache.
pub proof fn law_snapshot_round_trip<
    const CHUNK_ELEMS: usize,
    const COMPRESSION_LEVEL: u32,
    C: Cache,
    D: Cache,
>(
    v: CVecInner<CHUNK_ELEMS, COMPRESSION_LEVEL, C>,
    bytes: Vec<u8>,
    stream: &[u8],
    outcome: Result<CVecInner<CHUNK_ELEMS, COMPRESSION_LEVEL, D>, DecodeError>,
)
    requires
        v.wf(),
        call_ensures(CVecInner::<CHUNK_ELEMS, COMPRESSION_LEVEL, C>::to_bytes, (&v,), bytes),
        stream@ == bytes@,
        call_ensures(
            CVecInner::<CHUNK_ELEMS, COMPRESSION_LEVEL, D>::from_bytes,
            (stream,),
            outcome,
        ),
    ensures
        outcome is Ok,
        outcome->Ok_0.wf(),
        outcome->Ok_0@ == v@,
        outcome->Ok_0@.len() == v@.len(),
        outcome->Ok_0.chunks() == v.chunks(),
        outcome->Ok_0.tail() == v.tail(),
        outcome->Ok_0.cache().line() is None,
{
}

} // verus!
