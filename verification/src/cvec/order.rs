//! The order of chunked vectors by their stored form.

use vstd::prelude::*;
use super::cache::Cache;
use super::inner::CVec as CVecInner;
use crate::compression::lemma_bytes_deep_view;

verus! {

broadcast use lemma_bytes_deep_view;

/// How one value stands to another in an order.
#[derive(Clone, Copy, Debug, PartialEq, Eq, Structural)]
pub enum Order {
    Less,
    Equal,
    Greater,
}

/// The order of two byte strings: by the first byte in which they differ,
/// a proper prefix coming before what it is a prefix of.
pub open spec fn bytes_order(a: Seq<u8>, b: Seq<u8>) -> Order
    decreases a.len(),
{
    if a.len() == 0 {
        if b.len() == 0 {
            Order::Equal
        } else {
            Order::Less
        }
    } else if b.len() == 0 {
        Order::Greater
    } else if a[0] < b[0] {
        Order::Less
    } else if a[0] > b[0] {
        Order::Greater
    } else {
        bytes_order(a.drop_first(), b.drop_first())
    }
}

/// The order of two lists of byte strings: by the first byte string in
/// which they differ, a proper prefix coming before what it is a prefix of.
pub open spec fn items_order(a: Seq<Seq<u8>>, b: Seq<Seq<u8>>) -> Order
    decreases a.len(),
{
    if a.len() == 0 {
        if b.len() == 0 {
            Order::Equal
        } else {
            Order::Less
        }
    } else if b.len() == 0 {
        Order::Greater
    } else {
        match bytes_order(a[0], b[0]) {
            Order::Equal => items_order(a.drop_first(), b.drop_first()),
            decided => decided,
        }
    }
}

/// The order of two stored forms: by the chunks, and by the tails where the
/// chunks are the same.
pub open spec fn stored_order(
    chunks: Seq<Seq<u8>>,
    tail: Seq<Seq<u8>>,
    other_chunks: Seq<Seq<u8>>,
    other_tail: Seq<Seq<u8>>,
) -> Order {
    match items_order(chunks, other_chunks) {
        Order::Equal => items_order(tail, other_tail),
        decided => decided,
    }
}

/// Byte strings are equal in the order exactly if they are the same.
pub proof fn lemma_bytes_order_equal(a: Seq<u8>, b: Seq<u8>)
    ensures
        bytes_order(a, b) == Order::Equal <==> a == b,
    decreases a.len(),
{
    if a.len() > 0 && b.len() > 0 {
        lemma_bytes_order_equal(a.drop_first(), b.drop_first());
        if a[0] == b[0] && a.drop_first() == b.drop_first() {
            assert(a =~= seq![a[0]] + a.drop_first());
            assert(b =~= seq![b[0]] + b.drop_first());
        }
    } else if a.len() == 0 && b.len() == 0 {
        assert(a =~= b);
    }
}

/// Lists of byte strings are equal in the order exactly if they are the same.
pub proof fn lemma_items_order_equal(a: Seq<Seq<u8>>, b: Seq<Seq<u8>>)
    ensures
        items_order(a, b) == Order::Equal <==> a == b,
    decreases a.len(),
{
    if a.len() > 0 && b.len() > 0 {
        lemma_items_order_equal(a.drop_first(), b.drop_first());
        lemma_bytes_order_equal(a[0], b[0]);
        if a[0] == b[0] && a.drop_first() == b.drop_first() {
            assert(a =~= seq![a[0]] + a.drop_first());
            assert(b =~= seq![b[0]] + b.drop_first());
        }
    } else if a.len() == 0 && b.len() == 0 {
        assert(a =~= b);
    }
}

/// The order of two byte strings.
fn order_of_bytes(a: &Vec<u8>, b: &Vec<u8>) -> (out: Order)
    ensures
        out == bytes_order(a@, b@),
{
    let mut i: usize = 0;
    assert(a@.skip(0) =~= a@);
    assert(b@.skip(0) =~= b@);
    loop
        invariant
            i <= a.len(),
            i <= b.len(),
            bytes_order(a@, b@) == bytes_order(a@.skip(i as int), b@.skip(i as int)),
        decreases a.len() - i,
    {
        proof {
            if i < a.len() && i < b.len() {
                assert(a@.skip(i as int).drop_first() =~= a@.skip(i + 1));
                assert(b@.skip(i as int).drop_first() =~= b@.skip(i + 1));
            }
        }
        if i == a.len() {
            return if i == b.len() {
                Order::Equal
            } else {
                Order::Less
            };
        }
        if i == b.len() {
            return Order::Greater;
        }
        if a[i] < b[i] {
            return Order::Less;
        }
        if a[i] > b[i] {
            return Order::Greater;
        }
        i += 1;
    }
}

/// The order of two lists of byte strings.
fn order_of_items(a: &Vec<Vec<u8>>, b: &Vec<Vec<u8>>) -> (out: Order)
    ensures
        out == items_order(a.deep_view(), b.deep_view()),
{
    let ghost x = a.deep_view();
    let ghost y = b.deep_view();
    let mut i: usize = 0;
    assert(x.skip(0) =~= x);
    assert(y.skip(0) =~= y);
    loop
        invariant
            i <= a.len(),
            i <= b.len(),
            x == a.deep_view(),
            y == b.deep_view(),
            items_order(x, y) == items_order(x.skip(i as int), y.skip(i as int)),
        decreases a.len() - i,
    {
        proof {
            if i < a.len() && i < b.len() {
                assert(x.skip(i as int).drop_first() =~= x.skip(i + 1));
                assert(y.skip(i as int).drop_first() =~= y.skip(i + 1));
            }
        }
        if i == a.len() {
            return if i == b.len() {
                Order::Equal
            } else {
                Order::Less
            };
        }
        if i == b.len() {
            return Order::Greater;
        }
        match order_of_bytes(&a[i], &b[i]) {
            Order::Equal => {},
            decided => {
                return decided;
            },
        }
        i += 1;
    }
}

impl<const CHUNK_ELEMS: usize, const COMPRESSION_LEVEL: u32, C: Cache> CVecInner<
    CHUNK_ELEMS,
    COMPRESSION_LEVEL,
    C,
> {
    /// How the vector stands to `other` in the order of stored forms.
    pub fn cmp(&self, other: &Self) -> (out: Order)
        ensures
            out == stored_order(self.chunks(), self.tail(), other.chunks(), other.tail()),
    {
        match order_of_items(&self.compressed_storage, &other.compressed_storage) {
            Order::Equal => order_of_items(&self.uncompressed_buffer, &other.uncompressed_buffer),
            decided => decided,
        }
    }

    /// How the vector stands to `other` in the order of stored forms, which
    /// orders any two vectors.
    pub fn partial_cmp(&self, other: &Self) -> (out: Option<Order>)
        ensures
            out == Some(stored_order(self.chunks(), self.tail(), other.chunks(), other.tail())),
    {
        Some(self.cmp(other))
    }
}

} // verus!
