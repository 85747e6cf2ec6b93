use compressed_collections::{
    size_in_units, CVec, CVecRc, CVecUncached, DecodeError, Order, SizeUnit, Stored,
};

fn elem(x: u64) -> Vec<u8> {
    postcard::to_stdvec(&x).unwrap()
}

fn step(state: &mut u64) -> u64 {
    *state = state.wrapping_mul(6364136223846793005).wrapping_add(1442695040888963407);
    *state >> 33
}

fn same_as_a_plain_vector<const N: usize, const Q: u32>(seed: u64) {
    let mut state = seed;
    let mut plain: Vec<Vec<u8>> = Vec::new();
    let mut owned = CVec::new::<N, Q>();
    let mut shared = CVecRc::new::<N, Q>();
    let mut bare = CVecUncached::new::<N, Q>();
    for _ in 0..400 {
        let r = step(&mut state);
        if r % 3 == 0 {
            let expected = plain.pop();
            assert_eq!(owned.pop(), expected);
            assert_eq!(shared.pop(), expected);
            assert_eq!(bare.pop(), expected);
        } else {
            let value = elem(r);
            plain.push(value.clone());
            owned.push(value.clone());
            shared.push(value.clone());
            bare.push(value);
        }
        assert_eq!(owned.len(), plain.len());
        assert_eq!(shared.len(), plain.len());
        assert_eq!(bare.len(), plain.len());
        assert_eq!(owned.is_empty(), plain.is_empty());
        let idx = (step(&mut state) as usize) % (plain.len() + 2);
        assert_eq!(owned.get_ref(idx), plain.get(idx));
        assert_eq!(shared.get(idx), plain.get(idx).cloned());
        let uncached = match bare.get_uncached(idx) {
            Some(Stored::Compressed(value)) => Some(value),
            Some(Stored::Uncompressed(value)) => Some(value.clone()),
            None => None,
        };
        assert_eq!(uncached, plain.get(idx).cloned());
    }
    while let Some(expected) = plain.pop() {
        assert_eq!(owned.pop(), Some(expected.clone()));
        assert_eq!(shared.pop(), Some(expected.clone()));
        assert_eq!(bare.pop(), Some(expected));
    }
    assert_eq!(owned.pop(), None);
    assert_eq!(shared.pop(), None);
    assert_eq!(bare.pop(), None);
}

#[test]
fn pushes_and_pops_match_a_plain_vector() {
    same_as_a_plain_vector::<1, 0>(1);
    same_as_a_plain_vector::<2, 1>(2);
    same_as_a_plain_vector::<3, 4>(3);
    same_as_a_plain_vector::<7, 9>(4);
    same_as_a_plain_vector::<16, 11>(5);
    same_as_a_plain_vector::<1000, 5>(6);
}

#[test]
fn reads_at_the_border_of_chunk_and_tail() {
    let mut v = CVec::new::<4, 0>();
    for i in 0..10 {
        v.push(elem(i));
    }
    // chunks hold 0..8, the tail holds 8 and 9
    assert_eq!(v.get_ref(3), Some(&elem(3)));
    assert_eq!(v.get_ref(4), Some(&elem(4)));
    assert_eq!(v.get_ref(7), Some(&elem(7)));
    assert_eq!(v.get_ref(8), Some(&elem(8)));
    assert_eq!(v.get_ref(9), Some(&elem(9)));
    assert_eq!(v.get_ref(10), None);
    assert_eq!(v.get_ref(11), None);
    assert_eq!(v.get_ref(12), None);
    assert_eq!(v.get_ref(usize::MAX), None);
    assert!(matches!(v.get_uncached(7), Some(Stored::Compressed(x)) if x == elem(7)));
    assert!(matches!(v.get_uncached(8), Some(Stored::Uncompressed(x)) if *x == elem(8)));
    assert!(v.get_uncached(10).is_none());
    assert_eq!(v.compressed_elems(), 8);
}

#[test]
fn a_warm_cache_answers_as_a_cold_one() {
    let mut v = CVec::new::<3, 0>();
    for i in 0..9 {
        v.push(elem(i));
    }
    let cold = v.get_ref(4).cloned();
    let warm = v.get_ref(4).cloned();
    assert_eq!(cold, Some(elem(4)));
    assert_eq!(warm, cold);
    // warm the cache with the last chunk, consume that chunk, and fill the
    // same region with other elements
    assert_eq!(v.get_ref(8), Some(&elem(8)));
    assert_eq!(v.pop(), Some(elem(8)));
    assert_eq!(v.get_ref(7), Some(&elem(7)));
    assert_eq!(v.pop(), Some(elem(7)));
    assert_eq!(v.pop(), Some(elem(6)));
    assert_eq!(v.get_ref(6), None);
    for i in 0..3 {
        v.push(elem(100 + i));
    }
    assert_eq!(v.get_ref(6), Some(&elem(100)));
    assert_eq!(v.get_ref(7), Some(&elem(101)));
    assert_eq!(v.get_ref(8), Some(&elem(102)));
    assert_eq!(v.get_ref(5), Some(&elem(5)));

    let mut s = CVecRc::new::<3, 0>();
    for i in 0..9 {
        s.push(elem(i));
    }
    assert_eq!(s.get(8), Some(elem(8)));
    assert_eq!(s.get(8), Some(elem(8)));
    for _ in 0..3 {
        s.pop();
    }
    for i in 0..3 {
        s.push(elem(200 + i));
    }
    assert_eq!(s.get(8), Some(elem(202)));
    assert_eq!(s.get(6), Some(elem(200)));
    assert_eq!(s.get(0), Some(elem(0)));
}

fn round_trip(n: u64) {
    let mut v = CVec::new::<5, 4>();
    for i in 0..n {
        v.push(elem(i * 3));
    }
    let bytes = v.to_bytes();
    let mut w = CVec::<5, 4>::from_bytes(&bytes).ok().unwrap();
    assert_eq!(w.len(), v.len());
    for i in 0..(n as usize + 1) {
        assert_eq!(w.get_ref(i).cloned(), v.get_ref(i).cloned());
    }
    assert!(v.eq(&w));
    assert_eq!(w.to_bytes(), bytes);
    let mut u = CVecUncached::<5, 4>::from_bytes(&bytes).ok().unwrap();
    for i in (0..n).rev() {
        assert_eq!(u.pop(), Some(elem(i * 3)));
    }
    assert_eq!(u.pop(), None);
}

#[test]
fn a_snapshot_restores_the_vector() {
    round_trip(0);
    round_trip(1);
    round_trip(4);
    round_trip(5);
    round_trip(6);
    round_trip(52);
}

#[test]
fn a_faulty_snapshot_is_rejected() {
    assert_eq!(CVec::<4, 0>::from_bytes(&[1, 2, 3]).err(), Some(DecodeError::Malformed));
    assert_eq!(CVec::<4, 0>::from_bytes(&[]).err(), Some(DecodeError::Malformed));
    let mut v = CVec::new::<3, 0>();
    for i in 0..7 {
        v.push(elem(i));
    }
    let bytes = v.to_bytes();
    // chunks of three elements where chunks of four are due
    assert_eq!(
        CVec::<4, 0>::from_bytes(&bytes).err(),
        Some(DecodeError::InvalidLength { found: 3, expected: 4 })
    );
    // a tail of one element where a chunk holds one
    assert_eq!(CVecRc::<1, 0>::from_bytes(&bytes).err(), Some(DecodeError::Malformed));
    // a snapshot with a part too many
    let parts: Vec<Vec<u8>> = vec![vec![0], vec![0], vec![0]];
    let three = compressed_collections::compress(&parts, 0);
    assert_eq!(CVec::<3, 0>::from_bytes(&three).err(), Some(DecodeError::Malformed));
    // parts that are no lists
    let parts: Vec<Vec<u8>> = vec![vec![0], vec![0x05, 0x01]];
    let bad = compressed_collections::compress(&parts, 0);
    assert_eq!(CVec::<3, 0>::from_bytes(&bad).err(), Some(DecodeError::Malformed));
    // a chunk that is no chunk
    let chunks: Vec<Vec<u8>> = vec![vec![1, 2, 3]];
    let tail: Vec<Vec<u8>> = Vec::new();
    let parts = vec![postcard::to_stdvec(&chunks).unwrap(), postcard::to_stdvec(&tail).unwrap()];
    let bad = compressed_collections::compress(&parts, 0);
    assert_eq!(CVec::<3, 0>::from_bytes(&bad).err(), Some(DecodeError::Malformed));
    // the same vector is restored where the level differs, as the level is
    // no part of the snapshot
    assert!(CVec::<3, 7>::from_bytes(&bytes).is_ok());
}

#[test]
fn a_walk_yields_every_element_once() {
    let mut v = CVec::new::<4, 0>();
    let mut plain = Vec::new();
    for i in 0..14 {
        v.push(elem(i));
        plain.push(elem(i));
    }
    let mut walk = v.iter();
    for left in (1..=14).rev() {
        assert_eq!(walk.size_hint(), (left, Some(left)));
        assert_eq!(walk.next(), Some(elem((14 - left) as u64)));
    }
    assert_eq!(walk.size_hint(), (0, Some(0)));
    assert_eq!(walk.next(), None);
    assert_eq!(walk.next(), None);
    assert_eq!(v.iter().collect(), plain);
    let indexed: Vec<Vec<u8>> = (0..v.len()).map(|i| v.get_ref(i).unwrap().clone()).collect();
    assert_eq!(indexed, plain);
    let mut part = v.iter();
    part.next();
    part.next();
    assert_eq!(part.collect(), plain[2..].to_vec());

    let copy = v.clone();
    let mut drain = v.into_iter();
    assert_eq!(drain.size_hint(), (14, Some(14)));
    assert_eq!(drain.next(), Some(elem(13)));
    assert_eq!(drain.size_hint(), (13, Some(13)));
    let mut rest = drain.collect();
    rest.reverse();
    assert_eq!(rest, plain[..13].to_vec());
    let mut popped = Vec::new();
    let mut copy = copy;
    while let Some(x) = copy.pop() {
        popped.push(x);
    }
    popped.reverse();
    assert_eq!(popped, plain);

    let empty = CVecUncached::new::<2, 0>();
    assert_eq!(empty.iter().next(), None);
    assert_eq!(empty.iter().collect(), Vec::<Vec<u8>>::new());
    assert_eq!(empty.into_iter().next(), None);
}

#[test]
fn copies_and_the_order_of_stored_forms() {
    let mut a = CVec::new::<3, 0>();
    for i in 0..8 {
        a.push(elem(i));
    }
    let mut b = a.clone();
    assert!(a.eq(&b));
    assert_eq!(a.cmp(&b), Order::Equal);
    assert_eq!(a.partial_cmp(&b), Some(Order::Equal));
    assert_eq!(b.get_ref(7), Some(&elem(7)));
    assert_eq!(b.pop(), Some(elem(7)));
    assert!(!a.eq(&b));
    // the tail of `b` is a proper prefix of the tail of `a`
    assert_eq!(b.cmp(&a), Order::Less);
    assert_eq!(a.cmp(&b), Order::Greater);
    b.push(elem(9));
    assert_eq!(a.cmp(&b), Order::Less);
    assert_eq!(a.len(), 8);
    let mut short = CVec::new::<3, 0>();
    short.push(vec![200]);
    // no chunk comes before any chunk
    assert_eq!(short.cmp(&a), Order::Less);
}

#[test]
fn sizes_are_shown_in_units() {
    assert_eq!(size_in_units(0), (0, SizeUnit::B));
    assert_eq!(size_in_units(4095), (4095, SizeUnit::B));
    assert_eq!(size_in_units(4096), (4, SizeUnit::KB));
    assert_eq!(size_in_units(4 * 1024 * 1024 - 1), (4095, SizeUnit::KB));
    assert_eq!(size_in_units(4 * 1024 * 1024), (4, SizeUnit::MB));
    assert_eq!(size_in_units(4 * 1024 * 1024 * 1024 - 1), (4095, SizeUnit::MB));
    assert_eq!(size_in_units(4 * 1024 * 1024 * 1024), (4, SizeUnit::GB));
    assert_eq!(size_in_units(usize::MAX), (usize::MAX / 1024 / 1024 / 1024, SizeUnit::GB));
    let mut v = CVec::new::<2, 0>();
    assert_eq!(v.compressed_bytes(), 0);
    assert_eq!(v.compressed_elems(), 0);
    for i in 0..5 {
        v.push(elem(i));
    }
    assert_eq!(v.compressed_elems(), 4);
    let first = compressed_collections::compress(&vec![elem(0), elem(1)], 0).len();
    let second = compressed_collections::compress(&vec![elem(2), elem(3)], 0).len();
    assert_eq!(v.compressed_bytes(), first + second);
}
