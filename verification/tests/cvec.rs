use compressed_collections::{CVec, CVecRc, CVecUncached, Stored};

fn enc(x: f64) -> Vec<u8> {
    postcard::to_stdvec(&x).unwrap()
}

fn dec(bytes: Vec<u8>) -> f64 {
    postcard::from_bytes(&bytes).unwrap()
}

#[test]
fn it_works() {
    let result = 2 + 2;
    assert_eq!(result, 4);
}

#[test]
fn lib_simple_test() {
    let mut big_vec = Vec::new();
    let mut compressed_stack = CVec::new::<{ 1024 * 99 }, 2>();
    for _ in 0..(1024 * 100) {
        big_vec.push(1.0);
        compressed_stack.push(enc(1.0));
    }
    loop {
        let a = big_vec.pop();
        let b = compressed_stack.pop().map(dec);
        assert!(a == b);
        if a.is_none() | b.is_none() {
            break;
        }
    }
}

#[test]
fn mod_simple_test() {
    let mut big_vec = Vec::new();
    let mut compressed_stack = CVec::new::<{ 1024 * 9 }, 0>();
    // Test `push`
    for i in 0..(1024 * 10) {
        big_vec.push(i as f64);
        compressed_stack.push(enc(i as f64));
    }
    // Test `get`
    for idx in 0..(1024 * 10) + 1 {
        let bv = big_vec.get(idx).copied();
        let cv = compressed_stack.get_ref(idx).map(|x| dec(x.clone()));
        assert_eq!(bv, cv);
    }
    // Test the snapshot and its restoration
    let data = compressed_stack.to_bytes();
    compressed_stack = CVec::<{ 1024 * 9 }, 0>::from_bytes(&data).ok().unwrap();
    for idx in 0..(1024 * 10) + 1 {
        let bv = big_vec.get(idx).copied();
        let cv = compressed_stack.get_ref(idx).map(|x| dec(x.clone()));
        assert_eq!(bv, cv);
    }
    // Test `pop`
    loop {
        let a = big_vec.pop();
        let b = compressed_stack.pop().map(dec);
        assert_eq!(a, b);
        if a.is_none() | b.is_none() {
            break;
        }
    }
}

#[test]
fn mod_iter_test() {
    let mut big_vec = Vec::new();
    let mut compressed_stack = CVec::new::<{ 1024 * 9 }, 0>();
    for _ in 0..(1024 * 10) {
        big_vec.push(1.0);
        compressed_stack.push(enc(1.0));
    }
    let mut by_ref = compressed_stack.iter();
    for a in big_vec.iter() {
        let b = by_ref.next().map(dec);
        assert_eq!(Some(*a), b);
    }
    assert_eq!(by_ref.next(), None);
    let mut big_vec_it = big_vec.into_iter();
    let mut compressed_stack_it = compressed_stack.into_iter();
    loop {
        let a = big_vec_it.next();
        let b = compressed_stack_it.next().map(dec);
        assert_eq!(a, b);
        if a.is_none() | b.is_none() {
            break;
        }
    }
}

#[test]
fn rec_test() {
    let mut compressed_vec = CVec::new::<{ 8 * 10 - 1 }, 11>();
    for j in 0..(8 * 10) {
        let mut item = CVec::new::<{ 128 * 10 - 1 }, 0>();
        for i in j..j + (128 * 10) {
            item.push(enc(i as f64));
        }
        compressed_vec.push(item.to_bytes());
    }
    println!("CV: {} elements", compressed_vec.len());
    assert_eq!(compressed_vec.len(), 80);
    let last = compressed_vec.get_ref(79).unwrap().clone();
    let mut item = CVec::<{ 128 * 10 - 1 }, 0>::from_bytes(&last).ok().unwrap();
    assert_eq!(item.len(), 1280);
    assert_eq!(item.pop().map(dec), Some((79 + 1279) as f64));
    assert_eq!(item.get_ref(0).map(|x| dec(x.clone())), Some(79.0));
}

fn from_int(x: i32) -> Vec<u8> {
    postcard::to_stdvec(&x).unwrap()
}

fn to_int(bytes: Vec<u8>) -> i32 {
    postcard::from_bytes(&bytes).unwrap()
}

#[test]
fn ten_elements_in_chunks_of_nine() {
    let mut v = CVecRc::new::<9, 0>();
    for i in 0..10 {
        v.push(from_int(i));
    }
    assert_eq!(v.len(), 10);
    assert!(!v.is_empty());
    // one chunk of nine elements and a tail of one
    assert_eq!(v.compressed_elems(), 9);
    for i in 0..9 {
        assert!(matches!(v.get_uncached(i), Some(Stored::Compressed(_))));
    }
    assert!(matches!(v.get_uncached(9), Some(Stored::Uncompressed(_))));
    assert!(v.get_uncached(10).is_none());
    assert_eq!(v.get(0).map(to_int), Some(0));
    assert_eq!(v.get(9).map(to_int), Some(9));
    assert_eq!(v.get(10), None);
    for i in (0..10).rev() {
        assert_eq!(v.pop().map(to_int), Some(i));
    }
    assert_eq!(v.pop(), None);
    assert_eq!(v.len(), 0);

    let mut owned = CVec::new::<9, 0>();
    for i in 0..10 {
        owned.push(from_int(i));
    }
    assert_eq!(owned.len(), 10);
    assert_eq!(owned.get_ref(0).cloned().map(to_int), Some(0));
    assert_eq!(owned.get_ref(9).cloned().map(to_int), Some(9));
    for i in (0..10).rev() {
        assert_eq!(owned.pop().map(to_int), Some(i));
    }
    assert_eq!(owned.pop(), None);
}

#[test]
fn a_configuration_is_valid_or_refused() {
    assert!(CVec::<1, 0>::try_default().is_some());
    assert!(CVec::<1024, 11>::try_default().is_some());
    assert!(CVec::<0, 0>::try_default().is_none());
    assert!(CVecRc::<4, 12>::try_default().is_none());
    assert!(CVecUncached::<0, 12>::try_default().is_none());
    let mut v = CVecUncached::<2, 11>::try_default().unwrap();
    assert!(v.is_empty());
    v.push(vec![1]);
    assert_eq!(v.len(), 1);
}

#[test]
fn empty_input_gives_empty_vector() {
    let mut v = CVec::<4, 0>::from_iter(Vec::new());
    assert_eq!(v.len(), 0);
    assert!(v.is_empty());
    assert_eq!(v.pop(), None);
    let bytes = v.to_bytes();
    let mut w = CVec::<4, 0>::from_bytes(&bytes).ok().unwrap();
    assert_eq!(w.len(), 0);
    assert!(w.is_empty());
    assert_eq!(w.pop(), None);
    assert_eq!(w.get_ref(0), None);
}

#[test]
fn from_iter_is_repeated_push() {
    let items: Vec<Vec<u8>> = (0..23).map(|i| enc(i as f64)).collect();
    let mut built = CVecUncached::<5, 3>::from_iter(items.clone());
    let mut pushed = CVecUncached::new::<5, 3>();
    for x in items.iter() {
        pushed.push(x.clone());
    }
    assert_eq!(built.len(), 23);
    assert_eq!(built.to_bytes(), pushed.to_bytes());
    for x in items.iter().rev() {
        assert_eq!(built.pop().as_ref(), Some(x));
    }
    assert_eq!(built.pop(), None);
}
