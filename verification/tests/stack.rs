use compressed_collections::{ChunkSize, Stack};

fn enc(x: f64) -> Vec<u8> {
    postcard::to_stdvec(&x).unwrap()
}

fn dec(bytes: Vec<u8>) -> f64 {
    postcard::from_bytes(&bytes).unwrap()
}

#[test]
fn stack_simple_test() {
    let mut big_vec = Vec::new();
    let mut compressed_stack = Stack::new_with_options(ChunkSize::SizeElements(1024 * 9), 0);
    for _ in 0..(1024 * 10) {
        big_vec.push(1.0);
        compressed_stack.push(enc(1.0));
    }
    loop {
        let a = big_vec.pop();
        let b = compressed_stack.pop().map(dec);
        assert!(a == b);
        if a.is_none() | b.is_none() {
            break;
        }
    }
}

#[test]
fn stack_iter_test() {
    let mut big_vec = Vec::new();
    let mut compressed_stack = Stack::new_with_options(ChunkSize::SizeElements(1024 * 9), 0);
    for _ in 0..(1024 * 10) {
        big_vec.push(1.0);
        compressed_stack.push(enc(1.0));
    }
    let mut big_vec_it = big_vec.into_iter();
    let mut compressed_stack_it = compressed_stack;
    loop {
        let a = big_vec_it.next();
        let b = compressed_stack_it.next().map(dec);
        assert!(a == b);
        if a.is_none() | b.is_none() {
            break;
        }
    }
}

#[test]
fn stack_pops_in_reverse_order() {
    let mut stack = Stack::new_with_options(ChunkSize::SizeElements(4), 5);
    assert!(stack.is_empty());
    for i in 0..11 {
        stack.push(enc(i as f64));
        assert_eq!(stack.len(), i + 1);
    }
    for i in (0..11).rev() {
        assert_eq!(stack.pop().map(dec), Some(i as f64));
        assert_eq!(stack.len(), i);
    }
    assert_eq!(stack.pop(), None);
    assert!(stack.is_empty());
}

#[test]
fn stack_with_chunks_of_no_element_compresses_each_push() {
    let mut stack = Stack::new_with_options(ChunkSize::SizeElements(0), 0);
    for i in 0..5 {
        stack.push(enc(i as f64));
    }
    assert_eq!(stack.len(), 5);
    for i in (0..5).rev() {
        assert_eq!(stack.pop().map(dec), Some(i as f64));
    }
    assert_eq!(stack.pop(), None);
}

#[test]
fn stack_from_iter_and_defaults() {
    let items: Vec<Vec<u8>> = (0..7).map(|i| enc(i as f64)).collect();
    let mut stack = Stack::from_iter(items);
    assert_eq!(stack.len(), 7);
    assert_eq!(stack.next().map(dec), Some(6.0));
    let mut empty = Stack::default();
    assert!(empty.is_empty());
    assert_eq!(empty.pop(), None);
    let mut sized = Stack::new_with_options(ChunkSize::SizeBytes(1), 0);
    sized.push(enc(1.5));
    sized.push(enc(2.5));
    assert_eq!(sized.pop().map(dec), Some(2.5));
    assert_eq!(sized.pop().map(dec), Some(1.5));
    let mut mb = Stack::new_with_options(ChunkSize::SizeMB(1), 0);
    mb.push(enc(3.5));
    assert_eq!(mb.len(), 1);
}

#[test]
fn chunk_size_counts_elements() {
    assert_eq!(ChunkSize::SizeElements(7).elements(8), 7);
    assert_eq!(ChunkSize::SizeBytes(64).elements(8), 8);
    assert_eq!(ChunkSize::SizeBytes(7).elements(8), 0);
    assert_eq!(ChunkSize::SizeMB(2).elements(8), 2 * 1024 * 1024 / 8);
    assert_eq!(ChunkSize::Default.elements(8), 10 * 1024 * 1024 / 8);
    assert_eq!(ChunkSize::Default.elements(24), 436906);
    assert_eq!(ChunkSize::SizeBytes(64).elements(0), usize::MAX);
}

#[test]
fn stacks_are_copied_and_compared_by_their_stored_form() {
    let mut a = Stack::new_with_options(ChunkSize::SizeElements(3), 0);
    for i in 0..7 {
        a.push(enc(i as f64));
    }
    let mut b = a.clone();
    assert!(a == b);
    assert_eq!(b.pop().map(dec), Some(6.0));
    assert!(a != b);
    assert!(b < a);
    assert_eq!(a.len(), 7);
    assert_eq!(a.pop().map(dec), Some(6.0));
    assert!(a == b);
    assert!(format!("{:?}", a).starts_with("Stack"));
}
