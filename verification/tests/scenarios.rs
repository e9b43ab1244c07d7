use nickel::heap::{Gc, GcError, Heap};
use nickel::info::{Slot, TraceFn};
use nickel::root::{Root, RootGc};

fn word(v: u64) -> Vec<u8> {
    v.to_le_bytes().to_vec()
}

fn read_word(bytes: &[u8], off: usize) -> u64 {
    let mut w = [0u8; 8];
    w.copy_from_slice(&bytes[off..off + 8]);
    u64::from_le_bytes(w)
}

fn int_type(heap: &mut Heap) -> u64 {
    heap.register(8, 8, vec![], true).unwrap()
}

fn cell_type(heap: &mut Heap) -> u64 {
    heap.register(16, 8, vec![Slot { offset: 0, trace_fn: TraceFn::Gc }], true).unwrap()
}

#[test]
fn linear_survival() {
    let mut heap = Heap::new();
    let int = int_type(&mut heap);
    let a = heap.allocate(int, &word(7)).unwrap();
    let root = RootGc::from_gc(&mut heap, a).unwrap();
    heap.set_post_block_count(0);
    let done = Root::collect_garbage(&mut heap).unwrap();
    assert!(done.ran);
    assert_eq!(root.deref(&heap), Some(word(7)));
    assert_eq!(heap.read(a), None);
}

#[test]
fn forwarding() {
    let mut heap = Heap::new();
    let int = int_type(&mut heap);
    let cell = cell_type(&mut heap);
    let a = heap.allocate(int, &word(41)).unwrap();
    let mut bytes = word(a.ptr);
    bytes.extend_from_slice(&word(99));
    let b = heap.allocate(cell, &bytes).unwrap();
    let root = Root::from_gc(&mut heap, b).unwrap();
    heap.set_post_block_count(0);
    assert!(heap.collect().unwrap().ran);
    let after = heap.deref(root.number()).unwrap();
    let moved = read_word(&after, 0);
    assert_ne!(moved, a.ptr);
    assert_eq!(read_word(&after, 8), 99);
    assert_eq!(heap.read(Gc { ptr: moved }), Some(word(41)));
    assert_eq!(heap.read(a), None);
    assert_eq!(heap.read(b), None);
}

#[test]
fn unrooted_garbage() {
    let mut heap = Heap::new();
    let int = int_type(&mut heap);
    let a = heap.allocate(int, &word(1)).unwrap();
    assert_eq!(heap.block_count(), 1);
    heap.set_post_block_count(0);
    assert!(heap.collect().unwrap().ran);
    assert_eq!(heap.block_count(), 0);
    assert_eq!(heap.post_block_count(), 0);
    assert_eq!(heap.read(a), None);
}

#[test]
fn root_cycle() {
    let mut heap = Heap::new();
    let cell = cell_type(&mut heap);
    let mut empty = word(0);
    empty.extend_from_slice(&word(0));
    let a = heap.allocate(cell, &empty).unwrap();
    let b = heap.allocate(cell, &empty).unwrap();
    heap.store(a, 0, b.ptr).unwrap();
    heap.store(b, 0, a.ptr).unwrap();
    let ra = Root::from_gc(&mut heap, a).unwrap();
    let rb = Root::from_gc(&mut heap, b).unwrap();
    ra.drop(&mut heap);
    rb.drop(&mut heap);
    heap.set_post_block_count(0);
    assert!(heap.collect().unwrap().ran);
    assert_eq!(heap.block_count(), 0);
    assert_eq!(heap.read(a), None);
    assert_eq!(heap.read(b), None);
}

#[test]
fn shared_root() {
    let mut heap = Heap::new();
    let int = int_type(&mut heap);
    let g = heap.allocate(int, &word(5)).unwrap();
    let r1 = Root::from_gc(&mut heap, g).unwrap();
    let r2 = r1.clone(&mut heap).unwrap();
    assert_eq!(heap.root_inner(r2.number()).unwrap().ref_count, 2);
    r1.drop(&mut heap);
    assert_eq!(heap.root_inner(r2.number()).unwrap().ref_count, 1);
    heap.set_post_block_count(0);
    assert!(heap.collect().unwrap().ran);
    assert_eq!(heap.deref(r2.number()), Some(word(5)));
}

#[test]
fn type_downcast() {
    let mut heap = Heap::new();
    let int = int_type(&mut heap);
    let text = heap.register(2, 1, vec![], true).unwrap();
    let s = heap.allocate(text, &b"hi".to_vec()).unwrap();
    let root = Root::from_gc(&mut heap, s).unwrap();
    let second = root.clone(&mut heap).unwrap();
    assert_eq!(
        RootGc::try_from(root, &mut heap, int),
        Err(GcError::TypeMismatch { stored: text, requested: int })
    );
    let typed = RootGc::try_from(second, &mut heap, text).unwrap();
    assert_eq!(typed.identity(), text);
    assert_eq!(typed.deref(&heap), Some(b"hi".to_vec()));
}
