use nickel::block::{Block, FullBlock};
use nickel::collect::Evacuation;
use nickel::heap::{Gc, GcError, Heap};
use nickel::info::{Info, Slot, TraceAt, TraceFn};
use nickel::layout::{align_up, header_from, BLOCK_SIZE, HEADER_SIZE};
use nickel::root::{rooting, Root, RootGc, RootInner, Rooting};
use nickel::status::ObjectStatus;

fn le(v: u64) -> Vec<u8> {
    v.to_le_bytes().to_vec()
}

fn at(bytes: &[u8], off: usize) -> u64 {
    let mut w = [0u8; 8];
    w.copy_from_slice(&bytes[off..off + 8]);
    u64::from_le_bytes(w)
}

fn pair(a: u64, b: u64) -> Vec<u8> {
    let mut v = le(a);
    v.extend_from_slice(&le(b));
    v
}

fn plain(heap: &mut Heap) -> u64 {
    heap.register(8, 8, vec![], true).unwrap()
}

fn pointer_cell(heap: &mut Heap) -> u64 {
    heap.register(16, 8, vec![Slot { offset: 0, trace_fn: TraceFn::Gc }], true).unwrap()
}

fn handle_cell(heap: &mut Heap) -> u64 {
    heap.register(16, 8, vec![Slot { offset: 8, trace_fn: TraceFn::Root }], true).unwrap()
}

#[test]
fn align_up_rounds_to_the_next_multiple() {
    assert_eq!(align_up(65, 8), Some(72));
    assert_eq!(align_up(64, 8), Some(64));
    assert_eq!(align_up(0, 16), Some(0));
    assert_eq!(align_up(1, 1), Some(1));
    assert_eq!(align_up(7, 3), Some(9));
}

#[test]
fn align_up_reports_overflow() {
    assert_eq!(align_up(u64::MAX, 8), None);
    assert_eq!(align_up(u64::MAX - 7, 8), Some(u64::MAX - 7));
}

#[test]
fn header_from_masks_the_low_bits() {
    assert_eq!(header_from(0x12345), 0x10000);
    assert_eq!(header_from(0x10000), 0x10000);
    assert_eq!(header_from(0x1ffff), 0x10000);
    assert_eq!(header_from(0xffff), 0);
}

#[test]
fn block_takes_exactly_its_capacity() {
    let capacity = (BLOCK_SIZE - HEADER_SIZE) as usize;
    let mut block = Block::new(BLOCK_SIZE, false);
    assert!(block.checksum());
    assert_eq!(block.cursor(), BLOCK_SIZE + HEADER_SIZE);
    assert_eq!(block.allocate(capacity, 8, 0), Ok(BLOCK_SIZE + HEADER_SIZE));
    assert_eq!(block.cursor(), block.end());
    assert_eq!(block.allocate(1, 1, 0), Err(FullBlock));
    let mut other = Block::new(2 * BLOCK_SIZE, true);
    assert_eq!(other.allocate(capacity + 1, 1, 0), Err(FullBlock));
    assert!(other.marker());
    assert_eq!(other.objects().len(), 0);
}

#[test]
fn block_aligns_the_cursor_and_the_size() {
    let mut block = Block::new(BLOCK_SIZE, false);
    let a = block.allocate(3, 1, 7).unwrap();
    assert_eq!(a, BLOCK_SIZE + HEADER_SIZE);
    let b = block.allocate(5, 16, 9).unwrap();
    assert_eq!(b, BLOCK_SIZE + HEADER_SIZE + 16);
    assert_eq!(block.cursor(), b + 16);
    assert_eq!(block.lookup(b).unwrap().info, 9);
    assert_eq!(block.lookup(b).unwrap().size, 5);
    assert_eq!(block.lookup(a + 1), None);
    assert_eq!(block.objects(), &vec![a, b]);
}

#[test]
fn block_words_and_statuses() {
    let mut block = Block::new(BLOCK_SIZE, false);
    let a = block.allocate(16, 8, 0).unwrap();
    block.write_word(a, 8, 0x0102_0304_0506_0708);
    assert_eq!(block.read_word(a, 8), 0x0102_0304_0506_0708);
    assert_eq!(block.read_word(a, 0), 0);
    assert_eq!(block.read(a)[8], 8);
    assert_eq!(block.status(a), None);
    block.set_status(a, ObjectStatus::Moved(5));
    assert_eq!(block.status(a), Some(ObjectStatus::Moved(5)));
    block.clear_status(a);
    assert_eq!(block.status(a), None);
}

#[test]
fn descriptors_are_checked() {
    let mut heap = Heap::new();
    assert_eq!(heap.register(0, 8, vec![], true), Err(GcError::InvalidDescriptor));
    assert_eq!(heap.register(8, 0, vec![], true), Err(GcError::InvalidDescriptor));
    assert_eq!(heap.register(8, 3, vec![], true), Err(GcError::InvalidDescriptor));
    assert_eq!(heap.register(65473, 1, vec![], true), Err(GcError::InvalidDescriptor));
    assert_eq!(heap.register(65472, 64, vec![], true), Ok(0));
    let outside = vec![Slot { offset: 1, trace_fn: TraceFn::Gc }];
    assert_eq!(heap.register(8, 8, outside, true), Err(GcError::InvalidDescriptor));
    let overlapping = vec![
        Slot { offset: 0, trace_fn: TraceFn::Gc },
        Slot { offset: 4, trace_fn: TraceFn::Gc },
    ];
    assert_eq!(heap.register(16, 8, overlapping, true), Err(GcError::InvalidDescriptor));
    let unordered = vec![
        Slot { offset: 8, trace_fn: TraceFn::Gc },
        Slot { offset: 0, trace_fn: TraceFn::Gc },
    ];
    assert_eq!(heap.register(16, 8, unordered, true), Err(GcError::InvalidDescriptor));
    let good = vec![
        Slot { offset: 0, trace_fn: TraceFn::Gc },
        Slot { offset: 8, trace_fn: TraceFn::Root },
    ];
    assert_eq!(heap.register(16, 8, good, false), Ok(1));
    assert_eq!(heap.info_of(1).unwrap().identity, 1);
    assert_eq!(heap.info_of(1).unwrap().safe_to_drop, false);
    assert!(heap.info_of(2).is_none());
}

#[test]
fn trace_lists_one_entry_for_each_pointer_field() {
    let info = Info {
        size: 24,
        align: 8,
        slots: vec![
            Slot { offset: 0, trace_fn: TraceFn::Gc },
            Slot { offset: 16, trace_fn: TraceFn::Root },
        ],
        safe_to_drop: true,
        identity: 0,
    };
    assert!(info.check());
    let mut out = vec![TraceAt::of_val(1, TraceFn::Gc)];
    info.trace(0x10040, &mut out);
    assert_eq!(
        out,
        vec![
            TraceAt { ptr_to_gc: 1, trace_fn: TraceFn::Gc },
            TraceAt { ptr_to_gc: 0x10040, trace_fn: TraceFn::Gc },
            TraceAt { ptr_to_gc: 0x10050, trace_fn: TraceFn::Root },
        ]
    );
}

#[test]
fn allocation_checks_the_value() {
    let mut heap = Heap::new();
    let int = plain(&mut heap);
    let cell = pointer_cell(&mut heap);
    assert_eq!(heap.allocate(9, &le(1)), Err(GcError::InvalidDescriptor));
    assert_eq!(heap.allocate(int, &vec![1, 2, 3]), Err(GcError::InvalidValue));
    assert_eq!(heap.allocate(cell, &pair(0x10048, 0)), Err(GcError::InvalidValue));
    assert_eq!(heap.block_count(), 0);
    let a = heap.allocate(int, &le(1)).unwrap();
    assert_eq!(a.ptr, BLOCK_SIZE + HEADER_SIZE);
    assert_eq!(a.ptr % 8, 0);
    let b = heap.allocate(cell, &pair(a.ptr, 3)).unwrap();
    assert_eq!(b.ptr, a.ptr + 8);
    assert_eq!(heap.read(b), Some(pair(a.ptr, 3)));
    assert_eq!(heap.read(Gc::null()), None);
    assert!(Gc::null().is_null());
    assert_eq!(heap.read(Gc { ptr: a.ptr + 1 }), None);
    assert_eq!(heap.status(a), None);
}

#[test]
fn a_full_block_forces_a_fresh_block() {
    let mut heap = Heap::new();
    let big = heap.register(65472, 8, vec![], true).unwrap();
    let small = heap.register(1, 1, vec![], true).unwrap();
    let a = heap.allocate(big, &vec![7u8; 65472]).unwrap();
    assert_eq!(heap.block_count(), 1);
    assert_eq!(a.ptr, BLOCK_SIZE + HEADER_SIZE);
    let b = heap.allocate(small, &vec![1u8]).unwrap();
    assert_eq!(heap.block_count(), 2);
    assert_eq!(b.ptr, 2 * BLOCK_SIZE + HEADER_SIZE);
    let c = heap.allocate(small, &vec![2u8]).unwrap();
    assert_eq!(heap.block_count(), 2);
    assert_eq!(c.ptr, b.ptr + 1);
}

#[test]
fn the_trigger_compares_live_and_surviving_blocks() {
    let mut heap = Heap::new();
    assert!(heap.should_collect());
    let int = plain(&mut heap);
    heap.allocate(int, &le(1)).unwrap();
    heap.set_post_block_count(1);
    assert!(!heap.should_collect());
    heap.set_post_block_count(usize::MAX);
    assert!(!heap.should_collect());
    heap.set_post_block_count(0);
    assert!(heap.should_collect());
    assert_eq!(heap.marker(), false);
}

#[test]
fn rooting_decides_by_status() {
    assert_eq!(rooting(None), Rooting::Fresh);
    assert_eq!(rooting(Some(ObjectStatus::Rooted(4))), Rooting::Shared(4));
    assert_eq!(rooting(Some(ObjectStatus::Moved(64))), Rooting::Refused);
    assert_eq!(rooting(Some(ObjectStatus::Dropped)), Rooting::Refused);
}

#[test]
fn rooting_twice_shares_one_root_inner() {
    let mut heap = Heap::new();
    let int = plain(&mut heap);
    let g = heap.allocate(int, &le(3)).unwrap();
    let first = Root::from_gc(&mut heap, g).unwrap();
    let second = Root::from(&mut heap, g).unwrap();
    assert_eq!(first.number(), second.number());
    assert_eq!(first, second);
    let inner = heap.root_inner(first.number()).unwrap();
    assert_eq!(
        inner,
        RootInner { ptr: g.ptr, trace_fn: 0, collection_marker: false, traced_count: 0, ref_count: 2 }
    );
    assert_eq!(heap.status(g), Some(ObjectStatus::Rooted(first.number())));
}

#[test]
fn rooting_a_stale_pointer_is_refused() {
    let mut heap = Heap::new();
    let int = plain(&mut heap);
    let g = heap.allocate(int, &le(3)).unwrap();
    assert_eq!(Root::from_gc(&mut heap, Gc { ptr: 17 }), Err(GcError::PreconditionViolation));
    assert_eq!(RootGc::from_gc(&mut heap, Gc::null()).err(), Some(GcError::PreconditionViolation));
    heap.set_post_block_count(0);
    heap.collect().unwrap();
    assert_eq!(Root::from_gc(&mut heap, g), Err(GcError::PreconditionViolation));
}

#[test]
fn the_last_drop_frees_the_root_inner() {
    let mut heap = Heap::new();
    let int = plain(&mut heap);
    let g = heap.allocate(int, &le(3)).unwrap();
    let root = Root::from_gc(&mut heap, g).unwrap();
    let id = root.number();
    let copy = root.clone(&mut heap).unwrap();
    root.drop(&mut heap);
    assert_eq!(heap.root_inner(id).unwrap().ref_count, 1);
    assert_eq!(heap.status(g), Some(ObjectStatus::Rooted(id)));
    let stale = Root::from_gc(&mut heap, g).unwrap();
    stale.drop(&mut heap);
    copy.drop(&mut heap);
    assert_eq!(heap.root_inner(id), None);
    assert_eq!(heap.status(g), None);
    assert_eq!(heap.deref(id), None);
    assert_eq!(heap.retain(id), Err(GcError::InvariantViolation));
    heap.release(id);
    assert_eq!(heap.root_inner(id), None);
    let again = Root::from_gc(&mut heap, g).unwrap();
    assert_eq!(again.number(), id + 1);
}

#[test]
fn storing_checks_the_field_and_the_value() {
    let mut heap = Heap::new();
    let int = plain(&mut heap);
    let cell = pointer_cell(&mut heap);
    let a = heap.allocate(int, &le(1)).unwrap();
    let b = heap.allocate(cell, &pair(0, 9)).unwrap();
    assert_eq!(heap.store(Gc { ptr: 5 }, 0, 0), Err(GcError::PreconditionViolation));
    assert_eq!(heap.store(b, 1, a.ptr), Err(GcError::InvalidValue));
    assert_eq!(heap.store(a, 0, a.ptr), Err(GcError::InvalidValue));
    assert_eq!(heap.store(b, 0, a.ptr + 1), Err(GcError::InvalidValue));
    assert_eq!(heap.store(b, 0, a.ptr), Ok(()));
    assert_eq!(heap.read(b), Some(pair(a.ptr, 9)));
    assert_eq!(heap.store(b, 0, 0), Ok(()));
    assert_eq!(heap.read(b), Some(pair(0, 9)));
    assert_eq!(heap.read(a), Some(le(1)));
}

#[test]
fn collect_does_nothing_below_the_trigger() {
    let mut heap = Heap::new();
    let int = plain(&mut heap);
    let a = heap.allocate(int, &le(1)).unwrap();
    heap.set_post_block_count(1);
    let done = heap.collect().unwrap();
    assert!(!done.ran);
    assert!(done.dropped.is_empty());
    assert_eq!(heap.read(a), Some(le(1)));
    assert_eq!(heap.block_count(), 1);
    assert_eq!(heap.post_block_count(), 1);
    assert_eq!(heap.marker(), false);
}

#[test]
fn collect_twice_leaves_the_heap_as_after_the_first() {
    let mut heap = Heap::new();
    let int = plain(&mut heap);
    let a = heap.allocate(int, &le(11)).unwrap();
    let root = Root::from_gc(&mut heap, a).unwrap();
    let first = heap.collect().unwrap();
    assert!(first.ran);
    assert_eq!(heap.block_count(), 1);
    assert_eq!(heap.post_block_count(), 1);
    assert_eq!(heap.marker(), true);
    let moved = heap.root_inner(root.number()).unwrap().ptr;
    assert_eq!(moved, 2 * BLOCK_SIZE + HEADER_SIZE);
    let second = heap.collect().unwrap();
    assert!(!second.ran);
    assert_eq!(heap.root_inner(root.number()).unwrap().ptr, moved);
    assert_eq!(heap.marker(), true);
    assert_eq!(heap.deref(root.number()), Some(le(11)));
}

#[test]
fn a_root_survives_every_cycle() {
    let mut heap = Heap::new();
    let int = plain(&mut heap);
    let a = heap.allocate(int, &le(21)).unwrap();
    let root = RootGc::from_gc(&mut heap, a).unwrap();
    for round in 0..5u64 {
        heap.set_post_block_count(0);
        assert!(heap.collect().unwrap().ran);
        assert_eq!(root.deref(&heap), Some(le(21)));
        let inner = heap.root_inner(root.as_root().number()).unwrap();
        assert_eq!(inner.ptr, (round + 2) * BLOCK_SIZE + HEADER_SIZE);
        assert_eq!(inner.traced_count, 0);
        assert_eq!(inner.ref_count, 1);
        assert_eq!(heap.status(Gc { ptr: inner.ptr }), Some(ObjectStatus::Rooted(1)));
    }
    assert_eq!(root.identity(), int);
    let untyped = root.into_root();
    untyped.drop(&mut heap);
    heap.set_post_block_count(0);
    heap.collect().unwrap();
    assert_eq!(heap.block_count(), 0);
}

#[test]
fn an_unrooted_cycle_is_reclaimed() {
    let mut heap = Heap::new();
    let cell = pointer_cell(&mut heap);
    let mut all = Vec::new();
    for i in 0..10u64 {
        all.push(heap.allocate(cell, &pair(0, i)).unwrap());
    }
    for i in 0..10 {
        heap.store(all[i], 0, all[(i + 1) % 10].ptr).unwrap();
    }
    let kept = heap.allocate(cell, &pair(0, 77)).unwrap();
    let root = Root::from_gc(&mut heap, kept).unwrap();
    heap.set_post_block_count(0);
    assert!(heap.collect().unwrap().ran);
    for g in &all {
        assert_eq!(heap.read(*g), None);
    }
    assert_eq!(heap.deref(root.number()), Some(pair(0, 77)));
    let moved = heap.root_inner(root.number()).unwrap().ptr;
    assert_eq!(moved, 2 * BLOCK_SIZE + HEADER_SIZE);
    assert_eq!(heap.read(Gc { ptr: moved + 16 }), None);
}

#[test]
fn a_rooted_cycle_survives_with_its_pointers_rewritten() {
    let mut heap = Heap::new();
    let cell = pointer_cell(&mut heap);
    let a = heap.allocate(cell, &pair(0, 1)).unwrap();
    let b = heap.allocate(cell, &pair(a.ptr, 2)).unwrap();
    heap.store(a, 0, b.ptr).unwrap();
    let root = Root::from_gc(&mut heap, a).unwrap();
    heap.set_post_block_count(0);
    assert!(heap.collect().unwrap().ran);
    let new_a = heap.root_inner(root.number()).unwrap().ptr;
    let bytes_a = heap.read(Gc { ptr: new_a }).unwrap();
    let new_b = at(&bytes_a, 0);
    assert_eq!(at(&bytes_a, 8), 1);
    let bytes_b = heap.read(Gc { ptr: new_b }).unwrap();
    assert_eq!(at(&bytes_b, 0), new_a);
    assert_eq!(at(&bytes_b, 8), 2);
    assert_ne!(new_a, a.ptr);
    assert_ne!(new_b, b.ptr);
}

#[test]
fn what_is_not_safe_to_drop_is_handed_back() {
    let mut heap = Heap::new();
    let plain_type = plain(&mut heap);
    let guarded = heap.register(8, 8, vec![], false).unwrap();
    let lost = heap.allocate(guarded, &le(5)).unwrap();
    let kept = heap.allocate(guarded, &le(6)).unwrap();
    heap.allocate(plain_type, &le(7)).unwrap();
    let root = Root::from_gc(&mut heap, kept).unwrap();
    heap.set_post_block_count(0);
    let done = heap.collect().unwrap();
    assert!(done.ran);
    assert_eq!(done.dropped.len(), 1);
    assert_eq!(done.dropped[0].ptr, lost.ptr);
    assert_eq!(done.dropped[0].info, guarded as usize);
    assert_eq!(done.dropped[0].bytes, le(5));
    assert_eq!(heap.deref(root.number()), Some(le(6)));
}

#[test]
fn counting_a_traced_handle() {
    let mut inner = RootInner::new(64, 2, false);
    inner.ref_count = 2;
    assert!(!inner.note_traced(false));
    assert_eq!(inner.traced_count, 1);
    assert!(inner.note_traced(false));
    assert_eq!(inner.traced_count, 2);
    assert!(inner.note_traced(false));
    assert_eq!(inner.traced_count, 2);
    assert!(!inner.note_traced(true));
    assert_eq!(inner.traced_count, 1);
    assert_eq!(inner.collection_marker, true);
    assert_eq!(inner.ptr, 64);
    assert_eq!(inner.trace_fn, 2);
}

#[test]
fn a_root_whose_handles_are_all_in_the_heap_is_demoted() {
    let mut heap = Heap::new();
    let int = plain(&mut heap);
    let holder = handle_cell(&mut heap);
    let target = heap.allocate(int, &le(9)).unwrap();
    let handle = Root::from_gc(&mut heap, target).unwrap();
    let id = handle.number();
    let keeper = heap.allocate(holder, &pair(0, id)).unwrap();
    let keeper_root = Root::from_gc(&mut heap, keeper).unwrap();
    assert_eq!(heap.status(target), Some(ObjectStatus::Rooted(id)));
    heap.set_post_block_count(0);
    assert!(heap.collect().unwrap().ran);
    let inner = heap.root_inner(id).unwrap();
    assert_eq!(inner.ref_count, 1);
    assert_eq!(inner.traced_count, 0);
    assert_eq!(heap.deref(id), Some(le(9)));
    assert_eq!(heap.status(Gc { ptr: inner.ptr }), None);
    let kept = heap.deref(keeper_root.number()).unwrap();
    assert_eq!(at(&kept, 8), id);
    heap.set_post_block_count(0);
    assert!(heap.collect().unwrap().ran);
    assert_eq!(heap.deref(id), Some(le(9)));
    keeper_root.drop(&mut heap);
    heap.set_post_block_count(0);
    assert!(heap.collect().unwrap().ran);
    assert_eq!(heap.deref(id), None);
    assert_eq!(heap.block_count(), 0);
    assert_eq!(RootGc::try_from(handle, &mut heap, int), Err(GcError::InvariantViolation));
    assert_eq!(heap.root_inner(id), None);
}

#[test]
fn a_root_with_a_handle_outside_the_heap_stays_entered() {
    let mut heap = Heap::new();
    let int = plain(&mut heap);
    let holder = handle_cell(&mut heap);
    let target = heap.allocate(int, &le(9)).unwrap();
    let outside = Root::from_gc(&mut heap, target).unwrap();
    let inside = outside.clone(&mut heap).unwrap();
    let id = inside.number();
    let keeper = heap.allocate(holder, &pair(0, id)).unwrap();
    let keeper_root = Root::from_gc(&mut heap, keeper).unwrap();
    heap.set_post_block_count(0);
    assert!(heap.collect().unwrap().ran);
    let inner = heap.root_inner(id).unwrap();
    assert_eq!(inner.ref_count, 2);
    assert_eq!(heap.status(Gc { ptr: inner.ptr }), Some(ObjectStatus::Rooted(id)));
    keeper_root.drop(&mut heap);
    heap.set_post_block_count(0);
    assert!(heap.collect().unwrap().ran);
    assert_eq!(heap.deref(outside.number()), Some(le(9)));
}

#[test]
fn a_root_is_demoted_when_the_heap_keeps_as_many_handles_as_it_has() {
    let mut heap = Heap::new();
    let int = plain(&mut heap);
    let holder = handle_cell(&mut heap);
    let target = heap.allocate(int, &le(9)).unwrap();
    let outside = Root::from_gc(&mut heap, target).unwrap();
    let _first = outside.clone(&mut heap).unwrap();
    let _second = outside.clone(&mut heap).unwrap();
    let id = outside.number();
    let one = heap.allocate(holder, &pair(0, id)).unwrap();
    let two = heap.allocate(holder, &pair(0, id)).unwrap();
    let _one_root = Root::from_gc(&mut heap, one).unwrap();
    let _two_root = Root::from_gc(&mut heap, two).unwrap();
    heap.set_post_block_count(0);
    assert!(heap.collect().unwrap().ran);
    let inner = heap.root_inner(id).unwrap();
    assert_eq!(inner.ref_count, 3);
    assert_eq!(heap.status(Gc { ptr: inner.ptr }), Some(ObjectStatus::Rooted(id)));
    outside.drop(&mut heap);
    heap.set_post_block_count(0);
    assert!(heap.collect().unwrap().ran);
    let inner = heap.root_inner(id).unwrap();
    assert_eq!(inner.ref_count, 2);
    assert_eq!(heap.status(Gc { ptr: inner.ptr }), None);
    assert_eq!(heap.deref(id), Some(le(9)));
}

#[test]
fn a_cycle_step_by_step() {
    let mut heap = Heap::new();
    let int = plain(&mut heap);
    let holder = handle_cell(&mut heap);
    let target = heap.allocate(int, &le(4)).unwrap();
    let handle = Root::from_gc(&mut heap, target).unwrap();
    let id = handle.number();
    let outside = handle.clone(&mut heap).unwrap();
    let keeper = heap.allocate(holder, &pair(0, id)).unwrap();
    let keeper_root = Root::from_gc(&mut heap, keeper).unwrap();
    let (mut cycle, mut worklist) = match Evacuation::begin(heap) {
        Ok(pair) => pair,
        Err(_) => panic!("the cycle did not begin"),
    };
    worklist.sort();
    assert_eq!(worklist, vec![target.ptr, keeper.ptr]);
    assert!(cycle.marker());
    assert_eq!(
        cycle.root_inner(id),
        Some(RootInner { ptr: target.ptr, trace_fn: 0, collection_marker: false, traced_count: 0, ref_count: 2 })
    );
    Root::trace(&handle, &mut cycle);
    let copy = 2 * BLOCK_SIZE + HEADER_SIZE;
    assert_eq!(
        cycle.root_inner(id),
        Some(RootInner { ptr: copy, trace_fn: 0, collection_marker: true, traced_count: 1, ref_count: 2 })
    );
    assert_eq!(cycle.copy_status(copy), Some(ObjectStatus::Rooted(id)));
    Root::trace(&handle, &mut cycle);
    assert_eq!(
        cycle.root_inner(id),
        Some(RootInner { ptr: copy, trace_fn: 0, collection_marker: true, traced_count: 2, ref_count: 2 })
    );
    assert_eq!(cycle.copy_status(copy), None);
    assert_eq!(cycle.root_inner(id + 7), None);
    cycle.run(&worklist);
    let (heap, dropped, _) = cycle.finish();
    assert!(dropped.is_empty());
    assert_eq!(heap.deref(outside.number()), Some(le(4)));
    assert_eq!(heap.deref(keeper_root.number()), Some(pair(0, id)));
    assert_eq!(heap.post_block_count(), 1);
    assert_eq!(heap.root_inner(id).unwrap().traced_count, 0);
    assert_eq!(heap.root_inner(id).unwrap().collection_marker, true);
    assert_eq!(heap.status(Gc { ptr: copy }), None);
}

#[test]
fn a_handle_that_the_host_traces_counts_like_one_in_the_heap() {
    let mut heap = Heap::new();
    let int = plain(&mut heap);
    let target = heap.allocate(int, &le(4)).unwrap();
    let handle = Root::from_gc(&mut heap, target).unwrap();
    let id = handle.number();
    let (mut cycle, worklist) = match Evacuation::begin(heap) {
        Ok(pair) => pair,
        Err(_) => panic!("the cycle did not begin"),
    };
    Root::trace(&handle, &mut cycle);
    let inner = cycle.root_inner(id).unwrap();
    assert_eq!((inner.traced_count, inner.ref_count), (1, 1));
    assert_eq!(cycle.copy_status(inner.ptr), None);
    cycle.run(&worklist);
    let (mut heap, dropped, _) = cycle.finish();
    assert!(dropped.is_empty());
    assert_eq!(heap.status(Gc { ptr: inner.ptr }), None);
    assert_eq!(heap.deref(id), Some(le(4)));
    heap.set_post_block_count(0);
    assert!(heap.collect().unwrap().ran);
    assert_eq!(heap.deref(id), None);
    assert_eq!(heap.block_count(), 0);
}

#[test]
fn a_count_of_an_earlier_cycle_is_discarded() {
    let mut heap = Heap::new();
    let int = plain(&mut heap);
    let holder = handle_cell(&mut heap);
    let target = heap.allocate(int, &le(4)).unwrap();
    let handle = Root::from_gc(&mut heap, target).unwrap();
    let id = handle.number();
    let _outside = handle.clone(&mut heap).unwrap();
    let keeper = heap.allocate(holder, &pair(0, id)).unwrap();
    let _keeper_root = Root::from_gc(&mut heap, keeper).unwrap();
    assert!(heap.collect().unwrap().ran);
    let before = heap.root_inner(id).unwrap();
    assert_eq!((before.traced_count, before.collection_marker, before.ref_count), (0, true, 2));
    let (mut cycle, _) = match Evacuation::begin(heap) {
        Ok(pair) => pair,
        Err(_) => panic!("the cycle did not begin"),
    };
    assert!(!cycle.marker());
    Root::trace(&handle, &mut cycle);
    let after = cycle.root_inner(id).unwrap();
    assert_eq!((after.traced_count, after.collection_marker, after.ref_count), (1, false, 2));
    assert_eq!(after.trace_fn, before.trace_fn);
    assert_ne!(after.ptr, before.ptr);
    assert_eq!(cycle.copy_status(after.ptr), Some(ObjectStatus::Rooted(id)));
}

#[test]
fn a_freed_number_is_not_given_again() {
    let mut heap = Heap::new();
    let int = plain(&mut heap);
    let a = heap.allocate(int, &le(4)).unwrap();
    let first = Root::from_gc(&mut heap, a).unwrap();
    let id = first.number();
    first.drop(&mut heap);
    assert_eq!(heap.root_info(id), None);
    let second = Root::from_gc(&mut heap, a).unwrap();
    assert_eq!(second.number(), id + 1);
    assert_eq!(heap.root_info(id + 1), Some(int));
    let typed = RootGc::try_from(second, &mut heap, int).unwrap();
    assert_eq!(typed.identity(), int);
    assert_eq!(typed.as_root().number(), id + 1);
}

#[test]
fn a_long_list_survives_across_blocks() {
    let mut heap = Heap::new();
    let cell = pointer_cell(&mut heap);
    let count: u64 = 20_000;
    let mut next = Gc::null();
    for i in 0..count {
        next = heap.allocate(cell, &pair(next.ptr, i)).unwrap();
    }
    assert_eq!(heap.block_count(), 5);
    let garbage = heap.allocate(cell, &pair(next.ptr, 0)).unwrap();
    let root = Root::from_gc(&mut heap, next).unwrap();
    assert!(heap.collect().unwrap().ran);
    assert_eq!(heap.block_count(), 5);
    assert_eq!(heap.post_block_count(), 5);
    assert_eq!(heap.read(garbage), None);
    let mut at_ptr = heap.root_inner(root.number()).unwrap().ptr;
    let mut expected = count;
    while at_ptr != 0 {
        expected -= 1;
        let bytes = heap.read(Gc { ptr: at_ptr }).unwrap();
        assert_eq!(at(&bytes, 8), expected);
        assert!(at_ptr >= 6 * BLOCK_SIZE);
        at_ptr = at(&bytes, 0);
    }
    assert_eq!(expected, 0);
    assert!(!heap.collect().unwrap().ran);
}

#[test]
fn a_handle_that_names_no_root_is_passed_over() {
    let mut heap = Heap::new();
    let holder = handle_cell(&mut heap);
    assert_eq!(heap.allocate(holder, &pair(5, 999)), Err(GcError::InvalidValue));
    assert_eq!(heap.allocate(holder, &pair(5, 1)), Err(GcError::InvalidValue));
    let first = heap.allocate(holder, &pair(5, 0)).unwrap();
    let freed = Root::from_gc(&mut heap, first).unwrap();
    let gone = freed.number();
    freed.drop(&mut heap);
    assert_eq!(heap.store(first, 0, gone + 1), Err(GcError::InvalidValue));
    let a = heap.allocate(holder, &pair(5, gone)).unwrap();
    let root = Root::from_gc(&mut heap, a).unwrap();
    heap.set_post_block_count(0);
    assert!(heap.collect().unwrap().ran);
    assert_eq!(heap.deref(root.number()), Some(pair(5, gone)));
    let moved = heap.root_inner(root.number()).unwrap().ptr;
    assert_eq!(heap.store(Gc { ptr: moved }, 0, root.number()), Ok(()));
    heap.set_post_block_count(0);
    assert!(heap.collect().unwrap().ran);
    assert_eq!(heap.deref(root.number()), Some(pair(5, root.number())));
    assert_eq!(heap.root_inner(root.number()).unwrap().ref_count, 1);
}

#[test]
fn each_dropped_object_is_handed_back_once() {
    let mut heap = Heap::new();
    let guarded = heap.register(8, 8, vec![], false).unwrap();
    let first = heap.allocate(guarded, &le(1)).unwrap();
    let second = heap.allocate(guarded, &le(2)).unwrap();
    let third = heap.allocate(guarded, &le(3)).unwrap();
    let root = Root::from_gc(&mut heap, second).unwrap();
    heap.set_post_block_count(0);
    let done = heap.collect().unwrap();
    let mut places: Vec<(u64, Vec<u8>)> =
        done.dropped.iter().map(|d| (d.ptr, d.bytes.clone())).collect();
    places.sort();
    assert_eq!(places, vec![(first.ptr, le(1)), (third.ptr, le(3))]);
    root.drop(&mut heap);
    heap.set_post_block_count(0);
    let done = heap.collect().unwrap();
    assert_eq!(done.dropped.len(), 1);
    assert_eq!(done.dropped[0].bytes, le(2));
    assert_eq!(heap.block_count(), 0);
}

#[test]
fn a_status_is_kept_by_the_block_of_its_object() {
    let mut heap = Heap::new();
    let big = heap.register(40_000, 8, vec![], true).unwrap();
    let first = heap.allocate(big, &vec![1u8; 40_000]).unwrap();
    let second = heap.allocate(big, &vec![2u8; 40_000]).unwrap();
    assert_eq!(header_from(first.ptr), BLOCK_SIZE);
    assert_eq!(header_from(second.ptr), 2 * BLOCK_SIZE);
    let root = Root::from_gc(&mut heap, second).unwrap();
    assert_eq!(heap.status(second), Some(ObjectStatus::Rooted(root.number())));
    assert_eq!(heap.status(first), None);
    assert_eq!(heap.status(Gc { ptr: second.ptr - BLOCK_SIZE }), None);
    assert_eq!(heap.status(Gc { ptr: second.ptr + BLOCK_SIZE }), None);
}

#[test]
fn a_typed_handle_is_cloned_with_its_type() {
    let mut heap = Heap::new();
    let int = plain(&mut heap);
    let target = heap.allocate(int, &le(5)).unwrap();
    let typed = RootGc::from_gc(&mut heap, target).unwrap();
    let id = typed.as_root().number();
    let second = typed.clone(&mut heap).unwrap();
    assert_eq!(second, typed);
    assert_eq!(second.identity(), int);
    assert_eq!(second.as_root().number(), id);
    assert_eq!(heap.root_inner(id).unwrap().ref_count, 2);
    assert_eq!(second.deref(&heap), Some(le(5)));
    typed.into_root().drop(&mut heap);
    assert_eq!(heap.root_inner(id).unwrap().ref_count, 1);
    second.into_root().drop(&mut heap);
    assert_eq!(heap.root_inner(id), None);
}

#[test]
fn handles_are_ordered_by_their_number() {
    let mut heap = Heap::new();
    let int = plain(&mut heap);
    let one = heap.allocate(int, &le(1)).unwrap();
    let two = heap.allocate(int, &le(2)).unwrap();
    let first = Root::from_gc(&mut heap, one).unwrap();
    let second = Root::from_gc(&mut heap, two).unwrap();
    let again = first.clone(&mut heap).unwrap();
    assert!(first < second);
    assert!(second > again);
    assert_eq!(first.cmp(&again), std::cmp::Ordering::Equal);
    assert_eq!(first.max(second).number(), 2);
}

#[test]
fn statuses_can_be_kept_in_a_set() {
    let mut seen = std::collections::HashSet::new();
    assert!(seen.insert(ObjectStatus::Rooted(3)));
    assert!(seen.insert(ObjectStatus::Moved(3)));
    assert!(seen.insert(ObjectStatus::Dropped));
    assert!(!seen.insert(ObjectStatus::Rooted(3)));
    assert_eq!(seen.len(), 3);
}
