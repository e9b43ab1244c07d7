use nickel::block::ObjectEntry;
use nickel::collect::sweep;
use nickel::info::Info;
use nickel::layout::{BLOCK_SIZE, HEADER_SIZE};
use nickel::space::{Space, SpaceError};
use nickel::status::ObjectStatus;

#[test]
fn a_space_opens_blocks_one_behind_the_other() {
    let mut space = Space::new(3 * BLOCK_SIZE, true);
    assert_eq!(space.first(), 3 * BLOCK_SIZE);
    assert_eq!(space.block_count(), 0);
    assert!(space.marker());
    assert_eq!(space.find(3 * BLOCK_SIZE), None);
    let a = space.allocate(40_000, 8, 2, &vec![1u8; 40_000]).unwrap();
    let b = space.allocate(40_000, 8, 3, &vec![2u8; 40_000]).unwrap();
    assert_eq!(a, 3 * BLOCK_SIZE + HEADER_SIZE);
    assert_eq!(b, 4 * BLOCK_SIZE + HEADER_SIZE);
    assert_eq!(space.block_count(), 2);
    assert_eq!(space.find(a), Some(0));
    assert_eq!(space.find(b + 100), Some(1));
    assert_eq!(space.find(5 * BLOCK_SIZE), None);
    assert_eq!(space.find(BLOCK_SIZE), None);
    assert_eq!(space.lookup(b), Some(ObjectEntry { info: 3, size: 40_000 }));
    assert_eq!(space.lookup(b + 8), None);
    assert_eq!(space.object_list(), vec![a, b]);
    assert_eq!(space.read(b)[39_999], 2);
    let c = space.allocate(8, 8, 1, &vec![0u8; 8]).unwrap();
    assert_eq!(c, b + 40_000);
    space.write_word(c, 0, 77);
    assert_eq!(space.read_word(c, 0), 77);
    assert_eq!(space.object_list(), vec![a, b, c]);
}

#[test]
fn a_space_refuses_what_it_cannot_take() {
    let last = u64::MAX - 0xffff;
    let mut space = Space::new(last, false);
    assert_eq!(space.allocate(8, 8, 0, &vec![0u8; 8]), Err(SpaceError::OutOfMemory));
    assert_eq!(space.block_count(), 0);
    let mut roomy = Space::new(BLOCK_SIZE, false);
    assert_eq!(roomy.allocate(65_473, 1, 0, &vec![0u8; 65_473]), Err(SpaceError::TooLarge));
    assert_eq!(roomy.allocate(65_472, 128, 0, &vec![0u8; 65_472]), Err(SpaceError::TooLarge));
    assert_eq!(roomy.block_count(), 0);
    assert_eq!(roomy.allocate(65_472, 64, 0, &vec![0u8; 65_472]), Ok(BLOCK_SIZE + HEADER_SIZE));
}

#[test]
fn statuses_of_a_space() {
    let mut space = Space::new(BLOCK_SIZE, false);
    let a = space.allocate(8, 8, 0, &vec![0u8; 8]).unwrap();
    assert_eq!(space.status(a), None);
    assert_eq!(space.status(5), None);
    space.set_status(a, ObjectStatus::Rooted(3));
    assert_eq!(space.status(a), Some(ObjectStatus::Rooted(3)));
    space.clear_status(a + 1);
    space.clear_status(7);
    assert_eq!(space.status(a), Some(ObjectStatus::Rooted(3)));
    space.clear_status(a);
    assert_eq!(space.status(a), None);
}

#[test]
fn a_sweep_drops_what_was_not_moved() {
    let guarded = Info { size: 8, align: 8, slots: vec![], safe_to_drop: false, identity: 0 };
    let plain = Info { size: 8, align: 8, slots: vec![], safe_to_drop: true, identity: 1 };
    let infos = vec![guarded, plain];
    let mut space = Space::new(BLOCK_SIZE, false);
    let a = space.allocate(8, 8, 0, &vec![1u8; 8]).unwrap();
    let b = space.allocate(8, 8, 0, &vec![2u8; 8]).unwrap();
    let c = space.allocate(8, 8, 1, &vec![3u8; 8]).unwrap();
    let d = space.allocate(8, 8, 0, &vec![4u8; 8]).unwrap();
    space.set_status(b, ObjectStatus::Moved(2 * BLOCK_SIZE + HEADER_SIZE));
    space.set_status(d, ObjectStatus::Rooted(1));
    let mut dropped: Vec<(u64, usize, Vec<u8>)> =
        sweep(&mut space, &infos).into_iter().map(|o| (o.ptr, o.info, o.bytes)).collect();
    dropped.sort();
    assert_eq!(dropped, vec![(a, 0, vec![1u8; 8]), (d, 0, vec![4u8; 8])]);
    assert_eq!(space.status(a), Some(ObjectStatus::Dropped));
    assert_eq!(space.status(b), Some(ObjectStatus::Moved(2 * BLOCK_SIZE + HEADER_SIZE)));
    assert_eq!(space.status(c), None);
    assert_eq!(space.status(d), Some(ObjectStatus::Dropped));
}
