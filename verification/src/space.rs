//! A run of blocks at consecutive addresses. The heap's live blocks form one
//! space; during a collection cycle the blocks being evacuated and the blocks
//! being filled are two.

use vstd::prelude::*;
use vstd::bytes::spec_u64_to_le_bytes;
use crate::block::{Block, ObjectEntry, spec_splice, spec_word};
use crate::layout::{BLOCK_SIZE, header_from, HEADER_SIZE, spec_align_up, spec_header_from};
use crate::status::ObjectStatus;

verus! {

/// Why a space could not take an allocation.
#[derive(Clone, Copy, Debug, PartialEq, Eq, Structural)]
pub enum SpaceError {
    /// No address is left for another block.
    OutOfMemory,
    /// The object does not fit into an empty block.
    TooLarge,
}

/// Whether an object of `size` bytes aligned to `align` fits into an empty
/// block that starts at `base`.
pub open spec fn fresh_fits(base: int, size: usize, align: usize) -> bool {
    spec_align_up(base + HEADER_SIZE, align as int) + spec_align_up(size as int, align as int)
        <= base + BLOCK_SIZE
}

/// Blocks at consecutive addresses, the first at `first`. Allocation bumps
/// the cursor of the last block and opens a new block behind it when that
/// one is full.
pub struct Space {
    first: u64,
    marker: bool,
    blocks: Vec<Block>,
}

impl Space {
    /// The space's invariant.
    pub closed spec fn wf(&self) -> bool {
        &&& self.first % BLOCK_SIZE == 0
        &&& self.first > 0
        &&& self.first + self.blocks@.len() * BLOCK_SIZE <= u64::MAX
        &&& forall|i: int|
            0 <= i < self.blocks@.len() ==> (#[trigger] self.blocks@[i]).wf() && self.blocks@[i].spec_base()
                == self.first + i * BLOCK_SIZE && self.blocks@[i].spec_marker() == self.marker
                && self.blocks@[i].spec_objects().len() > 0
    }

    /// Address of the first block.
    pub closed spec fn spec_first(&self) -> u64 {
        self.first
    }

    /// The generation bit that the space's blocks carry.
    pub closed spec fn spec_marker(&self) -> bool {
        self.marker
    }

    /// Number of blocks.
    pub closed spec fn spec_block_count(&self) -> nat {
        self.blocks@.len()
    }

    /// The blocks, in address order.
    pub closed spec fn spec_blocks(&self) -> Seq<Block> {
        self.blocks@
    }

    /// Address behind the last block: where the next block would start.
    pub open spec fn limit(&self) -> int {
        self.spec_first() + self.spec_block_count() * BLOCK_SIZE
    }

    /// Whether `a` lies in one of the space's blocks.
    pub open spec fn in_range(&self, a: u64) -> bool {
        self.spec_first() <= a < self.limit()
    }

    /// Index of the block that holds address `a`.
    pub open spec fn index_of(&self, a: u64) -> int {
        (a - self.spec_first()) / (BLOCK_SIZE as int)
    }

    /// Whether an object of the space starts at `a`.
    pub closed spec fn has_object(&self, a: u64) -> bool {
        self.in_range(a) && self.blocks@[self.index_of(a)].has_object(a)
    }

    /// Descriptor index and size of the object at `a`.
    pub closed spec fn entry(&self, a: u64) -> ObjectEntry {
        if self.in_range(a) {
            self.blocks@[self.index_of(a)].entry(a)
        } else {
            ObjectEntry { info: 0, size: 0 }
        }
    }

    /// The bytes of the object at `a`.
    pub closed spec fn bytes_at(&self, a: u64) -> Seq<u8> {
        if self.in_range(a) {
            self.blocks@[self.index_of(a)].bytes_at(a)
        } else {
            Seq::<u8>::empty()
        }
    }

    /// The status that the header of `a`'s block records for `a`.
    pub closed spec fn status_at(&self, a: u64) -> Option<ObjectStatus> {
        if self.in_range(a) {
            self.blocks@[self.index_of(a)].status_at(a)
        } else {
            None
        }
    }

    /// The objects of the first `n` blocks, in allocation order.
    pub closed spec fn objects_upto(&self, n: int) -> Seq<u64>
        decreases n,
    {
        if n <= 0 {
            Seq::<u64>::empty()
        } else {
            self.objects_upto(n - 1) + self.blocks@[n - 1].spec_objects()
        }
    }

    /// All objects of the space, in allocation order.
    pub open spec fn all_objects(&self) -> Seq<u64> {
        self.objects_upto(self.spec_block_count() as int)
    }

    /// Whether the last block has room for `size` bytes aligned to `align`.
    pub open spec fn last_fits(&self, size: usize, align: usize) -> bool {
        self.spec_block_count() > 0 && self.spec_blocks()[self.spec_block_count() - 1].fits(
            size,
            align,
        )
    }

    /// Where the next object of `size` bytes aligned to `align` lands: behind
    /// the cursor of the last block if it has room there, else behind the
    /// header of a new block.
    pub open spec fn next_address(&self, size: usize, align: usize) -> int {
        if self.last_fits(size, align) {
            spec_align_up(
                self.spec_blocks()[self.spec_block_count() - 1].spec_cursor() as int,
                align as int,
            )
        } else {
            spec_align_up(self.limit() + HEADER_SIZE, align as int)
        }
    }

    /// Both spaces hold the same objects at the same places in the same
    /// blocks; bytes and statuses may differ.
    pub open spec fn same_layout(&self, other: &Space) -> bool {
        &&& self.spec_first() == other.spec_first()
        &&& self.spec_marker() == other.spec_marker()
        &&& self.spec_block_count() == other.spec_block_count()
        &&& self.all_objects() == other.all_objects()
        &&& forall|a: u64| #[trigger] self.has_object(a) == other.has_object(a)
        &&& forall|a: u64| #[trigger] self.entry(a) == other.entry(a)
        &&& forall|size: usize, align: usize| #[trigger]
            self.last_fits(size, align) == other.last_fits(size, align)
    }

    /// Both spaces hold the same objects with the same bytes; statuses may
    /// differ.
    pub open spec fn same_objects(&self, other: &Space) -> bool {
        &&& self.same_layout(other)
        &&& forall|a: u64| #[trigger] self.bytes_at(a) == other.bytes_at(a)
    }

    /// Both spaces record the same status for every address.
    pub open spec fn same_statuses(&self, other: &Space) -> bool {
        forall|a: u64| #[trigger] self.status_at(a) == other.status_at(a)
    }

    /// The object list of the first `n` blocks depends on those blocks'
    /// lists only.
    proof fn lemma_objects_upto_same(&self, other: &Space, n: int)
        requires
            0 <= n <= self.blocks@.len(),
            n <= other.blocks@.len(),
            forall|i: int|
                0 <= i < n ==> (#[trigger] self.blocks@[i]).spec_objects()
                    == other.blocks@[i].spec_objects(),
        ensures
            self.objects_upto(n) == other.objects_upto(n),
        decreases n,
    {
        if n > 0 {
            self.lemma_objects_upto_same(other, n - 1);
            assert(self.blocks@[n - 1].spec_objects() == other.blocks@[n - 1].spec_objects());
        }
    }

    /// The block layout of a well-formed space.
    pub proof fn lemma_layout(&self)
        requires
            self.wf(),
        ensures
            self.spec_first() % BLOCK_SIZE == 0,
            self.spec_first() > 0,
            self.limit() <= u64::MAX,
            forall|i: int|
                0 <= i < self.spec_block_count() ==> (#[trigger] self.spec_blocks()[i]).wf()
                    && self.spec_blocks()[i].spec_base() == self.spec_first() + i * BLOCK_SIZE,
            self.spec_blocks().len() == self.spec_block_count(),
    {
    }

    /// An object lies behind the header of its block, inside that block, and
    /// is not empty.
    pub proof fn lemma_object_bounds(&self, a: u64)
        requires
            self.wf(),
            self.has_object(a),
        ensures
            self.in_range(a),
            a - a % BLOCK_SIZE + HEADER_SIZE <= a,
            a + self.entry(a).size <= a - a % BLOCK_SIZE + BLOCK_SIZE,
            a + self.entry(a).size <= self.limit(),
            self.entry(a).size > 0,
            self.bytes_at(a).len() == self.entry(a).size,
    {
        let i = self.index_of(a);
        assert(0 <= i < self.blocks@.len());
        self.blocks@[i].lemma_object_bounds(a);
        self.blocks@[i].lemma_header();
    }

    /// Two objects of a space do not overlap.
    pub proof fn lemma_disjoint(&self, a: u64, b: u64)
        requires
            self.wf(),
            self.has_object(a),
            self.has_object(b),
            a != b,
        ensures
            a + self.entry(a).size <= b || b + self.entry(b).size <= a,
    {
        let i = self.index_of(a);
        let j = self.index_of(b);
        self.lemma_object_bounds(a);
        self.lemma_object_bounds(b);
        if i == j {
            self.blocks@[i].lemma_disjoint(a, b);
        }
    }

    /// A block is opened for an object, so a space with a block holds an
    /// object, and a space without objects has no block.
    pub proof fn lemma_blocks_hold_objects(&self)
        requires
            self.wf(),
            self.spec_block_count() > 0,
        ensures
            exists|a: u64| #[trigger] self.has_object(a),
    {
        let b = self.blocks@[0];
        assert(b.wf());
        let a = b.spec_objects()[0];
        assert(b.spec_objects().contains(a));
        b.lemma_listed(a);
        b.lemma_object_bounds(a);
        b.lemma_header();
        assert(self.in_range(a));
        assert(self.index_of(a) == 0);
        assert(self.has_object(a));
    }

    /// Only objects have a status.
    pub proof fn lemma_status_object(&self, a: u64)
        requires
            self.wf(),
            self.status_at(a) is Some,
        ensures
            self.has_object(a),
    {
        let i = self.index_of(a);
        self.blocks@[i].lemma_status_object(a);
    }

    /// The status table of a block names only addresses inside that block, so
    /// none of its keys lies in the range of another block.
    pub proof fn lemma_evaced_in_own_block(&self, i: int, j: int, k: u64)
        requires
            self.wf(),
            0 <= i < self.spec_block_count(),
            0 <= j < self.spec_block_count(),
            i != j,
            self.spec_blocks()[i].spec_evaced().contains_key(k),
        ensures
            self.spec_blocks()[i].spec_base() <= k < self.spec_blocks()[i].spec_base()
                + BLOCK_SIZE,
            !(self.spec_blocks()[j].spec_base() <= k < self.spec_blocks()[j].spec_base()
                + BLOCK_SIZE),
    {
        self.blocks@[i].lemma_status_object(k);
        self.blocks@[i].lemma_object_bounds(k);
        self.blocks@[i].lemma_header();
    }

    /// What the object list of the first `n` blocks holds.
    proof fn lemma_objects_upto(&self, n: int)
        requires
            self.wf(),
            0 <= n <= self.blocks@.len(),
        ensures
            self.objects_upto(n).no_duplicates(),
            forall|a: u64|
                self.objects_upto(n).contains(a) <==> (self.has_object(a) && self.index_of(a) < n),
        decreases n,
    {
        if n > 0 {
            self.lemma_objects_upto(n - 1);
            let head = self.objects_upto(n - 1);
            let b = self.blocks@[n - 1];
            let tail = b.spec_objects();
            b.lemma_header();
            assert forall|a: u64| tail.contains(a) <==> (self.has_object(a) && self.index_of(a) == n
                - 1) by {
                b.lemma_listed(a);
                if b.has_object(a) {
                    b.lemma_object_bounds(a);
                }
                if self.has_object(a) && self.index_of(a) == n - 1 {
                }
            }
            assert forall|i: int, j: int| 0 <= i < head.len() && 0 <= j < tail.len() implies head[i]
                != tail[j] by {
                assert(head.contains(head[i]));
                assert(tail.contains(tail[j]));
            }
            vstd::seq_lib::lemma_no_dup_in_concat(head, tail);
            assert forall|a: u64|
                self.objects_upto(n).contains(a) <==> (self.has_object(a) && self.index_of(a)
                    < n) by {
                let whole = self.objects_upto(n);
                if whole.contains(a) {
                    let k = choose|k: int| 0 <= k < whole.len() && whole[k] == a;
                    if k < head.len() {
                        assert(head[k] == a);
                        assert(head.contains(a));
                    } else {
                        assert(tail[k - head.len()] == a);
                        assert(tail.contains(a));
                    }
                }
                if self.has_object(a) && self.index_of(a) < n {
                    if self.index_of(a) == n - 1 {
                        assert(tail.contains(a));
                        let k = choose|k: int| 0 <= k < tail.len() && tail[k] == a;
                        assert(whole[head.len() + k] == a);
                    } else {
                        assert(head.contains(a));
                        let k = choose|k: int| 0 <= k < head.len() && head[k] == a;
                        assert(whole[k] == a);
                    }
                }
            }
        }
    }

    /// The first `n` blocks hold at least `n` objects.
    proof fn lemma_upto_len(&self, n: int)
        requires
            self.wf(),
            0 <= n <= self.blocks@.len(),
        ensures
            self.objects_upto(n).len() >= n,
        decreases n,
    {
        if n > 0 {
            self.lemma_upto_len(n - 1);
            assert(self.blocks@[n - 1].wf());
        }
    }

    /// A space has no more blocks than objects.
    pub proof fn lemma_blocks_le_objects(&self)
        requires
            self.wf(),
        ensures
            self.spec_block_count() <= self.all_objects().len(),
    {
        self.lemma_upto_len(self.blocks@.len() as int);
    }

    /// The object list names every object once.
    pub proof fn lemma_all_objects(&self)
        requires
            self.wf(),
        ensures
            self.all_objects().no_duplicates(),
            forall|a: u64| self.all_objects().contains(a) <==> self.has_object(a),
    {
        self.lemma_objects_upto(self.blocks@.len() as int);
        assert forall|a: u64| self.all_objects().contains(a) <==> self.has_object(a) by {
            if self.has_object(a) {
                assert(self.index_of(a) < self.blocks@.len());
            }
        }
    }

    /// An empty space whose first block will start at `first`.
    pub fn new(first: u64, marker: bool) -> (s: Space)
        requires
            first % BLOCK_SIZE == 0,
            first > 0,
        ensures
            s.wf(),
            s.spec_first() == first,
            s.spec_marker() == marker,
            s.spec_block_count() == 0,
            s.all_objects() == Seq::<u64>::empty(),
            forall|a: u64| !s.has_object(a),
            forall|a: u64| s.status_at(a) is None,
    {
        let s = Space { first, marker, blocks: Vec::new() };
        assert(s.objects_upto(0) == Seq::<u64>::empty());
        s
    }

    /// Address of the first block.
    pub fn first(&self) -> (r: u64)
        ensures
            r == self.spec_first(),
    {
        self.first
    }

    /// The generation bit that the space's blocks carry.
    pub fn marker(&self) -> (r: bool)
        ensures
            r == self.spec_marker(),
    {
        self.marker
    }

    /// Number of blocks.
    pub fn block_count(&self) -> (r: usize)
        ensures
            r == self.spec_block_count(),
    {
        self.blocks.len()
    }

    /// The block that holds address `a`, found through the header address
    /// that masking `a` gives.
    pub fn find(&self, a: u64) -> (r: Option<usize>)
        requires
            self.wf(),
        ensures
            r == (if self.in_range(a) {
                Some(self.index_of(a) as usize)
            } else {
                None::<usize>
            }),
            r matches Some(i) ==> i < self.spec_block_count() && self.spec_blocks()[i as int].spec_base()
                == spec_header_from(a),
    {
        let base: u64 = header_from(a);
        if base < self.first {
            return None;
        }
        let i: u64 = (base - self.first) / BLOCK_SIZE;
        if i >= self.blocks.len() as u64 {
            return None;
        }
        Some(i as usize)
    }

    /// Descriptor index and size of the object at `a`, if one starts there.
    pub fn lookup(&self, a: u64) -> (r: Option<ObjectEntry>)
        requires
            self.wf(),
        ensures
            r == (if self.has_object(a) {
                Some(self.entry(a))
            } else {
                None::<ObjectEntry>
            }),
    {
        match self.find(a) {
            Some(i) => self.blocks[i].lookup(a),
            None => None,
        }
    }

    /// The status of the object at `a`, if it has one.
    pub fn status(&self, a: u64) -> (r: Option<ObjectStatus>)
        requires
            self.wf(),
        ensures
            r == self.status_at(a),
    {
        match self.find(a) {
            Some(i) => self.blocks[i].status(a),
            None => None,
        }
    }

    /// A copy of the bytes of the object at `a`.
    pub fn read(&self, a: u64) -> (r: Vec<u8>)
        requires
            self.wf(),
            self.has_object(a),
        ensures
            r@ == self.bytes_at(a),
    {
        let i: usize = self.find(a).unwrap();
        self.blocks[i].read(a)
    }

    /// The managed pointer stored at offset `off` of the object at `a`.
    pub fn read_word(&self, a: u64, off: usize) -> (v: u64)
        requires
            self.wf(),
            self.has_object(a),
            off + 8 <= self.entry(a).size,
        ensures
            v == spec_word(self.bytes_at(a), off as int),
    {
        let i: usize = self.find(a).unwrap();
        self.blocks[i].read_word(a, off)
    }

    /// The addresses of all objects, in allocation order.
    pub fn object_list(&self) -> (r: Vec<u64>)
        requires
            self.wf(),
        ensures
            r@ == self.all_objects(),
    {
        let mut out: Vec<u64> = Vec::new();
        let mut i: usize = 0;
        while i < self.blocks.len()
            invariant
                i <= self.blocks@.len(),
                out@ == self.objects_upto(i as int),
            decreases self.blocks@.len() - i,
        {
            let list = self.blocks[i].objects();
            let ghost head = out@;
            let mut j: usize = 0;
            while j < list.len()
                invariant
                    j <= list@.len(),
                    out@ == head + list@.subrange(0, j as int),
                decreases list@.len() - j,
            {
                out.push(list[j]);
                j = j + 1;
                assert(out@ == head + list@.subrange(0, j as int));
            }
            assert(list@.subrange(0, j as int) == list@);
            i = i + 1;
        }
        out
    }

    /// Records `status` for the object at `a`.
    pub fn set_status(&mut self, a: u64, status: ObjectStatus)
        requires
            old(self).wf(),
            old(self).has_object(a),
        ensures
            final(self).wf(),
            final(self).same_objects(old(self)),
            forall|x: u64| #[trigger]
                final(self).status_at(x) == (if x == a {
                    Some(status)
                } else {
                    old(self).status_at(x)
                }),
    {
        let i: usize = self.find(a).unwrap();
        let ghost before = *self;
        self.blocks[i].set_status(a, status);
        proof {
            self.lemma_touched(&before, i as int);
            assert forall|x: u64| #[trigger]
                self.status_at(x) == (if x == a {
                    Some(status)
                } else {
                    before.status_at(x)
                }) by {}
        }
    }

    /// Removes the status of the object at `a`.
    pub fn clear_status(&mut self, a: u64)
        requires
            old(self).wf(),
        ensures
            final(self).wf(),
            final(self).same_objects(old(self)),
            forall|x: u64| #[trigger]
                final(self).status_at(x) == (if x == a {
                    None
                } else {
                    old(self).status_at(x)
                }),
    {
        match self.find(a) {
            Some(i) => {
                let ghost before = *self;
                self.blocks[i].clear_status(a);
                proof {
                    self.lemma_touched(&before, i as int);
                    assert forall|x: u64| #[trigger]
                        self.status_at(x) == (if x == a {
                            None
                        } else {
                            before.status_at(x)
                        }) by {}
                }
            },
            None => {},
        }
    }

    /// After a change to block `i` that kept that block's objects and their
    /// bytes, the space holds the same objects.
    proof fn lemma_touched(&self, before: &Space, i: int)
        requires
            before.wf(),
            0 <= i < before.blocks@.len(),
            self.first == before.first,
            self.marker == before.marker,
            self.blocks@ == before.blocks@.update(i, self.blocks@[i]),
            self.blocks@[i].wf(),
            self.blocks@[i].same_objects(&before.blocks@[i]),
        ensures
            self.wf(),
            self.same_objects(before),
    {
        self.blocks@[i].lemma_same_objects(&before.blocks@[i]);
        assert forall|k: int| 0 <= k < self.blocks@.len() implies (#[trigger] self.blocks@[k]).wf()
            && self.blocks@[k].spec_base() == self.first + k * BLOCK_SIZE
            && self.blocks@[k].spec_marker() == self.marker by {
            assert(before.blocks@[k].wf());
        }
        self.lemma_same_lists(before);
        assert forall|size: usize, align: usize| #[trigger]
            self.last_fits(size, align) == before.last_fits(size, align) by {}
        assert forall|a: u64| #[trigger] self.has_object(a) == before.has_object(a) by {
            if before.in_range(a) && before.index_of(a) == i {
                assert(self.blocks@[i].has_object(a) == before.blocks@[i].has_object(a));
            }
        }
        assert forall|a: u64| #[trigger] self.entry(a) == before.entry(a) by {
            if before.index_of(a) == i {
                assert(self.blocks@[i].entry(a) == before.blocks@[i].entry(a));
            }
        }
        assert forall|a: u64| #[trigger] self.bytes_at(a) == before.bytes_at(a) by {
            if before.index_of(a) == i {
                assert(self.blocks@[i].bytes_at(a) == before.blocks@[i].bytes_at(a));
            }
        }
    }

    /// Spaces whose blocks have the same object lists have the same object
    /// list.
    proof fn lemma_same_lists(&self, before: &Space)
        requires
            self.blocks@.len() == before.blocks@.len(),
            forall|k: int|
                0 <= k < self.blocks@.len() ==> (#[trigger] self.blocks@[k]).spec_objects()
                    == before.blocks@[k].spec_objects(),
        ensures
            self.all_objects() == before.all_objects(),
    {
        self.lemma_objects_upto_same(before, self.blocks@.len() as int);
    }

    /// Stores the managed pointer `v` at offset `off` of the object at `a`.
    pub fn write_word(&mut self, a: u64, off: usize, v: u64)
        requires
            old(self).wf(),
            old(self).has_object(a),
            off + 8 <= old(self).entry(a).size,
        ensures
            final(self).wf(),
            final(self).same_layout(old(self)),
            final(self).same_statuses(old(self)),
            final(self).bytes_at(a) == spec_splice(
                old(self).bytes_at(a),
                off as int,
                spec_u64_to_le_bytes(v),
            ),
            forall|x: u64|
                old(self).has_object(x) && x != a ==> #[trigger] final(self).bytes_at(x) == old(
                    self,
                ).bytes_at(x),
    {
        let i: usize = self.find(a).unwrap();
        let ghost before = *self;
        self.blocks[i].write_word(a, off, v);
        proof {
            assert forall|k: int| 0 <= k < self.blocks@.len() implies (#[trigger] self.blocks@[k]).wf()
                && self.blocks@[k].spec_base() == self.first + k * BLOCK_SIZE
                && self.blocks@[k].spec_marker() == self.marker by {
                assert(before.blocks@[k].wf());
            }
            self.lemma_same_lists(&before);
            assert forall|size: usize, align: usize| #[trigger]
                self.last_fits(size, align) == before.last_fits(size, align) by {}
            assert forall|x: u64| #[trigger] self.has_object(x) == before.has_object(x) by {
                if before.in_range(x) && before.index_of(x) == i {
                    assert(self.blocks@[i as int].has_object(x) == before.blocks@[i as int].has_object(x));
                }
            }
            assert forall|x: u64| #[trigger] self.entry(x) == before.entry(x) by {
                if before.index_of(x) == i {
                    assert(self.blocks@[i as int].entry(x) == before.blocks@[i as int].entry(x));
                }
            }
            assert forall|x: u64| #[trigger] self.status_at(x) == before.status_at(x) by {}
            assert forall|x: u64| before.has_object(x) && x != a implies #[trigger] self.bytes_at(
                x,
            ) == before.bytes_at(x) by {
                let k = before.index_of(x);
                if k == i {
                    assert(before.blocks@[k].has_object(x));
                }
            }
        }
    }

    /// Moves `bytes` into the space as a new object of descriptor `info`:
    /// into the last block if it has room, else into a new block behind it.
    pub fn allocate(&mut self, size: usize, align: usize, info: usize, bytes: &Vec<u8>) -> (r:
        Result<u64, SpaceError>)
        requires
            old(self).wf(),
            size > 0,
            align > 0,
            bytes@.len() == size,
        ensures
            final(self).wf(),
            final(self).spec_first() == old(self).spec_first(),
            final(self).spec_marker() == old(self).spec_marker(),
            final(self).same_statuses(old(self)),
            r is Ok <==> old(self).last_fits(size, align) || (old(self).limit() + BLOCK_SIZE
                <= u64::MAX && fresh_fits(old(self).limit(), size, align)),
            r == Err::<u64, SpaceError>(SpaceError::OutOfMemory) ==> old(self).limit() + BLOCK_SIZE
                > u64::MAX,
            r == Err::<u64, SpaceError>(SpaceError::TooLarge) ==> old(self).limit() + BLOCK_SIZE
                <= u64::MAX,
            r is Err ==> final(self).same_objects(old(self)),
            r matches Ok(a) ==> {
                &&& !old(self).has_object(a)
                &&& a == old(self).next_address(size, align)
                &&& final(self).spec_blocks()[final(self).spec_block_count() - 1].spec_cursor() == a
                    + spec_align_up(size as int, align as int)
                &&& a % (align as u64) == 0
                &&& final(self).entry(a) == (ObjectEntry { info, size })
                &&& final(self).bytes_at(a) == bytes@
                &&& final(self).all_objects() == old(self).all_objects().push(a)
                &&& final(self).spec_block_count() == old(self).spec_block_count() + (if old(
                    self,
                ).last_fits(size, align) {
                    0nat
                } else {
                    1nat
                })
                &&& forall|x: u64| #[trigger]
                    final(self).has_object(x) <==> old(self).has_object(x) || x == a
                &&& forall|x: u64| #[trigger]
                    old(self).has_object(x) ==> final(self).entry(x) == old(self).entry(x)
                &&& forall|x: u64| #[trigger]
                    old(self).has_object(x) ==> final(self).bytes_at(x) == old(self).bytes_at(x)
            },
    {
        let n: usize = self.blocks.len();
        let ghost before = *self;
        if n > 0 {
            let ghost last = self.blocks@[n - 1];
            match self.blocks[n - 1].allocate(size, align, info) {
                Ok(a) => {
                    let ghost mid = self.blocks@[n - 1];
                    self.blocks[n - 1].write(a, 0, bytes);
                    proof {
                        let now = self.blocks@[n - 1];
                        last.lemma_header();
                        mid.lemma_object_bounds(a);
                        assert(now.bytes_at(a) =~= bytes@);
                        assert forall|k: int| 0 <= k < self.blocks@.len() implies (
                        #[trigger] self.blocks@[k]).wf() && self.blocks@[k].spec_base()
                            == self.first + k * BLOCK_SIZE && self.blocks@[k].spec_marker()
                            == self.marker by {
                            assert(before.blocks@[k].wf());
                        }
                        self.lemma_objects_upto_same(&before, n - 1);
                        assert(self.all_objects() =~= before.all_objects().push(a));
                        assert(self.index_of(a) == n - 1);
                        assert forall|x: u64| #[trigger]
                            self.has_object(x) <==> before.has_object(x) || x == a by {
                            if before.index_of(x) == n - 1 {
                                assert(now.has_object(x) == mid.has_object(x));
                            }
                        }
                        assert forall|x: u64| #[trigger] before.has_object(x) implies self.entry(x)
                            == before.entry(x) by {
                            if before.index_of(x) == n - 1 {
                                assert(last.has_object(x));
                                assert(now.entry(x) == mid.entry(x));
                            }
                        }
                        assert forall|x: u64| #[trigger] before.has_object(x) implies self.bytes_at(
                            x,
                        ) == before.bytes_at(x) by {
                            if before.index_of(x) == n - 1 {
                                assert(last.has_object(x));
                                assert(mid.has_object(x));
                            }
                        }
                        assert forall|x: u64| #[trigger] self.status_at(x) == before.status_at(
                            x,
                        ) by {}
                    }
                    return Ok(a);
                },
                Err(_) => {
                    assert(self.blocks@ =~= before.blocks@);
                },
            }
        }
        proof {
            assert(self.blocks@ == before.blocks@);
            assert(!before.last_fits(size, align));
            self.lemma_same_lists(&before);
        }
        let limit: u64 = self.first + (n as u64) * BLOCK_SIZE;
        if limit > u64::MAX - BLOCK_SIZE {
            return Err(SpaceError::OutOfMemory);
        }
        let mut fresh = Block::new(limit, self.marker);
        match fresh.allocate(size, align, info) {
            Ok(a) => {
                let ghost mid = fresh;
                fresh.write(a, 0, bytes);
                proof {
                    mid.lemma_object_bounds(a);
                    mid.lemma_header();
                    assert(fresh.bytes_at(a) =~= bytes@);
                }
                self.blocks.push(fresh);
                proof {
                    assert forall|k: int| 0 <= k < self.blocks@.len() implies (
                    #[trigger] self.blocks@[k]).wf() && self.blocks@[k].spec_base() == self.first
                        + k * BLOCK_SIZE && self.blocks@[k].spec_marker() == self.marker by {
                        if k < n {
                            assert(before.blocks@[k].wf());
                        }
                    }
                    self.lemma_objects_upto_same(&before, n as int);
                    assert(fresh.spec_objects() =~= seq![a]);
                    assert(self.all_objects() =~= before.all_objects().push(a));
                    assert(self.index_of(a) == n);
                    assert forall|x: u64| #[trigger]
                        self.has_object(x) <==> before.has_object(x) || x == a by {
                        if self.in_range(x) && self.index_of(x) == n {
                            assert(fresh.has_object(x) <==> mid.has_object(x));
                        }
                    }
                    assert forall|x: u64| #[trigger] self.status_at(x) == before.status_at(x) by {
                        if self.in_range(x) && self.index_of(x) == n {
                            assert(fresh.spec_evaced() == Map::<u64, ObjectStatus>::empty());
                        }
                    }
                }
                Ok(a)
            },
            Err(_) => Err(SpaceError::TooLarge),
        }
    }
}

} // verus!
