//! One block of the heap: a fixed-size region with a header, a bump cursor,
//! the table of the objects allocated in it and their evacuation status.

use vstd::prelude::*;
use vstd::bytes::{spec_u64_from_le_bytes, spec_u64_to_le_bytes, u64_from_le_bytes, u64_to_le_bytes};
use std::collections::HashMap;
use crate::layout::{align_up, BLOCK_MAGIC, BLOCK_SIZE, HEADER_SIZE, lemma_align_up, spec_align_up};
use crate::status::ObjectStatus;

verus! {

/// The answer of a block that has no room left for an allocation.
#[derive(Clone, Copy, Debug, PartialEq, Eq, Structural)]
pub struct FullBlock;

/// What a block records of an object besides its bytes: the index of its
/// type descriptor and its size in bytes.
#[derive(Clone, Copy, Debug, PartialEq, Eq, Structural)]
pub struct ObjectEntry {
    pub info: usize,
    pub size: usize,
}

/// The managed pointer stored in `bytes` at offset `off`.
pub open spec fn spec_word(bytes: Seq<u8>, off: int) -> u64 {
    spec_u64_from_le_bytes(bytes.subrange(off, off + 8))
}

/// `bytes` with the part that starts at `off` replaced by `part`.
pub open spec fn spec_splice(bytes: Seq<u8>, off: int, part: Seq<u8>) -> Seq<u8> {
    bytes.subrange(0, off) + part + bytes.subrange(off + part.len(), bytes.len() as int)
}

/// A pointer stored into a value is read back from where it was stored.
pub proof fn lemma_word_stored(bytes: Seq<u8>, off: int, v: u64)
    requires
        0 <= off,
        off + 8 <= bytes.len(),
    ensures
        spec_splice(bytes, off, spec_u64_to_le_bytes(v)).len() == bytes.len(),
        spec_word(spec_splice(bytes, off, spec_u64_to_le_bytes(v)), off) == v,
{
    vstd::bytes::lemma_auto_spec_u64_to_from_le_bytes();
    let w = spec_u64_to_le_bytes(v);
    let after = spec_splice(bytes, off, w);
    assert(after.subrange(off, off + 8) =~= w);
}

/// Storing a pointer into a value leaves the bytes outside the eight that it
/// takes as they were, and with them every pointer field that does not
/// overlap it.
pub proof fn lemma_word_kept(bytes: Seq<u8>, off: int, v: u64, other: int)
    requires
        0 <= off,
        off + 8 <= bytes.len(),
        0 <= other,
        other + 8 <= bytes.len(),
        other + 8 <= off || off + 8 <= other,
    ensures
        spec_word(spec_splice(bytes, off, spec_u64_to_le_bytes(v)), other) == spec_word(
            bytes,
            other,
        ),
{
    vstd::bytes::lemma_auto_spec_u64_to_from_le_bytes();
    let w = spec_u64_to_le_bytes(v);
    let after = spec_splice(bytes, off, w);
    assert(after.subrange(other, other + 8) =~= bytes.subrange(other, other + 8));
}

/// Storing a pointer into a value changes no byte outside the eight that it
/// takes.
pub proof fn lemma_splice_bytes(bytes: Seq<u8>, off: int, v: u64, i: int)
    requires
        0 <= off,
        off + 8 <= bytes.len(),
        0 <= i < bytes.len(),
        i < off || off + 8 <= i,
    ensures
        spec_splice(bytes, off, spec_u64_to_le_bytes(v))[i] == bytes[i],
{
    vstd::bytes::lemma_auto_spec_u64_to_from_le_bytes();
}

/// The managed pointer stored in `bytes` at offset `off`.
pub fn word_of(bytes: &Vec<u8>, off: usize) -> (v: u64)
    requires
        off + 8 <= bytes@.len(),
    ensures
        v == spec_word(bytes@, off as int),
{
    let n: usize = bytes.len();
    let mut word: Vec<u8> = Vec::new();
    let mut i: usize = 0;
    while i < 8
        invariant
            i <= 8,
            off + 8 <= n == bytes@.len(),
            word@ == bytes@.subrange(off as int, off + i),
        decreases 8 - i,
    {
        word.push(bytes[off + i]);
        i = i + 1;
        assert(word@ == bytes@.subrange(off as int, off + i));
    }
    u64_from_le_bytes(word.as_slice())
}

/// A fixed-size region of the heap. `data` holds the block's bytes, the byte
/// at address `base + i` at index `i`; the objects lie between the header and
/// the cursor and do not overlap.
pub struct Block {
    magic: u64,
    base: u64,
    cursor: u64,
    end: u64,
    marker: bool,
    data: Vec<u8>,
    objects: Vec<u64>,
    table: HashMap<u64, ObjectEntry>,
    evaced: HashMap<u64, ObjectStatus>,
}

impl Block {
    /// The block's invariant.
    pub closed spec fn wf(&self) -> bool {
        &&& self.magic == BLOCK_MAGIC
        &&& self.base % BLOCK_SIZE == 0
        &&& self.base > 0
        &&& self.end == self.base + BLOCK_SIZE
        &&& self.base + HEADER_SIZE <= self.cursor <= self.end
        &&& self.data@.len() == BLOCK_SIZE
        &&& self.objects@.no_duplicates()
        &&& forall|a: u64| #[trigger] self.table@.contains_key(a) <==> self.objects@.contains(a)
        &&& forall|a: u64| #[trigger]
            self.table@.contains_key(a) ==> self.base + HEADER_SIZE <= a && a + self.table@[a].size
                <= self.cursor && self.table@[a].size > 0
        &&& forall|a: u64, b: u64|
            #[trigger] self.table@.contains_key(a) && #[trigger] self.table@.contains_key(b) && a
                != b ==> a + self.table@[a].size <= b || b + self.table@[b].size <= a
        &&& forall|a: u64| #[trigger] self.evaced@.contains_key(a) ==> self.table@.contains_key(a)
    }

    /// Address of the block's first byte.
    pub closed spec fn spec_base(&self) -> u64 {
        self.base
    }

    /// Address of the next free byte.
    pub closed spec fn spec_cursor(&self) -> u64 {
        self.cursor
    }

    /// Address one past the block's last byte.
    pub closed spec fn spec_end(&self) -> u64 {
        self.end
    }

    /// The generation bit of the cycle that made the block.
    pub closed spec fn spec_marker(&self) -> bool {
        self.marker
    }

    /// The word that `checksum` tests.
    pub closed spec fn spec_magic(&self) -> u64 {
        self.magic
    }

    /// The addresses of the block's objects, in the order of their allocation.
    pub closed spec fn spec_objects(&self) -> Seq<u64> {
        self.objects@
    }

    /// Whether an object of the block starts at `a`.
    pub closed spec fn has_object(&self, a: u64) -> bool {
        self.table@.contains_key(a)
    }

    /// Descriptor index and size of the object at `a`.
    pub closed spec fn entry(&self, a: u64) -> ObjectEntry {
        self.table@[a]
    }

    /// The bytes of the object at `a`.
    pub closed spec fn bytes_at(&self, a: u64) -> Seq<u8> {
        self.data@.subrange(a - self.base, a - self.base + self.table@[a].size)
    }

    /// The evacuation status table: object address to status.
    pub closed spec fn spec_evaced(&self) -> Map<u64, ObjectStatus> {
        self.evaced@
    }

    /// The status of the object at `a`, if it has one.
    pub open spec fn status_at(&self, a: u64) -> Option<ObjectStatus> {
        if self.spec_evaced().contains_key(a) {
            Some(self.spec_evaced()[a])
        } else {
            None
        }
    }

    /// Whether an allocation of `size` bytes aligned to `align` fits behind
    /// the cursor.
    pub open spec fn fits(&self, size: usize, align: usize) -> bool {
        spec_align_up(self.spec_cursor() as int, align as int) + spec_align_up(
            size as int,
            align as int,
        ) <= self.spec_end()
    }

    /// The header's fields as a well-formed block has them.
    pub proof fn lemma_header(&self)
        requires
            self.wf(),
        ensures
            self.spec_magic() == BLOCK_MAGIC,
            self.spec_base() % BLOCK_SIZE == 0,
            self.spec_base() > 0,
            self.spec_end() == self.spec_base() + BLOCK_SIZE,
            self.spec_base() + HEADER_SIZE <= self.spec_cursor() <= self.spec_end(),
            self.spec_objects().no_duplicates(),
    {
    }

    /// An object lies between the header and the cursor and is not empty.
    pub proof fn lemma_object_bounds(&self, a: u64)
        requires
            self.wf(),
            self.has_object(a),
        ensures
            self.spec_base() + HEADER_SIZE <= a,
            a + self.entry(a).size <= self.spec_cursor(),
            self.entry(a).size > 0,
            self.bytes_at(a).len() == self.entry(a).size,
            self.spec_objects().contains(a),
    {
    }

    /// Two objects of a block do not overlap.
    pub proof fn lemma_disjoint(&self, a: u64, b: u64)
        requires
            self.wf(),
            self.has_object(a),
            self.has_object(b),
            a != b,
        ensures
            a + self.entry(a).size <= b || b + self.entry(b).size <= a,
    {
    }

    /// The object list names exactly the objects.
    pub proof fn lemma_listed(&self, a: u64)
        requires
            self.wf(),
        ensures
            self.has_object(a) <==> self.spec_objects().contains(a),
    {
    }

    /// Only objects have a status.
    pub proof fn lemma_status_object(&self, a: u64)
        requires
            self.wf(),
            self.spec_evaced().contains_key(a),
        ensures
            self.has_object(a),
    {
    }

    /// An empty block that starts at `base`.
    pub fn new(base: u64, marker: bool) -> (b: Block)
        requires
            base % BLOCK_SIZE == 0,
            base > 0,
            base + BLOCK_SIZE <= u64::MAX,
        ensures
            b.wf(),
            b.spec_base() == base,
            b.spec_cursor() == base + HEADER_SIZE,
            b.spec_end() == base + BLOCK_SIZE,
            b.spec_marker() == marker,
            b.spec_objects() == Seq::<u64>::empty(),
            b.spec_evaced() == Map::<u64, ObjectStatus>::empty(),
            forall|a: u64| !b.has_object(a),
    {
        Block {
            magic: BLOCK_MAGIC,
            base,
            cursor: base + HEADER_SIZE,
            end: base + BLOCK_SIZE,
            marker,
            data: vec![0u8; 0x10000],
            objects: Vec::new(),
            table: HashMap::new(),
            evaced: HashMap::new(),
        }
    }

    /// Whether the header carries the magic word.
    pub fn checksum(&self) -> (ok: bool)
        ensures
            ok == (self.spec_magic() == BLOCK_MAGIC),
    {
        self.magic == BLOCK_MAGIC
    }

    /// Address of the block's first byte.
    pub fn base(&self) -> (r: u64)
        ensures
            r == self.spec_base(),
    {
        self.base
    }

    /// Address of the next free byte.
    pub fn cursor(&self) -> (r: u64)
        ensures
            r == self.spec_cursor(),
    {
        self.cursor
    }

    /// Address one past the block's last byte.
    pub fn end(&self) -> (r: u64)
        ensures
            r == self.spec_end(),
    {
        self.end
    }

    /// The generation bit of the cycle that made the block.
    pub fn marker(&self) -> (r: bool)
        ensures
            r == self.spec_marker(),
    {
        self.marker
    }

    /// The object addresses in allocation order.
    pub fn objects(&self) -> (r: &Vec<u64>)
        ensures
            r@ == self.spec_objects(),
    {
        &self.objects
    }

    /// Bump-allocates `size` bytes aligned to `align` for an object of
    /// descriptor `info`. The cursor is first rounded up to `align`; the
    /// object then occupies `size` rounded up to `align`.
    pub fn allocate(&mut self, size: usize, align: usize, info: usize) -> (r: Result<u64, FullBlock>)
        requires
            old(self).wf(),
            size > 0,
            align > 0,
        ensures
            final(self).wf(),
            final(self).spec_base() == old(self).spec_base(),
            final(self).spec_end() == old(self).spec_end(),
            final(self).spec_marker() == old(self).spec_marker(),
            final(self).spec_evaced() == old(self).spec_evaced(),
            r is Ok <==> old(self).fits(size, align),
            r is Err ==> *final(self) == *old(self),
            r matches Ok(a) ==> {
                &&& a == spec_align_up(old(self).spec_cursor() as int, align as int)
                &&& a % (align as u64) == 0
                &&& final(self).spec_cursor() == a + spec_align_up(size as int, align as int)
                &&& final(self).spec_objects() == old(self).spec_objects().push(a)
                &&& !old(self).has_object(a)
                &&& final(self).entry(a) == (ObjectEntry { info, size })
                &&& forall|x: u64| #[trigger]
                    final(self).has_object(x) <==> old(self).has_object(x) || x == a
                &&& forall|x: u64| #[trigger]
                    old(self).has_object(x) ==> final(self).entry(x) == old(self).entry(x)
                        && final(self).bytes_at(x) == old(self).bytes_at(x)
            },
    {
        proof {
            lemma_align_up(self.cursor as int, align as int);
            lemma_align_up(size as int, align as int);
        }
        let start: u64 = match align_up(self.cursor, align as u64) {
            Some(s) => s,
            None => { return Err(FullBlock); },
        };
        let occupied: u64 = match align_up(size as u64, align as u64) {
            Some(o) => o,
            None => { return Err(FullBlock); },
        };
        if start > self.end || occupied > self.end - start {
            return Err(FullBlock);
        }
        proof {
            assert(!self.table@.contains_key(start)) by {
                if self.table@.contains_key(start) {
                    assert(start + self.table@[start].size <= self.cursor);
                }
            }
            assert(!self.objects@.contains(start));
        }
        let ghost before = *self;
        self.cursor = start + occupied;
        self.objects.push(start);
        self.table.insert(start, ObjectEntry { info, size });
        proof {
            assert(self.objects@.no_duplicates()) by {
                assert forall|i: int, j: int|
                    0 <= i < self.objects@.len() && 0 <= j < self.objects@.len() && i
                        != j implies self.objects@[i] != self.objects@[j] by {
                    if i < before.objects@.len() {
                        assert(before.objects@.contains(before.objects@[i]));
                    }
                    if j < before.objects@.len() {
                        assert(before.objects@.contains(before.objects@[j]));
                    }
                }
            }
            assert forall|a: u64| #[trigger]
                self.table@.contains_key(a) <==> self.objects@.contains(a) by {
                if self.objects@.contains(a) {
                    let i = choose|i: int| 0 <= i < self.objects@.len() && self.objects@[i] == a;
                    if i < before.objects@.len() {
                        assert(before.objects@.contains(a));
                    }
                }
                if self.table@.contains_key(a) {
                    if a == start {
                        assert(self.objects@[before.objects@.len() as int] == a);
                    } else {
                        assert(before.table@.contains_key(a));
                        let i = choose|i: int|
                            0 <= i < before.objects@.len() && before.objects@[i] == a;
                        assert(self.objects@[i] == a);
                    }
                }
            }
            assert forall|a: u64, b: u64|
                #[trigger] self.table@.contains_key(a) && #[trigger] self.table@.contains_key(b)
                    && a != b implies a + self.table@[a].size <= b || b + self.table@[b].size
                    <= a by {
                if a != start {
                    assert(before.table@.contains_key(a));
                }
                if b != start {
                    assert(before.table@.contains_key(b));
                }
            }
            assert forall|x: u64| #[trigger] before.has_object(x) implies self.entry(x)
                == before.entry(x) && self.bytes_at(x) == before.bytes_at(x) by {
                assert(x != start);
            }
        }
        Ok(start)
    }

    /// Descriptor index and size of the object at `a`, if one starts there.
    pub fn lookup(&self, a: u64) -> (r: Option<ObjectEntry>)
        ensures
            r == (if self.has_object(a) {
                Some(self.entry(a))
            } else {
                None::<ObjectEntry>
            }),
    {
        match self.table.get(&a) {
            Some(e) => Some(*e),
            None => None,
        }
    }

    /// The status of the object at `a`, if it has one.
    pub fn status(&self, a: u64) -> (r: Option<ObjectStatus>)
        ensures
            r == self.status_at(a),
    {
        match self.evaced.get(&a) {
            Some(s) => Some(*s),
            None => None,
        }
    }

    /// Records `status` for the object at `a`.
    pub fn set_status(&mut self, a: u64, status: ObjectStatus)
        requires
            old(self).wf(),
            old(self).has_object(a),
        ensures
            final(self).wf(),
            final(self).spec_evaced() == old(self).spec_evaced().insert(a, status),
            final(self).same_objects(old(self)),
    {
        self.evaced.insert(a, status);
    }

    /// Removes the status of the object at `a`.
    pub fn clear_status(&mut self, a: u64)
        requires
            old(self).wf(),
        ensures
            final(self).wf(),
            final(self).spec_evaced() == old(self).spec_evaced().remove(a),
            final(self).same_objects(old(self)),
    {
        self.evaced.remove(&a);
    }

    /// Both blocks hold the same objects with the same bytes at the same
    /// place; only the status table may differ.
    pub closed spec fn same_objects(&self, other: &Block) -> bool {
        &&& self.magic == other.magic
        &&& self.base == other.base
        &&& self.cursor == other.cursor
        &&& self.end == other.end
        &&& self.marker == other.marker
        &&& self.data@ == other.data@
        &&& self.objects@ == other.objects@
        &&& self.table@ == other.table@
    }

    /// What `same_objects` means for the public view.
    pub proof fn lemma_same_objects(&self, other: &Block)
        requires
            self.same_objects(other),
        ensures
            self.spec_base() == other.spec_base(),
            self.spec_cursor() == other.spec_cursor(),
            self.spec_end() == other.spec_end(),
            self.spec_marker() == other.spec_marker(),
            self.spec_magic() == other.spec_magic(),
            self.spec_objects() == other.spec_objects(),
            forall|a: u64| #[trigger] self.has_object(a) == other.has_object(a),
            forall|a: u64| #[trigger] self.entry(a) == other.entry(a),
            forall|a: u64| #[trigger] self.bytes_at(a) == other.bytes_at(a),
    {
    }

    /// A copy of the bytes of the object at `a`.
    pub fn read(&self, a: u64) -> (r: Vec<u8>)
        requires
            self.wf(),
            self.has_object(a),
        ensures
            r@ == self.bytes_at(a),
    {
        let entry = self.table.get(&a).unwrap();
        let start: usize = (a - self.base) as usize;
        let size: usize = entry.size;
        let mut out: Vec<u8> = Vec::new();
        let mut i: usize = 0;
        while i < size
            invariant
                i <= size,
                start + size <= self.data@.len() == BLOCK_SIZE,
                out@ == self.data@.subrange(start as int, start + i),
            decreases size - i,
        {
            out.push(self.data[start + i]);
            i = i + 1;
            assert(out@ == self.data@.subrange(start as int, start + i));
        }
        out
    }

    /// Overwrites the bytes of the object at `a` from offset `off` on with
    /// `part`.
    pub fn write(&mut self, a: u64, off: usize, part: &Vec<u8>)
        requires
            old(self).wf(),
            old(self).has_object(a),
            off + part@.len() <= old(self).entry(a).size,
        ensures
            final(self).wf(),
            final(self).spec_base() == old(self).spec_base(),
            final(self).spec_cursor() == old(self).spec_cursor(),
            final(self).spec_end() == old(self).spec_end(),
            final(self).spec_marker() == old(self).spec_marker(),
            final(self).spec_objects() == old(self).spec_objects(),
            final(self).spec_evaced() == old(self).spec_evaced(),
            forall|x: u64| #[trigger] final(self).has_object(x) == old(self).has_object(x),
            forall|x: u64| #[trigger] final(self).entry(x) == old(self).entry(x),
            final(self).bytes_at(a) == spec_splice(old(self).bytes_at(a), off as int, part@),
            forall|x: u64|
                old(self).has_object(x) && x != a ==> #[trigger] final(self).bytes_at(x) == old(
                    self,
                ).bytes_at(x),
    {
        let ghost before = *self;
        let start: usize = (a - self.base) as usize + off;
        let n: usize = part.len();
        let mut i: usize = 0;
        while i < n
            invariant
                i <= n,
                n == part@.len(),
                start + n <= self.data@.len() == BLOCK_SIZE,
                self.data@.len() == before.data@.len(),
                self.magic == before.magic,
                self.base == before.base,
                self.cursor == before.cursor,
                self.end == before.end,
                self.marker == before.marker,
                self.objects@ == before.objects@,
                self.table@ == before.table@,
                self.evaced@ == before.evaced@,
                forall|j: int| 0 <= j < start || start + i <= j < self.data@.len() ==> self.data@[j] == before.data@[j],
                forall|j: int| 0 <= j < i ==> self.data@[start + j] == part@[j],
            decreases n - i,
        {
            self.data[start + i] = part[i];
            i = i + 1;
        }
        proof {
            let size = before.table@[a].size as int;
            assert(self.bytes_at(a) =~= spec_splice(before.bytes_at(a), off as int, part@)) by {
                assert forall|j: int| 0 <= j < size implies self.bytes_at(a)[j] == spec_splice(
                    before.bytes_at(a),
                    off as int,
                    part@,
                )[j] by {
                    if j < off {
                    } else if j < off + n {
                        assert(self.data@[start + (j - off)] == part@[j - off]);
                    } else {
                    }
                }
            }
            assert forall|x: u64| before.has_object(x) && x != a implies #[trigger] self.bytes_at(
                x,
            ) == before.bytes_at(x) by {
                assert(before.table@.contains_key(x) && before.table@.contains_key(a));
                assert(self.bytes_at(x) =~= before.bytes_at(x));
            }
        }
    }

    /// The managed pointer stored at offset `off` of the object at `a`.
    pub fn read_word(&self, a: u64, off: usize) -> (v: u64)
        requires
            self.wf(),
            self.has_object(a),
            off + 8 <= self.entry(a).size,
        ensures
            v == spec_word(self.bytes_at(a), off as int),
    {
        let start: usize = (a - self.base) as usize + off;
        let mut word: Vec<u8> = Vec::new();
        let mut i: usize = 0;
        while i < 8
            invariant
                i <= 8,
                start + 8 <= self.data@.len() == BLOCK_SIZE,
                word@ == self.data@.subrange(start as int, start + i),
            decreases 8 - i,
        {
            word.push(self.data[start + i]);
            i = i + 1;
            assert(word@ == self.data@.subrange(start as int, start + i));
        }
        assert(word@ =~= self.bytes_at(a).subrange(off as int, off + 8));
        u64_from_le_bytes(word.as_slice())
    }

    /// Stores the managed pointer `v` at offset `off` of the object at `a`.
    pub fn write_word(&mut self, a: u64, off: usize, v: u64)
        requires
            old(self).wf(),
            old(self).has_object(a),
            off + 8 <= old(self).entry(a).size,
        ensures
            final(self).wf(),
            final(self).spec_base() == old(self).spec_base(),
            final(self).spec_cursor() == old(self).spec_cursor(),
            final(self).spec_end() == old(self).spec_end(),
            final(self).spec_marker() == old(self).spec_marker(),
            final(self).spec_objects() == old(self).spec_objects(),
            final(self).spec_evaced() == old(self).spec_evaced(),
            forall|x: u64| #[trigger] final(self).has_object(x) == old(self).has_object(x),
            forall|x: u64| #[trigger] final(self).entry(x) == old(self).entry(x),
            final(self).bytes_at(a) == spec_splice(
                old(self).bytes_at(a),
                off as int,
                spec_u64_to_le_bytes(v),
            ),
            forall|x: u64|
                old(self).has_object(x) && x != a ==> #[trigger] final(self).bytes_at(x) == old(
                    self,
                ).bytes_at(x),
    {
        let word = u64_to_le_bytes(v);
        self.write(a, off, &word);
    }
}

} // verus!
