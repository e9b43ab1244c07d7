//! The heap: the registered type descriptors, the live blocks, the table of
//! roots and the counters that decide when a collection cycle runs.

use vstd::prelude::*;
use vstd::bytes::spec_u64_to_le_bytes;
use crate::block::{lemma_word_kept, lemma_word_stored, spec_splice, spec_word, word_of};
use crate::info::{Info, lemma_fresh_fits, Slot, TraceFn};
use crate::layout::{BLOCK_SIZE, spec_align_up};
use crate::root::RootInner;
use crate::space::Space;
use crate::status::ObjectStatus;

verus! {

/// What the heap answers when it cannot do what was asked.
#[derive(Clone, Copy, Debug, PartialEq, Eq, Structural)]
pub enum GcError {
    /// A root holds an object of another type than the one asked for.
    TypeMismatch { stored: u64, requested: u64 },
    /// The heap's records contradict each other: an object to be rooted was
    /// moved or dropped, or a handle names no `RootInner`.
    InvariantViolation,
    /// No address is left for another block, or no number for another root.
    OutOfMemory,
    /// A pointer was used that names no object: it is zero, was never handed
    /// out, or is older than the last collection cycle.
    PreconditionViolation,
    /// A descriptor was refused, or none has the given identity.
    InvalidDescriptor,
    /// The bytes of a value do not match its descriptor: another length, or
    /// a pointer field that names no object.
    InvalidValue,
}

/// A short-lived pointer to an object. It is valid until the next collection
/// cycle; only a `Root` stays valid across one.
#[derive(Clone, Copy, Debug, PartialEq, Eq, Hash, Structural)]
pub struct Gc {
    pub ptr: u64,
}

impl Gc {
    /// The pointer that names no object.
    pub fn null() -> (g: Gc)
        ensures
            g.ptr == 0,
    {
        Gc { ptr: 0 }
    }

    /// Whether the pointer names no object.
    pub fn is_null(&self) -> (b: bool)
        ensures
            b == (self.ptr == 0),
    {
        self.ptr == 0
    }
}

/// Whether `id` names a `RootInner` of `roots`.
pub open spec fn root_live(roots: Seq<Option<RootInner>>, id: u64) -> bool {
    0 < id < roots.len() && roots[id as int] is Some
}

/// Every descriptor is acceptable and carries its index as identity.
pub open spec fn infos_wf(infos: Seq<Info>) -> bool {
    forall|i: int|
        0 <= i < infos.len() ==> (#[trigger] infos[i]).wf() && infos[i].identity == i
}

/// Every object of `space` has a descriptor of `infos` and that descriptor's
/// size.
pub open spec fn typed(infos: Seq<Info>, space: &Space) -> bool {
    forall|a: u64| #[trigger]
        space.has_object(a) ==> space.entry(a).info < infos.len() && space.entry(a).size
            == infos[space.entry(a).info as int].size
}

/// Whether `v` may stand in a pointer field of kind `kind`: a managed pointer
/// is zero or the address of an object of `space`; a handle is zero or a
/// number that the root table has given out, and where it names a
/// `RootInner`, it names one whose object is in `space`.
pub open spec fn value_ok(
    space: &Space,
    roots: Seq<Option<RootInner>>,
    kind: TraceFn,
    v: u64,
) -> bool {
    match kind {
        TraceFn::Gc => v == 0 || space.has_object(v),
        TraceFn::Root => v < roots.len() && (root_live(roots, v) ==> space.has_object(
            roots[v as int]->0.ptr,
        )),
    }
}

/// Whether every pointer field of a value `bytes` with fields `slots` holds
/// what `value_ok` admits.
pub open spec fn fields_ok(
    space: &Space,
    roots: Seq<Option<RootInner>>,
    slots: Seq<Slot>,
    bytes: Seq<u8>,
) -> bool {
    forall|k: int|
        0 <= k < slots.len() ==> value_ok(
            space,
            roots,
            (#[trigger] slots[k]).trace_fn,
            spec_word(bytes, slots[k].offset as int),
        )
}

/// Every pointer field of every object of `space` holds what `value_ok`
/// admits: the objects point at each other only.
pub open spec fn closed_graph(
    infos: Seq<Info>,
    space: &Space,
    roots: Seq<Option<RootInner>>,
) -> bool {
    forall|a: u64| #[trigger]
        space.has_object(a) ==> fields_ok(
            space,
            roots,
            infos[space.entry(a).info as int].slots@,
            space.bytes_at(a),
        )
}

/// Every status of `space` is `Rooted` and names a `RootInner` whose `ptr` is
/// the object that has the status.
pub open spec fn statuses_rooted(space: &Space, roots: Seq<Option<RootInner>>) -> bool {
    forall|a: u64|
        (#[trigger] space.status_at(a)) matches Some(st) ==> st matches ObjectStatus::Rooted(id)
            && root_live(roots, id) && roots[id as int]->0.ptr == a
}

/// The root table outside a cycle: entry zero is unused, every `RootInner`
/// has a handle and no count of traced handles.
pub open spec fn roots_rest(roots: Seq<Option<RootInner>>) -> bool {
    &&& roots.len() >= 1
    &&& roots[0] is None
    &&& forall|i: int|
        0 <= i < roots.len() ==> ((#[trigger] roots[i]) matches Some(r) ==> r.ref_count > 0
            && r.traced_count == 0)
}

/// Pointer fields that are in order for a space are in order for a space
/// that holds at least the same objects.
pub proof fn lemma_fields_grow(
    small: &Space,
    large: &Space,
    roots: Seq<Option<RootInner>>,
    slots: Seq<Slot>,
    bytes: Seq<u8>,
)
    requires
        fields_ok(small, roots, slots, bytes),
        forall|x: u64| #[trigger] small.has_object(x) ==> large.has_object(x),
    ensures
        fields_ok(large, roots, slots, bytes),
{
    assert forall|k: int| 0 <= k < slots.len() implies value_ok(
        large,
        roots,
        (#[trigger] slots[k]).trace_fn,
        spec_word(bytes, slots[k].offset as int),
    ) by {
        let v = spec_word(bytes, slots[k].offset as int);
        assert(value_ok(small, roots, slots[k].trace_fn, v));
        if slots[k].trace_fn == TraceFn::Gc {
            if v != 0 {
                assert(small.has_object(v));
            }
        } else {
            if root_live(roots, v) {
                assert(small.has_object(roots[v as int]->0.ptr));
            }
        }
    }
}

/// Statuses that name their roots stay so in a space with the same statuses.
pub proof fn lemma_statuses_same(now: &Space, before: &Space, roots: Seq<Option<RootInner>>)
    requires
        now.same_statuses(before),
        statuses_rooted(before, roots),
    ensures
        statuses_rooted(now, roots),
{
    assert forall|a: u64| (#[trigger] now.status_at(a)) is Some implies (now.status_at(a)->0 matches ObjectStatus::Rooted(
        id,
    ) && root_live(roots, id) && roots[id as int]->0.ptr == a) by {
        assert(now.status_at(a) == before.status_at(a));
    }
}

/// A change of the root table and of the statuses keeps the heap in order,
/// if the spaces hold the same objects, the root table did not shrink,
/// every root but `gone` is kept with its address, a root that is new names
/// an object, every status that is left is one that was there or names a
/// root at its object, and no status is left that names `gone`.
pub proof fn lemma_table_keeps(
    infos: Seq<Info>,
    before: &Space,
    after: &Space,
    roots0: Seq<Option<RootInner>>,
    roots1: Seq<Option<RootInner>>,
    gone: u64,
)
    requires
        typed(infos, before),
        closed_graph(infos, before, roots0),
        statuses_rooted(before, roots0),
        after.same_objects(before),
        roots1.len() >= roots0.len(),
        forall|i: u64|
            root_live(roots1, i) ==> (root_live(roots0, i) && roots1[i as int]->0.ptr
                == roots0[i as int]->0.ptr) || before.has_object(#[trigger] roots1[i as int]->0.ptr),
        forall|i: u64|
            #![trigger roots1[i as int]]
            root_live(roots0, i) && i != gone ==> root_live(roots1, i) && roots1[i as int]->0.ptr
                == roots0[i as int]->0.ptr,
        forall|a: u64|
            (#[trigger] after.status_at(a)) matches Some(st) ==> st != ObjectStatus::Rooted(gone)
                && (Some(st) == before.status_at(a) || (st matches ObjectStatus::Rooted(id)
                && root_live(roots1, id) && roots1[id as int]->0.ptr == a)),
    ensures
        typed(infos, after),
        closed_graph(infos, after, roots1),
        statuses_rooted(after, roots1),
{
    lemma_same_keeps(infos, before, after, roots0, roots1);
    assert forall|a: u64| (#[trigger] after.status_at(a)) is Some implies (after.status_at(
        a,
    )->0 matches ObjectStatus::Rooted(i) && root_live(roots1, i) && roots1[i as int]->0.ptr
        == a) by {
        if after.status_at(a) == before.status_at(a) {
            assert(before.status_at(a) is Some);
        }
    }
}

/// A change of the statuses and of the handle counts keeps the objects
/// typed and pointing at each other, if the spaces hold the same objects,
/// the root table did not shrink, and every root that exists afterwards
/// names an object.
pub proof fn lemma_same_keeps(
    infos: Seq<Info>,
    before: &Space,
    after: &Space,
    roots0: Seq<Option<RootInner>>,
    roots1: Seq<Option<RootInner>>,
)
    requires
        typed(infos, before),
        closed_graph(infos, before, roots0),
        after.same_objects(before),
        roots1.len() >= roots0.len(),
        forall|i: u64|
            root_live(roots1, i) ==> (root_live(roots0, i) && roots1[i as int]->0.ptr
                == roots0[i as int]->0.ptr) || before.has_object(#[trigger] roots1[i as int]->0.ptr),
    ensures
        typed(infos, after),
        closed_graph(infos, after, roots1),
{
    assert forall|a: u64| #[trigger] after.has_object(a) implies after.entry(a).info < infos.len()
        && after.entry(a).size == infos[after.entry(a).info as int].size by {
        assert(before.has_object(a));
        assert(after.entry(a) == before.entry(a));
    }
    assert forall|a: u64| #[trigger] after.has_object(a) implies fields_ok(
        after,
        roots1,
        infos[after.entry(a).info as int].slots@,
        after.bytes_at(a),
    ) by {
        assert(before.has_object(a));
        assert(after.entry(a) == before.entry(a));
        assert(after.bytes_at(a) == before.bytes_at(a));
        let slots = infos[after.entry(a).info as int].slots@;
        let bytes = after.bytes_at(a);
        assert(fields_ok(before, roots0, slots, bytes));
        assert forall|k: int| 0 <= k < slots.len() implies value_ok(
            after,
            roots1,
            (#[trigger] slots[k]).trace_fn,
            spec_word(bytes, slots[k].offset as int),
        ) by {
            let v = spec_word(bytes, slots[k].offset as int);
            assert(value_ok(before, roots0, slots[k].trace_fn, v));
            if slots[k].trace_fn == TraceFn::Gc {
                if v != 0 {
                    assert(after.has_object(v) == before.has_object(v));
                }
            } else {
                if root_live(roots1, v) {
                    let p = roots1[v as int]->0.ptr;
                    assert(after.has_object(p) == before.has_object(p));
                }
            }
        }
    }
}

/// The managed heap.
pub struct Heap {
    pub(crate) infos: Vec<Info>,
    pub(crate) space: Space,
    pub(crate) roots: Vec<Option<RootInner>>,
    pub(crate) post_block_count: usize,
    pub(crate) marker: bool,
}

impl Heap {
    /// The registered descriptors, by identity.
    pub closed spec fn spec_infos(&self) -> Seq<Info> {
        self.infos@
    }

    /// The live blocks.
    pub closed spec fn spec_space(&self) -> Space {
        self.space
    }

    /// The root table, by number. A freed entry is `None`.
    pub closed spec fn spec_roots(&self) -> Seq<Option<RootInner>> {
        self.roots@
    }

    /// Blocks that survived the last collection cycle.
    pub closed spec fn spec_post_block_count(&self) -> usize {
        self.post_block_count
    }

    /// The current generation bit.
    pub closed spec fn spec_marker(&self) -> bool {
        self.marker
    }

    /// Blocks that are live.
    pub open spec fn spec_block_count(&self) -> nat {
        self.spec_space().spec_block_count()
    }

    /// Whether a live object starts at `a`.
    pub open spec fn has_object(&self, a: u64) -> bool {
        self.spec_space().has_object(a)
    }

    /// The bytes of the object at `a`.
    pub open spec fn bytes_at(&self, a: u64) -> Seq<u8> {
        self.spec_space().bytes_at(a)
    }

    /// The identity of the descriptor of the object at `a`.
    pub open spec fn info_at(&self, a: u64) -> usize {
        self.spec_space().entry(a).info
    }

    /// The status that the block of `a` records for `a`.
    pub open spec fn status_at(&self, a: u64) -> Option<ObjectStatus> {
        self.spec_space().status_at(a)
    }

    /// The heap's invariant between collection cycles.
    pub open spec fn wf(&self) -> bool {
        &&& self.spec_space().wf()
        &&& self.spec_space().spec_marker() == self.spec_marker()
        &&& infos_wf(self.spec_infos())
        &&& typed(self.spec_infos(), &self.spec_space())
        &&& closed_graph(self.spec_infos(), &self.spec_space(), self.spec_roots())
        &&& statuses_rooted(&self.spec_space(), self.spec_roots())
        &&& roots_rest(self.spec_roots())
    }

    /// The pointer fields of the object at `a`.
    pub open spec fn slots_at(&self, a: u64) -> Seq<Slot> {
        self.spec_infos()[self.info_at(a) as int].slots@
    }

    /// What pointer field `k` of the object at `a` holds: an address, or the
    /// number of a `RootInner`.
    pub open spec fn field(&self, a: u64, k: int) -> u64 {
        spec_word(self.bytes_at(a), self.slots_at(a)[k].offset as int)
    }

    /// The object that pointer field `k` of the object at `a` leads to, or
    /// zero when it leads nowhere: for a managed pointer the address that it
    /// holds, for a handle the object of the `RootInner` that it names.
    pub open spec fn target(&self, a: u64, k: int) -> u64 {
        match self.slots_at(a)[k].trace_fn {
            TraceFn::Gc => self.field(a, k),
            TraceFn::Root => if root_live(self.spec_roots(), self.field(a, k)) {
                self.spec_roots()[self.field(a, k) as int]->0.ptr
            } else {
                0
            },
        }
    }

    /// Whether a pointer field of the object at `a` leads to the object at
    /// `b`.
    pub open spec fn edge(&self, a: u64, b: u64) -> bool {
        &&& self.has_object(a)
        &&& b != 0
        &&& exists|k: int| 0 <= k < self.slots_at(a).len() && #[trigger] self.target(a, k) == b
    }

    /// Whether a handle to root `id` is kept inside the heap: a handle field
    /// of some object holds `id`.
    pub open spec fn holds_handle(&self, id: u64) -> bool {
        exists|a: u64, k: int|
            self.has_object(a) && 0 <= k < self.slots_at(a).len() && self.slots_at(a)[k].trace_fn
                == TraceFn::Root && #[trigger] self.field(a, k) == id
    }

    /// The handles to root `id` that the objects keep: each the address of
    /// an object and the index of the pointer field that holds the handle.
    pub open spec fn handles_to(&self, id: u64) -> Set<(u64, int)> {
        Set::new(
            |at: (u64, int)|
                self.has_object(at.0) && 0 <= at.1 < self.slots_at(at.0).len() && self.slots_at(
                    at.0,
                )[at.1].trace_fn == TraceFn::Root && self.field(at.0, at.1) == id,
        )
    }

    /// Whether a handle to root `id` is kept in an object that is reachable.
    pub open spec fn reached_handle(&self, id: u64) -> bool {
        exists|a: u64, k: int|
            self.reaches(a) && self.has_object(a) && 0 <= k < self.slots_at(a).len()
                && self.slots_at(a)[k].trace_fn == TraceFn::Root && #[trigger] self.field(a, k)
                == id
    }

    /// Whether `path` starts at an object that a root names and goes on
    /// along pointer fields.
    pub open spec fn is_path(&self, path: Seq<u64>) -> bool {
        &&& path.len() > 0
        &&& self.status_at(path[0]) is Some
        &&& forall|i: int| 0 <= i < path.len() - 1 ==> self.edge(#[trigger] path[i], path[i + 1])
    }

    /// Whether the object at `a` is reachable: a root names it, or a pointer
    /// field of a reachable object leads to it.
    pub open spec fn reaches(&self, a: u64) -> bool {
        exists|path: Seq<u64>| #[trigger] self.is_path(path) && path.last() == a
    }

    /// An object that a root names is reachable.
    pub proof fn lemma_reach_root(&self, a: u64)
        requires
            self.status_at(a) is Some,
        ensures
            self.reaches(a),
    {
        let path = seq![a];
        assert(self.is_path(path));
        assert(path.last() == a);
    }

    /// What a pointer field of a reachable object leads to is reachable.
    pub proof fn lemma_reach_step(&self, a: u64, k: int)
        requires
            self.reaches(a),
            self.has_object(a),
            0 <= k < self.slots_at(a).len(),
            self.target(a, k) != 0,
        ensures
            self.reaches(self.target(a, k)),
    {
        let path = choose|path: Seq<u64>| #[trigger] self.is_path(path) && path.last() == a;
        let b = self.target(a, k);
        let longer = path.push(b);
        assert(self.edge(a, b));
        assert forall|i: int| 0 <= i < longer.len() - 1 implies self.edge(
            #[trigger] longer[i],
            longer[i + 1],
        ) by {
            if i < path.len() - 1 {
                assert(self.edge(path[i], path[i + 1]));
            }
        }
        assert(self.is_path(longer));
        assert(longer.last() == b);
    }

    /// Both heaps have the same descriptors, blocks, roots and counters.
    pub open spec fn same(&self, other: &Heap) -> bool {
        &&& self.spec_infos() == other.spec_infos()
        &&& self.spec_space() == other.spec_space()
        &&& self.spec_roots() == other.spec_roots()
        &&& self.spec_post_block_count() == other.spec_post_block_count()
        &&& self.spec_marker() == other.spec_marker()
    }

    /// The trigger: a cycle runs when the live blocks are at least twice the
    /// blocks that survived the last cycle.
    pub open spec fn spec_should_collect(&self) -> bool {
        self.spec_block_count() >= 2 * self.spec_post_block_count()
    }

    /// An empty heap.
    pub fn new() -> (h: Heap)
        ensures
            h.wf(),
            h.spec_infos().len() == 0,
            h.spec_block_count() == 0,
            h.spec_space().spec_first() == BLOCK_SIZE,
            h.spec_space().all_objects() == Seq::<u64>::empty(),
            h.spec_post_block_count() == 0,
            h.spec_marker() == false,
            h.spec_roots() == seq![None::<RootInner>],
            forall|a: u64| !h.has_object(a),
    {
        let mut roots: Vec<Option<RootInner>> = Vec::new();
        roots.push(None);
        let h = Heap {
            infos: Vec::new(),
            space: Space::new(BLOCK_SIZE, false),
            roots,
            post_block_count: 0,
            marker: false,
        };
        assert(h.spec_roots() =~= seq![None::<RootInner>]);
        h
    }

    /// Blocks that are live.
    pub fn block_count(&self) -> (n: usize)
        ensures
            n == self.spec_block_count(),
    {
        self.space.block_count()
    }

    /// Blocks that survived the last collection cycle.
    pub fn post_block_count(&self) -> (n: usize)
        ensures
            n == self.spec_post_block_count(),
    {
        self.post_block_count
    }

    /// Sets the count of surviving blocks that the trigger compares with.
    /// Zero forces the next call of `collect` to run a cycle.
    pub fn set_post_block_count(&mut self, n: usize)
        ensures
            final(self).spec_post_block_count() == n,
            final(self).spec_infos() == old(self).spec_infos(),
            final(self).spec_space() == old(self).spec_space(),
            final(self).spec_roots() == old(self).spec_roots(),
            final(self).spec_marker() == old(self).spec_marker(),
    {
        self.post_block_count = n;
    }

    /// The current generation bit.
    pub fn marker(&self) -> (m: bool)
        ensures
            m == self.spec_marker(),
    {
        self.marker
    }

    /// Whether a call of `collect` would run a cycle now.
    pub fn should_collect(&self) -> (b: bool)
        ensures
            b == self.spec_should_collect(),
    {
        let live: usize = self.space.block_count();
        let post: usize = self.post_block_count;
        if post > usize::MAX / 2 {
            false
        } else {
            live >= 2 * post
        }
    }

    /// Registers a type and returns the identity of its descriptor.
    pub fn register(&mut self, size: usize, align: usize, slots: Vec<Slot>, safe_to_drop: bool) -> (r:
        Result<u64, GcError>)
        requires
            old(self).wf(),
        ensures
            final(self).wf(),
            final(self).spec_space() == old(self).spec_space(),
            final(self).spec_roots() == old(self).spec_roots(),
            final(self).spec_marker() == old(self).spec_marker(),
            final(self).spec_post_block_count() == old(self).spec_post_block_count(),
            r is Ok <==> (Info { size, align, slots, safe_to_drop, identity: 0 }).wf(),
            r matches Ok(id) ==> id == old(self).spec_infos().len() && final(self).spec_infos()
                == old(self).spec_infos().push(
                Info { size, align, slots, safe_to_drop, identity: id },
            ),
            r matches Err(e) ==> e == GcError::InvalidDescriptor && final(self).spec_infos() == old(
                self,
            ).spec_infos(),
    {
        let id: usize = self.infos.len();
        let info = Info { size, align, slots, safe_to_drop, identity: id as u64 };
        if !info.check() {
            return Err(GcError::InvalidDescriptor);
        }
        self.infos.push(info);
        Ok(id as u64)
    }

    /// Puts a heap together from its parts.
    pub(crate) fn assemble(
        infos: Vec<Info>,
        space: Space,
        roots: Vec<Option<RootInner>>,
        post_block_count: usize,
        marker: bool,
    ) -> (h: Heap)
        ensures
            h.spec_infos() == infos@,
            h.spec_space() == space,
            h.spec_roots() == roots@,
            h.spec_post_block_count() == post_block_count,
            h.spec_marker() == marker,
    {
        Heap { infos, space, roots, post_block_count, marker }
    }

    /// Takes a heap apart.
    pub(crate) fn dismantle(self) -> (parts: (Vec<Info>, Space, Vec<Option<RootInner>>, usize, bool))
        ensures
            parts.0@ == self.spec_infos(),
            parts.1 == self.spec_space(),
            parts.2@ == self.spec_roots(),
            parts.3 == self.spec_post_block_count(),
            parts.4 == self.spec_marker(),
    {
        (self.infos, self.space, self.roots, self.post_block_count, self.marker)
    }

    /// Tests whether `v` may stand in a pointer field of kind `kind`.
    pub fn check_value(&self, kind: TraceFn, v: u64) -> (ok: bool)
        requires
            self.wf(),
        ensures
            ok == value_ok(&self.spec_space(), self.spec_roots(), kind, v),
    {
        match kind {
            TraceFn::Gc => v == 0 || self.space.lookup(v).is_some(),
            TraceFn::Root => {
                if v >= self.roots.len() as u64 {
                    false
                } else if v == 0 {
                    true
                } else {
                    match self.roots[v as usize] {
                        Some(r) => self.space.lookup(r.ptr).is_some(),
                        None => true,
                    }
                }
            },
        }
    }

    /// Tests whether `bytes` is a value of the descriptor `info`: of its
    /// size, with pointer fields that name objects of this heap.
    pub fn check_fields(&self, info: &Info, bytes: &Vec<u8>) -> (ok: bool)
        requires
            self.wf(),
            info.wf(),
        ensures
            ok == (bytes@.len() == info.size && fields_ok(
                &self.spec_space(),
                self.spec_roots(),
                info.slots@,
                bytes@,
            )),
    {
        if bytes.len() != info.size {
            return false;
        }
        let n: usize = info.slots.len();
        let mut k: usize = 0;
        while k < n
            invariant
                k <= n,
                n == info.slots@.len(),
                self.wf(),
                info.wf(),
                bytes@.len() == info.size,
                forall|j: int|
                    0 <= j < k ==> value_ok(
                        &self.spec_space(),
                        self.spec_roots(),
                        (#[trigger] info.slots@[j]).trace_fn,
                        spec_word(bytes@, info.slots@[j].offset as int),
                    ),
            decreases n - k,
        {
            let slot = info.slots[k];
            assert(info.slots@[k as int].offset + 8 <= info.size);
            let v: u64 = word_of(bytes, slot.offset);
            if !self.check_value(slot.trace_fn, v) {
                return false;
            }
            k = k + 1;
        }
        true
    }

    /// Moves the value `bytes` of the type with identity `identity` onto the
    /// heap and returns a pointer to it. The value lands behind the cursor
    /// of the last block, or in a new block when that one has no room.
    pub fn allocate(&mut self, identity: u64, bytes: &Vec<u8>) -> (r: Result<Gc, GcError>)
        requires
            old(self).wf(),
        ensures
            final(self).wf(),
            final(self).spec_infos() == old(self).spec_infos(),
            final(self).spec_roots() == old(self).spec_roots(),
            final(self).spec_marker() == old(self).spec_marker(),
            final(self).spec_post_block_count() == old(self).spec_post_block_count(),
            final(self).spec_space().same_statuses(&old(self).spec_space()),
            final(self).spec_block_count() >= old(self).spec_block_count(),
            r == Err::<Gc, GcError>(GcError::InvalidDescriptor) <==> identity >= old(
                self,
            ).spec_infos().len(),
            r == Err::<Gc, GcError>(GcError::InvalidValue) <==> identity < old(
                self,
            ).spec_infos().len() && !old(self).accepts(identity, bytes@),
            r == Err::<Gc, GcError>(GcError::OutOfMemory) <==> identity < old(
                self,
            ).spec_infos().len() && old(self).accepts(identity, bytes@) && !old(self).has_room(
                identity,
            ),
            r is Ok <==> identity < old(self).spec_infos().len() && old(self).accepts(
                identity,
                bytes@,
            ) && old(self).has_room(identity),
            r is Err ==> final(self).spec_space().same_objects(&old(self).spec_space()),
            r matches Ok(g) ==> old(self).allocated_by(final(self), identity, bytes@, g.ptr),
            r matches Ok(g) ==> {
                &&& g.ptr != 0
                &&& !old(self).has_object(g.ptr)
                &&& final(self).bytes_at(g.ptr) == bytes@
                &&& final(self).info_at(g.ptr) == identity
                &&& final(self).status_at(g.ptr) is None
                &&& final(self).spec_block_count() == old(self).spec_block_count() + (if old(
                    self,
                ).spec_space().last_fits(
                    old(self).spec_infos()[identity as int].size,
                    old(self).spec_infos()[identity as int].align,
                ) {
                    0nat
                } else {
                    1nat
                })
                &&& forall|x: u64| #[trigger]
                    final(self).has_object(x) <==> old(self).has_object(x) || x == g.ptr
                &&& forall|x: u64| #[trigger]
                    old(self).has_object(x) ==> final(self).info_at(x) == old(self).info_at(x)
                &&& forall|x: u64| #[trigger]
                    old(self).has_object(x) ==> final(self).bytes_at(x) == old(self).bytes_at(x)
            },
    {
        if identity >= self.infos.len() as u64 {
            return Err(GcError::InvalidDescriptor);
        }
        let id: usize = identity as usize;
        if !self.check_fields(&self.infos[id], bytes) {
            return Err(GcError::InvalidValue);
        }
        let size: usize = self.infos[id].size;
        let align: usize = self.infos[id].align;
        let ghost before = *self;
        proof {
            before.space.lemma_layout();
            lemma_fresh_fits(before.space.limit(), size, align);
        }
        match self.space.allocate(size, align, id, bytes) {
            Ok(a) => {
                proof {
                    let slots = self.infos@[id as int].slots@;
                    assert(self.space.has_object(a));
                    self.space.lemma_object_bounds(a);
                    assert(before.space.status_at(a) is None) by {
                        if before.space.status_at(a) is Some {
                            before.space.lemma_status_object(a);
                        }
                    }
                    assert forall|x: u64| #[trigger] self.space.has_object(x) implies fields_ok(
                        &self.space,
                        self.roots@,
                        self.infos@[self.space.entry(x).info as int].slots@,
                        self.space.bytes_at(x),
                    ) by {
                        let sl = self.infos@[self.space.entry(x).info as int].slots@;
                        let by = self.space.bytes_at(x);
                        if x != a {
                            assert(before.space.has_object(x));
                            assert(fields_ok(&before.space, before.roots@, sl, by));
                        }
                        lemma_fields_grow(&before.space, &self.space, self.roots@, sl, by);
                    }
                    lemma_statuses_same(&self.space, &before.space, self.roots@);
                }
                Ok(Gc { ptr: a })
            },
            Err(_) => {
                proof {
                    assert forall|x: u64| #[trigger] self.space.has_object(x) implies fields_ok(
                        &self.space,
                        self.roots@,
                        self.infos@[self.space.entry(x).info as int].slots@,
                        self.space.bytes_at(x),
                    ) by {
                        let sl = self.infos@[self.space.entry(x).info as int].slots@;
                        let by = self.space.bytes_at(x);
                        assert(before.space.has_object(x));
                        assert(before.space.entry(x) == self.space.entry(x));
                        assert(before.space.bytes_at(x) == by);
                        assert(fields_ok(&before.space, before.roots@, sl, by));
                        lemma_fields_grow(&before.space, &self.space, self.roots@, sl, by);
                    }
                    lemma_statuses_same(&self.space, &before.space, self.roots@);
                    assert forall|x: u64| #[trigger] self.space.has_object(x) implies self.space.entry(x).info
                        < self.infos@.len() && self.space.entry(x).size
                        == self.infos@[self.space.entry(x).info as int].size by {
                        assert(before.space.has_object(x));
                        assert(before.space.entry(x) == self.space.entry(x));
                    }
                }
                Err(GcError::OutOfMemory)
            },
        }
    }

    /// Whether `new` is what moving the value `bytes` of the type with
    /// identity `identity` onto the heap makes of `self`, with the new
    /// object at `ptr`: nothing else changes, and a block is added exactly
    /// when the last block has no room.
    pub open spec fn allocated_by(
        &self,
        new: &Heap,
        identity: u64,
        bytes: Seq<u8>,
        ptr: u64,
    ) -> bool {
        &&& new.spec_infos() == self.spec_infos()
        &&& new.spec_roots() == self.spec_roots()
        &&& new.spec_marker() == self.spec_marker()
        &&& new.spec_post_block_count() == self.spec_post_block_count()
        &&& new.spec_space().same_statuses(&self.spec_space())
        &&& new.spec_space().spec_first() == self.spec_space().spec_first()
        &&& new.spec_space().all_objects() == self.spec_space().all_objects().push(ptr)
        &&& ptr != 0
        &&& ptr == self.spec_space().next_address(
            self.spec_infos()[identity as int].size,
            self.spec_infos()[identity as int].align,
        )
        &&& ptr % (self.spec_infos()[identity as int].align as u64) == 0
        &&& new.spec_space().spec_blocks()[new.spec_block_count() - 1].spec_cursor() == ptr
            + spec_align_up(
            self.spec_infos()[identity as int].size as int,
            self.spec_infos()[identity as int].align as int,
        )
        &&& !self.has_object(ptr)
        &&& new.has_object(ptr)
        &&& new.bytes_at(ptr) == bytes
        &&& new.info_at(ptr) == identity
        &&& new.status_at(ptr) is None
        &&& new.spec_block_count() == self.spec_block_count() + (if self.spec_space().last_fits(
            self.spec_infos()[identity as int].size,
            self.spec_infos()[identity as int].align,
        ) {
            0nat
        } else {
            1nat
        })
        &&& forall|x: u64| #[trigger] new.has_object(x) <==> self.has_object(x) || x == ptr
        &&& forall|x: u64| #[trigger]
            self.has_object(x) ==> new.info_at(x) == self.info_at(x)
        &&& forall|x: u64| #[trigger]
            self.has_object(x) ==> new.bytes_at(x) == self.bytes_at(x)
    }

    /// Whether `bytes` is a value of the type with identity `identity` that
    /// the heap accepts.
    pub open spec fn accepts(&self, identity: u64, bytes: Seq<u8>) -> bool {
        &&& identity < self.spec_infos().len()
        &&& bytes.len() == self.spec_infos()[identity as int].size
        &&& fields_ok(
            &self.spec_space(),
            self.spec_roots(),
            self.spec_infos()[identity as int].slots@,
            bytes,
        )
    }

    /// Whether the heap has room for one more value of the type with
    /// identity `identity`: in its last block, or at an address for a new
    /// block.
    pub open spec fn has_room(&self, identity: u64) -> bool {
        self.spec_space().last_fits(
            self.spec_infos()[identity as int].size,
            self.spec_infos()[identity as int].align,
        ) || self.spec_space().limit() + BLOCK_SIZE <= u64::MAX
    }

    /// A copy of the bytes of the object that `gc` points to.
    pub fn read(&self, gc: Gc) -> (r: Option<Vec<u8>>)
        requires
            self.wf(),
        ensures
            r is Some <==> self.has_object(gc.ptr),
            r matches Some(v) ==> v@ == self.bytes_at(gc.ptr),
    {
        match self.space.lookup(gc.ptr) {
            Some(_) => Some(self.space.read(gc.ptr)),
            None => None,
        }
    }

    /// The root table entry of a root made for the object at `ptr`.
    pub open spec fn fresh_inner(&self, ptr: u64) -> RootInner {
        RootInner {
            ptr,
            trace_fn: self.info_at(ptr),
            collection_marker: self.spec_marker(),
            traced_count: 0,
            ref_count: 1,
        }
    }

    /// Whether `new` and `r` are what rooting the object at `ptr` makes of
    /// `self`. An object without a status gets a new `RootInner` with one
    /// handle, behind the last of the table; a rooted object shares its
    /// `RootInner`, which counts one handle more.
    pub open spec fn rooted_by(&self, new: &Heap, ptr: u64, r: Result<u64, GcError>) -> bool {
        &&& new.spec_infos() == self.spec_infos()
        &&& new.spec_marker() == self.spec_marker()
        &&& new.spec_post_block_count() == self.spec_post_block_count()
        &&& new.spec_space().same_objects(&self.spec_space())
        &&& if !self.has_object(ptr) {
            r == Err::<u64, GcError>(GcError::PreconditionViolation) && new.same(self)
        } else {
            match self.status_at(ptr) {
                None => if self.spec_roots().len() < usize::MAX {
                    &&& r == Ok::<u64, GcError>(self.spec_roots().len() as u64)
                    &&& new.spec_roots() == self.spec_roots().push(Some(self.fresh_inner(ptr)))
                    &&& forall|a: u64| #[trigger]
                        new.status_at(a) == (if a == ptr {
                            Some(ObjectStatus::Rooted(self.spec_roots().len() as u64))
                        } else {
                            self.status_at(a)
                        })
                } else {
                    r == Err::<u64, GcError>(GcError::OutOfMemory) && new.same(self)
                },
                Some(ObjectStatus::Rooted(id)) => if self.spec_roots()[id as int]->0.ref_count
                    < usize::MAX {
                    &&& r == Ok::<u64, GcError>(id)
                    &&& new.spec_roots() == self.spec_roots().update(
                        id as int,
                        Some(
                            RootInner {
                                ref_count: (self.spec_roots()[id as int]->0.ref_count + 1) as usize,
                                ..self.spec_roots()[id as int]->0
                            },
                        ),
                    )
                    &&& new.spec_space().same_statuses(&self.spec_space())
                } else {
                    r == Err::<u64, GcError>(GcError::OutOfMemory) && new.same(self)
                },
                Some(_) => r == Err::<u64, GcError>(GcError::InvariantViolation) && new.same(self),
            }
        }
    }

    /// Roots the object that `gc` points to and returns the number of its
    /// `RootInner`.
    pub fn root(&mut self, gc: Gc) -> (r: Result<u64, GcError>)
        requires
            old(self).wf(),
        ensures
            final(self).wf(),
            old(self).rooted_by(final(self), gc.ptr, r),
    {
        let ghost before = *self;
        let entry = match self.space.lookup(gc.ptr) {
            Some(e) => e,
            None => { return Err(GcError::PreconditionViolation); },
        };
        let count: usize = self.roots.len();
        match crate::root::rooting(self.space.status(gc.ptr)) {
            crate::root::Rooting::Fresh => {
                if count == usize::MAX {
                    return Err(GcError::OutOfMemory);
                }
                let id: u64 = count as u64;
                let inner = RootInner::new(gc.ptr, entry.info, self.marker);
                self.roots.push(Some(inner));
                self.space.set_status(gc.ptr, ObjectStatus::Rooted(id));
                proof {
                    lemma_table_keeps(
                        self.infos@,
                        &before.space,
                        &self.space,
                        before.roots@,
                        self.roots@,
                        0,
                    );
                }
                Ok(id)
            },
            crate::root::Rooting::Shared(id) => {
                let inner = self.roots[id as usize].unwrap();
                if inner.ref_count == usize::MAX {
                    return Err(GcError::OutOfMemory);
                }
                self.roots[id as usize] = Some(
                    RootInner { ref_count: inner.ref_count + 1, ..inner },
                );
                proof {
                    lemma_table_keeps(
                        self.infos@,
                        &before.space,
                        &self.space,
                        before.roots@,
                        self.roots@,
                        0,
                    );
                }
                Ok(id)
            },
            crate::root::Rooting::Refused => Err(GcError::InvariantViolation),
        }
    }

    /// Whether `new` and `r` are what one more handle to root `id` makes of
    /// `self`.
    pub open spec fn retained_by(&self, new: &Heap, id: u64, r: Result<(), GcError>) -> bool {
        &&& new.spec_infos() == self.spec_infos()
        &&& new.spec_marker() == self.spec_marker()
        &&& new.spec_post_block_count() == self.spec_post_block_count()
        &&& new.spec_space() == self.spec_space()
        &&& if !root_live(self.spec_roots(), id) {
            r == Err::<(), GcError>(GcError::InvariantViolation) && new.same(self)
        } else if self.spec_roots()[id as int]->0.ref_count == usize::MAX {
            r == Err::<(), GcError>(GcError::OutOfMemory) && new.same(self)
        } else {
            &&& r == Ok::<(), GcError>(())
            &&& new.spec_roots() == self.spec_roots().update(
                id as int,
                Some(
                    RootInner {
                        ref_count: (self.spec_roots()[id as int]->0.ref_count + 1) as usize,
                        ..self.spec_roots()[id as int]->0
                    },
                ),
            )
        }
    }

    /// Counts one more handle to root `id`.
    pub fn retain(&mut self, id: u64) -> (r: Result<(), GcError>)
        requires
            old(self).wf(),
        ensures
            final(self).wf(),
            old(self).retained_by(final(self), id, r),
    {
        let ghost before = *self;
        let count: usize = self.roots.len();
        if id == 0 || id >= count as u64 {
            return Err(GcError::InvariantViolation);
        }
        let inner = match self.roots[id as usize] {
            Some(r) => r,
            None => { return Err(GcError::InvariantViolation); },
        };
        if inner.ref_count == usize::MAX {
            return Err(GcError::OutOfMemory);
        }
        self.roots[id as usize] = Some(RootInner { ref_count: inner.ref_count + 1, ..inner });
        proof {
            lemma_table_keeps(
                self.infos@,
                &before.space,
                &self.space,
                before.roots@,
                self.roots@,
                0,
            );
        }
        Ok(())
    }

    /// Whether `new` is what dropping one handle to root `id` makes of
    /// `self`. The last handle frees the `RootInner` and removes the entry
    /// that names it from the status table; the object itself is left to
    /// the next cycle.
    pub open spec fn released_by(&self, new: &Heap, id: u64) -> bool {
        &&& new.spec_infos() == self.spec_infos()
        &&& new.spec_marker() == self.spec_marker()
        &&& new.spec_post_block_count() == self.spec_post_block_count()
        &&& new.spec_space().same_objects(&self.spec_space())
        &&& if !root_live(self.spec_roots(), id) {
            new.same(self)
        } else if self.spec_roots()[id as int]->0.ref_count > 1 {
            &&& new.spec_space() == self.spec_space()
            &&& new.spec_roots() == self.spec_roots().update(
                id as int,
                Some(
                    RootInner {
                        ref_count: (self.spec_roots()[id as int]->0.ref_count - 1) as usize,
                        ..self.spec_roots()[id as int]->0
                    },
                ),
            )
        } else {
            &&& new.spec_roots() == self.spec_roots().update(id as int, None)
            &&& forall|a: u64| #[trigger]
                new.status_at(a) == (if self.status_at(a) == Some(ObjectStatus::Rooted(id)) {
                    None
                } else {
                    self.status_at(a)
                })
        }
    }

    /// Drops one handle to root `id`.
    pub fn release(&mut self, id: u64)
        requires
            old(self).wf(),
        ensures
            final(self).wf(),
            old(self).released_by(final(self), id),
    {
        let ghost before = *self;
        let count: usize = self.roots.len();
        if id == 0 || id >= count as u64 {
            return ;
        }
        let inner = match self.roots[id as usize] {
            Some(r) => r,
            None => { return ; },
        };
        if inner.ref_count > 1 {
            self.roots[id as usize] = Some(RootInner { ref_count: inner.ref_count - 1, ..inner });
            proof {
                lemma_table_keeps(
                    self.infos@,
                    &before.space,
                    &self.space,
                    before.roots@,
                    self.roots@,
                    0,
                );
            }
        } else {
            self.roots[id as usize] = None;
            let entered: bool = match self.space.status(inner.ptr) {
                Some(ObjectStatus::Rooted(x)) => x == id,
                _ => false,
            };
            if entered {
                self.space.clear_status(inner.ptr);
            }
            proof {
                lemma_table_keeps(
                    self.infos@,
                    &before.space,
                    &self.space,
                    before.roots@,
                    self.roots@,
                    id,
                );
                assert forall|a: u64| #[trigger]
                    self.status_at(a) == (if before.status_at(a) == Some(
                        ObjectStatus::Rooted(id),
                    ) {
                        None
                    } else {
                        before.status_at(a)
                    }) by {
                    if before.status_at(a) == Some(ObjectStatus::Rooted(id)) {
                        assert(before.space.status_at(a) is Some);
                    }
                }
            }
        }
    }

    /// The identity of the type of the object that root `id` names, if the
    /// root exists and its object is live.
    pub open spec fn stored_identity(&self, id: u64) -> Option<u64> {
        if self.spec_deref(id) is Some {
            Some(self.info_at(self.spec_roots()[id as int]->0.ptr) as u64)
        } else {
            None
        }
    }

    /// The bytes of the object that root `id` names, if the root exists and
    /// its object is live.
    pub open spec fn spec_deref(&self, id: u64) -> Option<Seq<u8>> {
        if root_live(self.spec_roots(), id) && self.has_object(self.spec_roots()[id as int]->0.ptr) {
            Some(self.bytes_at(self.spec_roots()[id as int]->0.ptr))
        } else {
            None
        }
    }

    /// A copy of the bytes of the object that root `id` names.
    pub fn deref(&self, id: u64) -> (r: Option<Vec<u8>>)
        requires
            self.wf(),
        ensures
            r is Some <==> self.spec_deref(id) is Some,
            r matches Some(v) ==> Some(v@) == self.spec_deref(id),
    {
        let count: usize = self.roots.len();
        if id == 0 || id >= count as u64 {
            return None;
        }
        match self.roots[id as usize] {
            Some(inner) => self.read(Gc { ptr: inner.ptr }),
            None => None,
        }
    }

    /// The identity of the descriptor of the object that root `id` names.
    pub fn root_info(&self, id: u64) -> (r: Option<u64>)
        requires
            self.wf(),
        ensures
            r == (if self.spec_deref(id) is Some {
                Some(self.info_at(self.spec_roots()[id as int]->0.ptr) as u64)
            } else {
                None::<u64>
            }),
    {
        let count: usize = self.roots.len();
        if id == 0 || id >= count as u64 {
            return None;
        }
        match self.roots[id as usize] {
            Some(inner) => match self.space.lookup(inner.ptr) {
                Some(e) => Some(e.info as u64),
                None => None,
            },
            None => None,
        }
    }

    /// The root table entry of root `id`.
    pub fn root_inner(&self, id: u64) -> (r: Option<RootInner>)
        ensures
            r == (if root_live(self.spec_roots(), id) {
                self.spec_roots()[id as int]
            } else {
                None::<RootInner>
            }),
    {
        let count: usize = self.roots.len();
        if id == 0 || id >= count as u64 {
            return None;
        }
        self.roots[id as usize]
    }

    /// The status that the block of the object at `gc` records for it.
    pub fn status(&self, gc: Gc) -> (r: Option<ObjectStatus>)
        requires
            self.wf(),
        ensures
            r == self.status_at(gc.ptr),
    {
        self.space.status(gc.ptr)
    }

    /// Whether `new` and `r` are what storing `value` into pointer field
    /// `field` of the object at `obj` makes of `self`.
    pub open spec fn stored_by(
        &self,
        new: &Heap,
        obj: u64,
        field: usize,
        value: u64,
        r: Result<(), GcError>,
    ) -> bool {
        &&& new.spec_infos() == self.spec_infos()
        &&& new.spec_roots() == self.spec_roots()
        &&& new.spec_marker() == self.spec_marker()
        &&& new.spec_post_block_count() == self.spec_post_block_count()
        &&& new.spec_space().same_layout(&self.spec_space())
        &&& new.spec_space().same_statuses(&self.spec_space())
        &&& if !self.has_object(obj) {
            r == Err::<(), GcError>(GcError::PreconditionViolation) && new.same(self)
        } else if field >= self.slots_at(obj).len() || !value_ok(
            &self.spec_space(),
            self.spec_roots(),
            self.slots_at(obj)[field as int].trace_fn,
            value,
        ) {
            r == Err::<(), GcError>(GcError::InvalidValue) && new.same(self)
        } else {
            &&& r == Ok::<(), GcError>(())
            &&& new.bytes_at(obj) == spec_splice(
                self.bytes_at(obj),
                self.slots_at(obj)[field as int].offset as int,
                spec_u64_to_le_bytes(value),
            )
            &&& new.field(obj, field as int) == value
            &&& forall|x: u64|
                self.has_object(x) && x != obj ==> #[trigger] new.bytes_at(x) == self.bytes_at(x)
        }
    }

    /// Stores `value` into pointer field `field` of the object that `obj`
    /// points to: the address of an object or zero into a managed pointer,
    /// the number of a root into a handle.
    pub fn store(&mut self, obj: Gc, field: usize, value: u64) -> (r: Result<(), GcError>)
        requires
            old(self).wf(),
        ensures
            final(self).wf(),
            old(self).stored_by(final(self), obj.ptr, field, value, r),
    {
        let ghost before = *self;
        let entry = match self.space.lookup(obj.ptr) {
            Some(e) => e,
            None => { return Err(GcError::PreconditionViolation); },
        };
        if field >= self.infos[entry.info].slots.len() {
            return Err(GcError::InvalidValue);
        }
        let slot = self.infos[entry.info].slots[field];
        if !self.check_value(slot.trace_fn, value) {
            return Err(GcError::InvalidValue);
        }
        proof {
            before.space.lemma_object_bounds(obj.ptr);
            assert(self.infos@[entry.info as int].wf());
        }
        self.space.write_word(obj.ptr, slot.offset, value);
        proof {
            let slots = self.infos@[entry.info as int].slots@;
            let b = before.space.bytes_at(obj.ptr);
            lemma_word_stored(b, slot.offset as int, value);
            assert forall|a: u64| #[trigger] self.space.has_object(a) implies self.space.entry(a).info
                < self.infos@.len() && self.space.entry(a).size
                == self.infos@[self.space.entry(a).info as int].size by {
                assert(before.space.has_object(a));
                assert(self.space.entry(a) == before.space.entry(a));
            }
            assert forall|a: u64| #[trigger] self.space.has_object(a) implies fields_ok(
                &self.space,
                self.roots@,
                self.infos@[self.space.entry(a).info as int].slots@,
                self.space.bytes_at(a),
            ) by {
                assert(before.space.has_object(a));
                assert(self.space.entry(a) == before.space.entry(a));
                let sl = self.infos@[self.space.entry(a).info as int].slots@;
                assert(fields_ok(&before.space, before.roots@, sl, before.space.bytes_at(a)));
                assert forall|k: int| 0 <= k < sl.len() implies value_ok(
                    &self.space,
                    self.roots@,
                    (#[trigger] sl[k]).trace_fn,
                    spec_word(self.space.bytes_at(a), sl[k].offset as int),
                ) by {
                    let v0 = spec_word(before.space.bytes_at(a), sl[k].offset as int);
                    assert(value_ok(&before.space, before.roots@, sl[k].trace_fn, v0));
                    let v = spec_word(self.space.bytes_at(a), sl[k].offset as int);
                    if a == obj.ptr {
                        if k == field {
                            assert(v == value);
                        } else {
                            assert(sl[k].offset + 8 <= b.len());
                            if k < field {
                                assert(sl[k].offset + 8 <= sl[field as int].offset);
                            } else {
                                assert(sl[field as int].offset + 8 <= sl[k].offset);
                            }
                            lemma_word_kept(b, slot.offset as int, value, sl[k].offset as int);
                            assert(v == v0);
                        }
                    } else {
                        assert(self.space.bytes_at(a) == before.space.bytes_at(a));
                    }
                    if sl[k].trace_fn == TraceFn::Gc {
                        if v != 0 {
                            assert(self.space.has_object(v) == before.space.has_object(v));
                        }
                    } else {
                        if root_live(self.roots@, v) {
                            let p = self.roots@[v as int]->0.ptr;
                            assert(self.space.has_object(p) == before.space.has_object(p));
                        }
                    }
                }
            }
            lemma_statuses_same(&self.space, &before.space, self.roots@);
        }
        Ok(())
    }

    /// The descriptor with identity `id`.
    pub fn info_of(&self, id: u64) -> (r: Option<&Info>)
        ensures
            r == (if id < self.spec_infos().len() {
                Some(&self.spec_infos()[id as int])
            } else {
                None::<&Info>
            }),
    {
        if id < self.infos.len() as u64 {
            Some(&self.infos[id as usize])
        } else {
            None
        }
    }
}

} // verus!
