//! The collection cycle: every object that the roots reach is copied into
//! new blocks, every pointer to it is rewritten, and the old blocks are
//! given up.

use vstd::prelude::*;
use crate::block::{lemma_splice_bytes, lemma_word_kept, lemma_word_stored, spec_word};
use crate::heap::{
    closed_graph, fields_ok, GcError, Heap, root_live, roots_rest, statuses_rooted, typed, value_ok,
};
use crate::info::{Info, lemma_fresh_fits, Slot, slots_fit, spec_trace, TraceAt, TraceFn};
use crate::layout::BLOCK_SIZE;
use crate::root::RootInner;
use crate::space::Space;
use crate::status::ObjectStatus;

verus! {

/// Whether byte `i` of a value with pointer fields `slots` belongs to a
/// managed pointer.
pub open spec fn gc_covered(slots: Seq<Slot>, i: int) -> bool {
    exists|k: int|
        0 <= k < slots.len() && (#[trigger] slots[k]).trace_fn == TraceFn::Gc && slots[k].offset <= i
            < slots[k].offset + 8
}

/// Whether `status` says that the object was moved.
pub open spec fn is_moved(status: Option<ObjectStatus>) -> bool {
    status matches Some(ObjectStatus::Moved(_))
}

/// An object that a cycle found unreachable and whose type is not safe to
/// drop: the host runs its destructor on these bytes.
#[derive(Debug)]
pub struct Dropped {
    /// Where the object was.
    pub ptr: u64,
    /// The identity of its descriptor.
    pub info: usize,
    /// Its bytes as the cycle found them.
    pub bytes: Vec<u8>,
}

/// Where a managed pointer `v` points after a cycle that moved objects as
/// `forward` says.
pub open spec fn forwarded(forward: Map<u64, u64>, v: u64) -> u64 {
    if v == 0 {
        0
    } else {
        forward[v]
    }
}

/// Whether the object at `q` of `new` is the object at `a` of `old`, moved:
/// the same descriptor, the same bytes outside the managed pointers, every
/// managed pointer rewritten to where its target went, and every handle as
/// it was.
pub open spec fn copy_of(old: &Heap, a: u64, new: &Heap, q: u64, forward: Map<u64, u64>) -> bool {
    &&& new.info_at(q) == old.info_at(a)
    &&& new.bytes_at(q).len() == old.bytes_at(a).len()
    &&& forall|i: int|
        0 <= i < old.bytes_at(a).len() && !gc_covered(old.slots_at(a), i)
            ==> #[trigger] new.bytes_at(q)[i] == old.bytes_at(a)[i]
    &&& forall|k: int|
        0 <= k < old.slots_at(a).len() && (#[trigger] old.slots_at(a)[k]).trace_fn == TraceFn::Gc
            ==> {
            &&& (old.field(a, k) != 0 ==> forward.contains_key(old.field(a, k)))
            &&& new.field(q, k) == forwarded(forward, old.field(a, k))
        }
    &&& forall|k: int|
        0 <= k < old.slots_at(a).len() && (#[trigger] old.slots_at(a)[k]).trace_fn
            == TraceFn::Root ==> new.field(q, k) == old.field(a, k)
}

/// The smaller of two numbers.
pub open spec fn spec_least(a: nat, b: nat) -> nat {
    if a <= b {
        a
    } else {
        b
    }
}

/// The number that `counts` holds for root `id`: zero where it holds none.
pub open spec fn spec_outside(counts: Map<u64, nat>, id: u64) -> nat {
    if counts.contains_key(id) {
        counts[id]
    } else {
        0
    }
}

/// Root `i` after a cycle against what it was before: the same handles and
/// descriptor; it names its old address or the place that its object went
/// to, and the latter if it was entered in the status table; and it is
/// still entered exactly if it was and the handles to it that the
/// surviving objects keep, and those that `outside` counts for it, are
/// fewer than the handles that it has.
pub open spec fn root_moved(
    old: &Heap,
    new: &Heap,
    forward: Map<u64, u64>,
    outside: Map<u64, nat>,
    i: int,
) -> bool {
    match (new.spec_roots()[i], old.spec_roots()[i]) {
        (Some(r), Some(o)) => {
            &&& r.ref_count == o.ref_count
            &&& r.trace_fn == o.trace_fn
            &&& r.traced_count == 0
            &&& r.collection_marker == new.spec_marker()
            &&& (r.ptr == o.ptr || (forward.contains_key(o.ptr) && r.ptr == forward[o.ptr]))
            &&& (old.status_at(o.ptr) == Some(ObjectStatus::Rooted(i as u64))
                ==> forward.contains_key(o.ptr) && r.ptr == forward[o.ptr])
            &&& (old.status_at(o.ptr) == Some(ObjectStatus::Rooted(i as u64)) ==> {
                &&& new.handles_to(i as u64).finite()
                &&& (new.status_at(r.ptr) == Some(ObjectStatus::Rooted(i as u64))
                    <==> new.handles_to(i as u64).len() + spec_outside(outside, i as u64)
                    < r.ref_count)
            })
        },
        (None, None) => true,
        _ => false,
    }
}

/// Whether `new` is what a collection cycle makes of `old`, with `forward`
/// taking each object that survived from its old address to its new one.
/// Exactly the reachable objects survive; they lie in blocks that begin
/// where the blocks of `old` end; and a survivor has no status that it did
/// not have. `outside` counts, for each root, the handles that were traced
/// besides those in the pointer fields of the objects: a root that it does
/// not hold has none, and a cycle that the heap runs by itself has none
/// for any root.
pub open spec fn evacuated(
    old: &Heap,
    new: &Heap,
    forward: Map<u64, u64>,
    outside: Map<u64, nat>,
) -> bool {
    &&& new.spec_infos() == old.spec_infos()
    &&& new.spec_marker() != old.spec_marker()
    &&& new.spec_post_block_count() == new.spec_block_count()
    &&& old.spec_space().limit() == new.spec_space().spec_first()
    &&& new.spec_space().all_objects().len() <= old.spec_space().all_objects().len()
    &&& forall|a: u64| #[trigger] forward.contains_key(a) <==> old.reaches(a)
    &&& forall|a: u64| #[trigger] forward.contains_key(a) ==> old.has_object(a)
    &&& forall|a: u64|
        #![trigger forward[a]]
        forward.contains_key(a) ==> new.has_object(forward[a]) && copy_of(
            old,
            a,
            new,
            forward[a],
            forward,
        )
    &&& forall|a: u64, b: u64|
        forward.contains_key(a) && forward.contains_key(b) && #[trigger] forward[a]
            == #[trigger] forward[b] ==> a == b
    &&& forall|q: u64| #[trigger]
        new.has_object(q) ==> exists|a: u64| forward.contains_key(a) && #[trigger] forward[a] == q
    &&& forall|a: u64|
        forward.contains_key(a) && (#[trigger] new.status_at(forward[a])) is Some
            ==> new.status_at(forward[a]) == old.status_at(a)
    &&& new.spec_roots().len() == old.spec_roots().len()
    &&& forall|i: int|
        0 <= i < old.spec_roots().len() ==> #[trigger] root_moved(old, new, forward, outside, i)
}

/// Marks every object of `from` that was not moved and whose type is not
/// safe to drop as dropped, and returns these objects, each once.
pub fn sweep(from: &mut Space, infos: &Vec<Info>) -> (dropped: Vec<Dropped>)
    requires
        old(from).wf(),
        typed(infos@, old(from)),
    ensures
        final(from).wf(),
        final(from).same_objects(old(from)),
        forall|a: u64| #[trigger]
            final(from).status_at(a) == (if doomed(old(from), infos@, a) {
                Some(ObjectStatus::Dropped)
            } else {
                old(from).status_at(a)
            }),
        forall|j: int|
            0 <= j < dropped@.len() ==> doomed(old(from), infos@, (#[trigger] dropped@[j]).ptr)
                && dropped@[j].info == old(from).entry(dropped@[j].ptr).info && dropped@[j].bytes@
                == old(from).bytes_at(dropped@[j].ptr),
        forall|a: u64|
            doomed(old(from), infos@, a) ==> exists|j: int|
                0 <= j < dropped@.len() && (#[trigger] dropped@[j]).ptr == a,
        forall|i: int, j: int|
            0 <= i < j < dropped@.len() ==> (#[trigger] dropped@[i]).ptr != (#[trigger] dropped@[j]).ptr,
{
    let ghost pre = *from;
    let list = from.object_list();
    proof {
        from.lemma_all_objects();
    }
    let mut out: Vec<Dropped> = Vec::new();
    let mut i: usize = 0;
    while i < list.len()
        invariant
            i <= list@.len(),
            pre.wf(),
            typed(infos@, &pre),
            list@ == pre.all_objects(),
            list@.no_duplicates(),
            forall|a: u64| list@.contains(a) <==> pre.has_object(a),
            from.wf(),
            from.same_objects(&pre),
            forall|a: u64| #[trigger]
                from.status_at(a) == (if doomed(&pre, infos@, a) && list@.subrange(
                    0,
                    i as int,
                ).contains(a) {
                    Some(ObjectStatus::Dropped)
                } else {
                    pre.status_at(a)
                }),
            forall|j: int|
                0 <= j < out@.len() ==> doomed(&pre, infos@, (#[trigger] out@[j]).ptr)
                    && out@[j].info == pre.entry(out@[j].ptr).info && out@[j].bytes@
                    == pre.bytes_at(out@[j].ptr) && list@.subrange(0, i as int).contains(
                    out@[j].ptr,
                ),
            forall|a: u64|
                doomed(&pre, infos@, a) && list@.subrange(0, i as int).contains(a) ==> exists|
                    j: int,
                |
                    0 <= j < out@.len() && (#[trigger] out@[j]).ptr == a,
            forall|i: int, j: int|
                0 <= i < j < out@.len() ==> (#[trigger] out@[i]).ptr != (#[trigger] out@[j]).ptr,
        decreases list@.len() - i,
    {
        let a: u64 = list[i];
        let ghost seen = list@.subrange(0, i as int);
        let ghost next = list@.subrange(0, i + 1);
        let ghost mid = *from;
        let ghost before_out = out@;
        proof {
            assert(list@.contains(a));
            assert(pre.has_object(a));
            assert(from.has_object(a) == pre.has_object(a));
            assert(from.entry(a) == pre.entry(a));
            assert(from.bytes_at(a) == pre.bytes_at(a));
            assert(!seen.contains(a)) by {
                if seen.contains(a) {
                    let j = choose|j: int| 0 <= j < seen.len() && seen[j] == a;
                    assert(list@[j] == a && list@[i as int] == a);
                }
            }
            assert(next =~= seen.push(a));
            assert forall|x: u64| next.contains(x) <==> seen.contains(x) || x == a by {
                if seen.contains(x) {
                    let j = choose|j: int| 0 <= j < seen.len() && seen[j] == x;
                    assert(next[j] == x);
                }
                if next.contains(x) {
                    let j = choose|j: int| 0 <= j < next.len() && next[j] == x;
                    if j < i {
                        assert(seen[j] == x);
                    }
                }
                assert(next[i as int] == a);
            }
        }
        let entry = from.lookup(a).unwrap();
        let moved: bool = match from.status(a) {
            Some(ObjectStatus::Moved(_)) => true,
            _ => false,
        };
        if !moved && !infos[entry.info].safe_to_drop {
            let bytes = from.read(a);
            from.set_status(a, ObjectStatus::Dropped);
            out.push(Dropped { ptr: a, info: entry.info, bytes });
            proof {
                assert(doomed(&pre, infos@, a));
                assert(out@[before_out.len() as int].ptr == a);
                assert forall|x: u64|
                    doomed(&pre, infos@, x) && next.contains(x) implies exists|j: int|
                    0 <= j < out@.len() && (#[trigger] out@[j]).ptr == x by {
                    if x != a {
                        let j = choose|j: int|
                            0 <= j < before_out.len() && (#[trigger] before_out[j]).ptr == x;
                        assert(out@[j].ptr == x);
                    }
                }
                assert forall|j: int| 0 <= j < out@.len() implies doomed(
                    &pre,
                    infos@,
                    (#[trigger] out@[j]).ptr,
                ) && out@[j].info == pre.entry(out@[j].ptr).info && out@[j].bytes@ == pre.bytes_at(
                    out@[j].ptr,
                ) && next.contains(out@[j].ptr) by {
                    if j < before_out.len() {
                        assert(out@[j] == before_out[j]);
                    }
                }
                assert forall|i2: int, j: int| 0 <= i2 < j < out@.len() implies (
                #[trigger] out@[i2]).ptr != (#[trigger] out@[j]).ptr by {
                    if j == before_out.len() {
                        assert(out@[i2] == before_out[i2]);
                        assert(seen.contains(before_out[i2].ptr));
                    } else {
                        assert(out@[i2] == before_out[i2]);
                        assert(out@[j] == before_out[j]);
                    }
                }
                assert(from.same_objects(&pre)) by {
                    assert(from.same_objects(&mid));
                    assert forall|x: u64| #[trigger] from.has_object(x) == pre.has_object(x) by {
                        assert(mid.has_object(x) == pre.has_object(x));
                    }
                    assert forall|x: u64| #[trigger] from.entry(x) == pre.entry(x) by {
                        assert(mid.entry(x) == pre.entry(x));
                    }
                    assert forall|x: u64| #[trigger] from.bytes_at(x) == pre.bytes_at(x) by {
                        assert(mid.bytes_at(x) == pre.bytes_at(x));
                    }
                    assert forall|size: usize, align: usize| #[trigger]
                        from.last_fits(size, align) == pre.last_fits(size, align) by {
                        assert(mid.last_fits(size, align) == pre.last_fits(size, align));
                    }
                }
                assert forall|x: u64| #[trigger]
                    from.status_at(x) == (if doomed(&pre, infos@, x) && next.contains(x) {
                        Some(ObjectStatus::Dropped)
                    } else {
                        pre.status_at(x)
                    }) by {
                    assert(mid.status_at(x) == (if doomed(&pre, infos@, x) && seen.contains(x) {
                        Some(ObjectStatus::Dropped)
                    } else {
                        pre.status_at(x)
                    }));
                }
            }
        } else {
            proof {
                assert(mid.status_at(a) == pre.status_at(a));
                assert(!doomed(&pre, infos@, a));
                assert forall|x: u64| #[trigger]
                    from.status_at(x) == (if doomed(&pre, infos@, x) && next.contains(x) {
                        Some(ObjectStatus::Dropped)
                    } else {
                        pre.status_at(x)
                    }) by {}
                assert forall|j: int| 0 <= j < out@.len() implies next.contains(
                    (#[trigger] out@[j]).ptr,
                ) by {
                    assert(seen.contains(out@[j].ptr));
                }
            }
        }
        i = i + 1;
    }
    proof {
        assert(list@.subrange(0, i as int) =~= list@);
    }
    out
}

/// Whether a sweep of `space` drops the object at `a`: it was not moved
/// and its type is not safe to drop.
pub open spec fn doomed(space: &Space, infos: Seq<Info>, a: u64) -> bool {
    space.has_object(a) && !is_moved(space.status_at(a)) && !infos[space.entry(
        a,
    ).info as int].safe_to_drop
}

/// Whether a cycle on `old` drops the object at `a`: it is not reachable
/// and its type is not safe to drop.
pub open spec fn condemned(old: &Heap, a: u64) -> bool {
    old.has_object(a) && !old.reaches(a) && !old.spec_infos()[old.info_at(a) as int].safe_to_drop
}

/// Whether `dropped` lists what a cycle on `old` drops: every condemned
/// object once, with its descriptor and its bytes.
pub open spec fn drops(old: &Heap, dropped: Seq<Dropped>) -> bool {
    &&& forall|j: int|
        0 <= j < dropped.len() ==> condemned(old, (#[trigger] dropped[j]).ptr) && dropped[j].info
            == old.info_at(dropped[j].ptr) && dropped[j].bytes@ == old.bytes_at(dropped[j].ptr)
    &&& forall|a: u64|
        condemned(old, a) ==> exists|j: int|
            0 <= j < dropped.len() && (#[trigger] dropped[j]).ptr == a
    &&& forall|i: int, j: int|
        0 <= i < j < dropped.len() ==> (#[trigger] dropped[i]).ptr != (#[trigger] dropped[j]).ptr
}

/// A root table entry between cycles: no count of traced handles, and the
/// generation of the last cycle.
pub open spec fn spec_rest(entry: Option<RootInner>, marker: bool) -> Option<RootInner> {
    match entry {
        Some(r) => Some(RootInner { traced_count: 0, collection_marker: marker, ..r }),
        None => None,
    }
}

/// What a call of `collect` did.
pub struct Collection {
    /// Whether a cycle ran.
    pub ran: bool,
    /// The objects that the cycle dropped and whose destructors the host
    /// has to run.
    pub dropped: Vec<Dropped>,
    /// Where each surviving object went: old address to new address.
    pub forward: Ghost<Map<u64, u64>>,
}

impl Heap {
    /// Whether the addresses that are left suffice for a cycle, whatever
    /// survives: one block for each object.
    pub open spec fn can_collect(&self) -> bool {
        self.spec_space().limit() + self.spec_space().all_objects().len() * BLOCK_SIZE <= u64::MAX
    }

    /// Whether `new` and `r` are what the collection entry point makes of
    /// `self`. Below the trigger nothing happens. A cycle that is due and
    /// for which the addresses that are left might not suffice is refused,
    /// and nothing changes. Else a cycle runs, which traces no handle but
    /// those in the pointer fields of the objects.
    pub open spec fn collected_by(&self, new: &Heap, r: Result<Collection, GcError>) -> bool {
        if !self.spec_should_collect() {
            &&& r matches Ok(c) && !c.ran && c.dropped@.len() == 0
            &&& new.same(self)
        } else if !self.can_collect() {
            &&& r matches Err(e) && e == GcError::OutOfMemory
            &&& new.same(self)
        } else {
            r matches Ok(c) && c.ran && evacuated(self, new, c.forward@, Map::empty()) && drops(
                self,
                c.dropped@,
            )
        }
    }

    /// The collection entry point. When the live blocks are at least twice
    /// the blocks that survived the last cycle, a cycle runs: every object
    /// that the roots reach is moved into new blocks, every pointer to it is
    /// rewritten, and the old blocks are given up. Otherwise nothing
    /// happens. A cycle that is due is refused, and nothing changes, when the
    /// addresses that are left might not suffice for it.
    pub fn collect(&mut self) -> (r: Result<Collection, GcError>)
        requires
            old(self).wf(),
        ensures
            final(self).wf(),
            old(self).collected_by(final(self), r),
    {
        if !self.should_collect() {
            return Ok(Collection { ran: false, dropped: Vec::new(), forward: Ghost(Map::empty()) });
        }
        let mut taken = Heap::new();
        std::mem::swap(self, &mut taken);
        match Evacuation::begin(taken) {
            Err(h) => {
                *self = h;
                Err(GcError::OutOfMemory)
            },
            Ok(pair) => {
                let (mut cycle, worklist) = pair;
                cycle.run(&worklist);
                let (h, dropped, forward) = cycle.finish();
                *self = h;
                Ok(Collection { ran: true, dropped, forward })
            },
        }
    }
}

/// A collection cycle that has begun and not ended. `from` holds the blocks
/// that are being evacuated, `to` the blocks that are being filled; `gray`
/// lists the copied objects whose pointer fields still hold addresses of
/// `from`. For each root the cycle keeps account of the handles to it that
/// were traced: those that it found in pointer fields of copies, and how
/// many were traced besides.
pub struct Evacuation {
    infos: Vec<Info>,
    from: Space,
    to: Space,
    roots: Vec<Option<RootInner>>,
    marker: bool,
    gray: Vec<u64>,
    before: Ghost<Heap>,
    source: Ghost<Map<u64, u64>>,
    unmoved: Ghost<Set<u64>>,
    seen: Ghost<Map<u64, Set<(u64, int)>>>,
    outside: Ghost<Map<u64, nat>>,
}

impl Evacuation {
    /// The heap as it was when the cycle began.
    pub closed spec fn origin(&self) -> Heap {
        self.before@
    }

    /// The blocks that are being evacuated.
    pub closed spec fn spec_from(&self) -> Space {
        self.from
    }

    /// The blocks that are being filled.
    pub closed spec fn spec_to(&self) -> Space {
        self.to
    }

    /// The root table.
    pub closed spec fn spec_roots(&self) -> Seq<Option<RootInner>> {
        self.roots@
    }

    /// The generation bit of this cycle.
    pub closed spec fn spec_marker(&self) -> bool {
        self.marker
    }

    /// The copied objects whose pointer fields are still to be traced.
    pub closed spec fn spec_gray(&self) -> Seq<u64> {
        self.gray@
    }

    /// The pointer fields of the copy at `q`.
    pub closed spec fn slots_of(&self, q: u64) -> Seq<Slot> {
        self.infos@[self.to.entry(q).info as int].slots@
    }

    /// What pointer field `k` of the copy at `q` held when it was copied.
    pub closed spec fn word0(&self, q: u64, k: int) -> u64 {
        spec_word(self.from.bytes_at(self.source@[q]), self.slots_of(q)[k].offset as int)
    }

    /// What pointer field `k` of the copy at `q` holds now.
    pub closed spec fn word1(&self, q: u64, k: int) -> u64 {
        spec_word(self.to.bytes_at(q), self.slots_of(q)[k].offset as int)
    }

    /// The root of number `id` names the copy of the object that it named
    /// when the cycle began.
    pub open spec fn resolved(&self, id: u64) -> bool {
        self.spec_from().status_at(self.origin().spec_roots()[id as int]->0.ptr) == Some(
            ObjectStatus::Moved(self.spec_roots()[id as int]->0.ptr),
        )
    }

    /// Whether root `id` is entered in a status table at the object that it
    /// names.
    pub open spec fn entered(&self, id: u64) -> bool {
        self.spec_from().status_at(self.spec_roots()[id as int]->0.ptr) == Some(
            ObjectStatus::Rooted(id),
        ) || self.spec_to().status_at(self.spec_roots()[id as int]->0.ptr) == Some(
            ObjectStatus::Rooted(id),
        )
    }

    /// Pointer field `k` of the copy at `q` was traced: a managed pointer
    /// was rewritten to the copy of its target, the root that a handle names
    /// was brought to name the copy of its object.
    pub closed spec fn fixed(&self, q: u64, k: int) -> bool {
        match self.slots_of(q)[k].trace_fn {
            TraceFn::Gc => (self.word0(q, k) == 0 && self.word1(q, k) == 0) || (self.word0(q, k)
                != 0 && self.from.status_at(self.word0(q, k)) == Some(
                ObjectStatus::Moved(self.word1(q, k)),
            )),
            TraceFn::Root => self.word1(q, k) == self.word0(q, k) && (root_live(
                self.roots@,
                self.word0(q, k),
            ) ==> self.resolved(self.word0(q, k))),
        }
    }

    /// Whether pointer field `k` of the copy at `q` is still to be traced,
    /// when the fields of `cur` below `done` are the ones traced of it.
    pub closed spec fn pending(&self, q: u64, k: int, cur: u64, done: int) -> bool {
        self.gray@.contains(q) || (q == cur && k >= done)
    }

    /// A pending pointer field holds what it held when the object was
    /// copied; any other was traced.
    pub closed spec fn slot_ok(&self, q: u64, k: int, cur: u64, done: int) -> bool {
        if self.pending(q, k, cur, done) {
            self.word1(q, k) == self.word0(q, k)
        } else {
            self.fixed(q, k)
        }
    }

    /// The bytes of the copy at `q` outside its managed pointers are those
    /// of the object that it was copied from.
    pub closed spec fn content_ok(&self, q: u64) -> bool {
        let b0 = self.from.bytes_at(self.source@[q]);
        let b1 = self.to.bytes_at(q);
        forall|i: int|
            0 <= i < b0.len() && !gc_covered(self.slots_of(q), i) ==> #[trigger] b1[i] == b0[i]
    }

    /// Root `i` against what it was when the cycle began: the same handles,
    /// a count of traced handles that does not pass them, and a `ptr` that
    /// is the old one or the address of the copy.
    pub closed spec fn root_ok(&self, i: int) -> bool {
        match (self.roots@[i], self.before@.spec_roots()[i]) {
            (Some(r), Some(o)) => {
                &&& r.ref_count == o.ref_count
                &&& r.trace_fn == o.trace_fn
                &&& r.ref_count > 0
                &&& r.traced_count <= r.ref_count
                &&& (r.collection_marker != self.marker ==> r.traced_count == 0)
                &&& (r.ptr == o.ptr || self.from.status_at(o.ptr) == Some(
                    ObjectStatus::Moved(r.ptr),
                ))
                &&& (self.before@.status_at(o.ptr) == Some(ObjectStatus::Rooted(i as u64))
                    ==> self.from.status_at(o.ptr) == Some(ObjectStatus::Rooted(i as u64))
                    || self.from.status_at(o.ptr) == Some(ObjectStatus::Moved(r.ptr)))
            },
            (None, None) => true,
            _ => false,
        }
    }

    /// The status of the object at `a` of `from`: moved to its copy, or
    /// rooted as it was when the cycle began, or none.
    pub closed spec fn from_status_ok(&self, a: u64) -> bool {
        match self.from.status_at(a) {
            Some(ObjectStatus::Moved(q)) => self.source@.contains_key(q) && self.source@[q] == a,
            Some(ObjectStatus::Rooted(id)) => root_live(self.roots@, id) && self.roots@[id as int]->0.ptr
                == a && self.before@.status_at(a) == Some(ObjectStatus::Rooted(id)),
            Some(ObjectStatus::Dropped) => false,
            None => true,
        }
    }

    /// A status of the copy at `q` is the status that its source had when
    /// the cycle began.
    pub closed spec fn to_status_ok(&self, q: u64) -> bool {
        self.to.status_at(q) is Some ==> self.to.status_at(q) == self.before@.status_at(
            self.source@[q],
        )
    }

    /// The copy at `q` against its source: the source's status names it, it
    /// has the source's descriptor and size, and the source was reachable.
    pub closed spec fn source_ok(&self, q: u64) -> bool {
        &&& self.from.status_at(self.source@[q]) == Some(ObjectStatus::Moved(q))
        &&& self.to.entry(q) == self.from.entry(self.source@[q])
        &&& self.before@.reaches(self.source@[q])
    }

    /// The spaces of a running cycle.
    pub closed spec fn spaces_ok(&self) -> bool {
        &&& self.before@.wf()
        &&& self.infos@ == self.before@.spec_infos()
        &&& self.from.wf()
        &&& self.to.wf()
        &&& self.from.same_objects(&self.before@.spec_space())
        &&& self.from.limit() == self.to.spec_first()
        &&& self.to.spec_marker() == self.marker
        &&& self.marker != self.before@.spec_marker()
        &&& typed(self.infos@, &self.to)
        &&& statuses_rooted(&self.to, self.roots@)
    }

    /// The handles to root `id` that were traced in copies: each the address
    /// of a copy and the index of a pointer field.
    pub closed spec fn seen_of(&self, id: u64) -> Set<(u64, int)> {
        if self.seen@.contains_key(id) {
            self.seen@[id]
        } else {
            Set::empty()
        }
    }

    /// How often a handle to each root was traced besides those that the
    /// cycle found in the pointer fields of copies; a root that is missing
    /// was never traced so.
    pub closed spec fn outside_all(&self) -> Map<u64, nat> {
        self.outside@
    }

    /// How often a handle to root `id` was traced besides those that the
    /// cycle found in the pointer fields of copies.
    pub open spec fn outside(&self, id: u64) -> nat {
        spec_outside(self.outside_all(), id)
    }

    /// Pointer field `k` of the copy at `q` is a handle to root `id`.
    pub closed spec fn handle_at(&self, id: u64, q: u64, k: int) -> bool {
        &&& self.source@.contains_key(q)
        &&& 0 <= k < self.slots_of(q).len()
        &&& self.slots_of(q)[k].trace_fn == TraceFn::Root
        &&& self.word0(q, k) == id
    }

    /// The count of root `id`: the handles to it that were traced are those
    /// in the pointer fields that are no longer pending and those that
    /// were traced besides, as far as the root has handles; and
    /// a root that was entered in the status table when the cycle began is
    /// still entered exactly if handles are missing from its count.
    pub closed spec fn tally_ok(&self, id: u64, cur: u64, done: int) -> bool {
        let r = self.roots@[id as int]->0;
        let o = self.before@.spec_roots()[id as int]->0;
        &&& self.seen_of(id).finite()
        &&& forall|q: u64, k: int| #[trigger]
            self.seen_of(id).contains((q, k)) <==> self.handle_at(id, q, k) && !self.pending(
                q,
                k,
                cur,
                done,
            )
        &&& r.effective_traced(self.marker) == spec_least(
            r.ref_count as nat,
            self.seen_of(id).len() + self.outside(id),
        )
        &&& (self.before@.status_at(o.ptr) == Some(ObjectStatus::Rooted(id)) ==> (self.entered(id)
            <==> r.effective_traced(self.marker) < r.ref_count))
    }

    /// The counts of all roots.
    pub closed spec fn tally(&self, cur: u64, done: int) -> bool {
        forall|id: u64| root_live(self.roots@, id) ==> #[trigger] self.tally_ok(id, cur, done)
    }

    /// The invariant of a running cycle, when the pointer fields of the
    /// copy at `cur` below `done` are the ones traced of it; `cur` is zero
    /// when no copy is being traced.
    pub closed spec fn inv(&self, cur: u64, done: int) -> bool {
        self.frame(cur, done) && self.tally(cur, done)
    }

    /// The invariant of a running cycle but for the counts of the roots.
    pub closed spec fn frame(&self, cur: u64, done: int) -> bool {
        &&& self.spaces_ok()
        &&& self.roots@.len() == self.before@.spec_roots().len()
        &&& forall|i: int| 0 <= i < self.roots@.len() ==> #[trigger] self.root_ok(i)
        &&& forall|a: u64| #[trigger] self.from_status_ok(a)
        &&& forall|q: u64| #[trigger] self.to.has_object(q) <==> self.source@.contains_key(q)
        &&& forall|q: u64| self.source@.contains_key(q) ==> #[trigger] self.source_ok(q)
        &&& forall|q: u64| self.source@.contains_key(q) ==> #[trigger] self.content_ok(q)
        &&& forall|q: u64| self.source@.contains_key(q) ==> #[trigger] self.to_status_ok(q)
        &&& forall|q: u64, k: int|
            self.source@.contains_key(q) && 0 <= k < self.slots_of(q).len() ==> #[trigger] self.slot_ok(
                q,
                k,
                cur,
                done,
            )
        &&& self.gray@.no_duplicates()
        &&& forall|i: int| 0 <= i < self.gray@.len() ==> self.to.has_object(#[trigger] self.gray@[i])
        &&& !self.gray@.contains(cur)
        &&& (cur == 0 ==> done == 0)
        &&& (cur != 0 ==> self.to.has_object(cur) && 0 <= done <= self.slots_of(cur).len())
        &&& self.unmoved@.finite()
        &&& forall|a: u64|
            self.unmoved@.contains(a) <==> (self.from.has_object(a) && !is_moved(
                #[trigger] self.from.status_at(a),
            ))
        &&& self.to.limit() + self.unmoved@.len() * BLOCK_SIZE <= u64::MAX
        &&& self.to.all_objects().len() + self.unmoved@.len() == self.from.all_objects().len()
    }

    /// What is left to do: twice the objects not copied yet, and the copies
    /// not traced yet.
    pub closed spec fn work(&self) -> nat {
        2 * self.unmoved@.len() + self.gray@.len()
    }

    /// What tracing a handle to root `id` does. Where `id` names a root,
    /// that root is brought to name the copy of its object and counts one
    /// traced handle more, but no more than it has handles: a count that an
    /// earlier cycle left reads as zero, and the count is taken under the
    /// generation of this cycle. Its handles and its descriptor are kept,
    /// and so is its address if it named the copy already. The copy is
    /// entered as rooted by it afterwards exactly if its object
    /// was entered before and handles are still missing from the count.
    /// Every other root keeps its counts, its handles and its descriptor.
    /// Where `id` names no root, nothing changes.
    pub open spec fn counted(&self, old: &Evacuation, id: u64) -> bool {
        &&& self.spec_roots().len() == old.spec_roots().len()
        &&& forall|i: int|
            0 <= i < self.spec_roots().len() && i != id ==> ((#[trigger] self.spec_roots()[i]) is Some
                <==> old.spec_roots()[i] is Some) && (self.spec_roots()[i] is Some ==> {
                &&& self.spec_roots()[i]->0.traced_count == old.spec_roots()[i]->0.traced_count
                &&& self.spec_roots()[i]->0.collection_marker
                    == old.spec_roots()[i]->0.collection_marker
                &&& self.spec_roots()[i]->0.ref_count == old.spec_roots()[i]->0.ref_count
                &&& self.spec_roots()[i]->0.trace_fn == old.spec_roots()[i]->0.trace_fn
            })
        &&& if root_live(old.spec_roots(), id) {
            let was = old.spec_roots()[id as int]->0;
            let now = self.spec_roots()[id as int]->0;
            &&& root_live(self.spec_roots(), id)
            &&& now == (RootInner { ptr: now.ptr, ..was.spec_note_traced(old.spec_marker()) })
            &&& self.resolved(id)
            &&& (old.resolved(id) ==> now.ptr == was.ptr)
            &&& self.spec_to().has_object(now.ptr)
            &&& (self.spec_to().status_at(now.ptr) == Some(ObjectStatus::Rooted(id))
                <==> old.entered(id) && now.traced_count < now.ref_count)
        } else {
            &&& self.spec_roots() == old.spec_roots()
            &&& self.spec_from() == old.spec_from()
            &&& self.spec_to() == old.spec_to()
        }
    }

    /// A step that counts no handle leaves the counts of traced handles,
    /// the handles and the descriptor of every root as they are.
    pub closed spec fn counts_kept(&self, old: &Evacuation) -> bool {
        &&& self.roots@.len() == old.roots@.len()
        &&& forall|i: int|
            0 <= i < self.roots@.len() ==> ((#[trigger] self.roots@[i]) is Some
                <==> old.roots@[i] is Some) && (self.roots@[i] is Some
                ==> self.roots@[i]->0.traced_count == old.roots@[i]->0.traced_count
                && self.roots@[i]->0.collection_marker == old.roots@[i]->0.collection_marker
                && self.roots@[i]->0.ref_count == old.roots@[i]->0.ref_count
                && self.roots@[i]->0.trace_fn == old.roots@[i]->0.trace_fn)
    }

    /// What a step of the cycle keeps: objects that were copied stay copied
    /// to the same place, and the copies keep their descriptors. A root
    /// table entry changes in `ptr` and in the count of traced handles only.
    pub closed spec fn grown(&self, old: &Evacuation) -> bool {
        &&& forall|a: u64|
            is_moved(#[trigger] old.from.status_at(a)) ==> self.from.status_at(a)
                == old.from.status_at(a)
        &&& forall|x: u64| #[trigger]
            old.to.has_object(x) ==> self.to.has_object(x) && self.to.entry(x) == old.to.entry(x)
        &&& forall|x: u64| #[trigger]
            old.source@.contains_key(x) ==> self.source@.contains_key(x) && self.source@[x]
                == old.source@[x]
    }

    /// Begins a cycle on `heap`: advances the generation bit, makes the
    /// blocks of the heap the ones to evacuate, and lists the objects that
    /// a root names. The cycle is not begun when the addresses that are left
    /// might not suffice to copy every object; the heap is then handed back.
    pub fn begin(heap: Heap) -> (r: Result<(Evacuation, Vec<u64>), Heap>)
        requires
            heap.wf(),
        ensures
            r is Ok <==> heap.spec_space().limit() + heap.spec_space().all_objects().len()
                * BLOCK_SIZE <= u64::MAX,
            r matches Err(h) ==> h.same(&heap),
            r matches Ok(pair) ==> {
                &&& pair.0.inv(0, 0)
                &&& pair.0.origin() == heap
                &&& pair.0.spec_gray().len() == 0
                &&& pair.0.spec_marker() != heap.spec_marker()
                &&& pair.0.spec_to().spec_block_count() == 0
                &&& pair.0.spec_roots() == heap.spec_roots()
                &&& pair.0.outside_all() == Map::<u64, nat>::empty()
                &&& pair.0.spec_from() == heap.spec_space()
                &&& forall|a: u64| !pair.0.spec_to().has_object(a)
                &&& forall|a: u64| pair.0.spec_to().status_at(a) is None
                &&& forall|a: u64| heap.status_at(a) is Some <==> pair.1@.contains(a)
            },
    {
        let ghost h0 = heap;
        let (infos, from, roots, post, marker) = heap.dismantle();
        let list = from.object_list();
        proof {
            from.lemma_all_objects();
            from.lemma_layout();
        }
        let n: usize = from.block_count();
        let limit: u64 = from.first() + (n as u64) * BLOCK_SIZE;
        if list.len() as u64 > (u64::MAX - limit) / BLOCK_SIZE {
            return Err(Heap::assemble(infos, from, roots, post, marker));
        }
        let mut worklist: Vec<u64> = Vec::new();
        let mut i: usize = 0;
        while i < list.len()
            invariant
                i <= list@.len(),
                from.wf(),
                forall|j: int|
                    0 <= j < i && from.status_at(#[trigger] list@[j]) is Some ==> worklist@.contains(
                        list@[j],
                    ),
                forall|j: int|
                    0 <= j < worklist@.len() ==> from.status_at(#[trigger] worklist@[j]) is Some,
            decreases list@.len() - i,
        {
            let a: u64 = list[i];
            if from.status(a).is_some() {
                let ghost prev = worklist@;
                worklist.push(a);
                proof {
                    assert(worklist@[prev.len() as int] == a);
                    assert forall|j: int|
                        0 <= j < i + 1 && from.status_at(
                            #[trigger] list@[j],
                        ) is Some implies worklist@.contains(list@[j]) by {
                        if j < i {
                            let w = choose|w: int| 0 <= w < prev.len() && prev[w] == list@[j];
                            assert(worklist@[w] == list@[j]);
                        }
                    }
                }
            }
            i = i + 1;
        }
        let to = Space::new(limit, !marker);
        let ghost unmoved = list@.to_set();
        let e = Evacuation {
            infos,
            from,
            to,
            roots,
            marker: !marker,
            gray: Vec::new(),
            before: Ghost(h0),
            source: Ghost(Map::empty()),
            unmoved: Ghost(unmoved),
            seen: Ghost(Map::empty()),
            outside: Ghost(Map::empty()),
        };
        proof {
            vstd::seq_lib::seq_to_set_is_finite(list@);
            list@.unique_seq_to_set();
            assert forall|a: u64| h0.status_at(a) is Some <==> worklist@.contains(a) by {
                if h0.status_at(a) is Some {
                    from.lemma_status_object(a);
                    assert(list@.contains(a));
                }
            }
            assert forall|k: int| 0 <= k < e.roots@.len() implies #[trigger] e.root_ok(k) by {}
            assert forall|a: u64| #[trigger] e.from_status_ok(a) by {}
            assert forall|a: u64|
                e.unmoved@.contains(a) <==> (e.from.has_object(a) && !is_moved(
                    #[trigger] e.from.status_at(a),
                )) by {
                assert(list@.to_set().contains(a) <==> list@.contains(a));
            }
            assert(e.inv(0, 0));
        }
        Ok((e, worklist))
    }

    /// The generation bit of this cycle.
    pub fn marker(&self) -> (m: bool)
        ensures
            m == self.spec_marker(),
    {
        self.marker
    }

    /// The root table entry of root `id`.
    pub fn root_inner(&self, id: u64) -> (r: Option<RootInner>)
        ensures
            r == (if root_live(self.spec_roots(), id) {
                self.spec_roots()[id as int]
            } else {
                None::<RootInner>
            }),
    {
        let count: usize = self.roots.len();
        if id == 0 || id >= count as u64 {
            return None;
        }
        self.roots[id as usize]
    }

    /// The status that the blocks that are being filled record for the copy
    /// at `q`.
    pub fn copy_status(&self, q: u64) -> (r: Option<ObjectStatus>)
        requires
            self.inv(0, 0),
        ensures
            r == self.spec_to().status_at(q),
    {
        self.to.status(q)
    }

    /// At every point of a cycle a root has a handle, and has not counted
    /// more traced handles than it has handles.
    pub proof fn lemma_counts(&self, cur: u64, done: int, id: u64)
        requires
            self.inv(cur, done),
            root_live(self.spec_roots(), id),
        ensures
            self.spec_roots()[id as int]->0.ref_count > 0,
            self.spec_roots()[id as int]->0.traced_count <= self.spec_roots()[id as int]->0.ref_count,
            self.spec_roots()[id as int]->0.ref_count
                == self.origin().spec_roots()[id as int]->0.ref_count,
    {
        assert(self.root_ok(id as int));
    }

    /// At every point of a cycle a root that was entered in the status
    /// table when the cycle began is entered exactly if handles are missing
    /// from its count.
    pub proof fn lemma_entered(&self, cur: u64, done: int, id: u64)
        requires
            self.inv(cur, done),
            root_live(self.spec_roots(), id),
            self.origin().status_at(self.origin().spec_roots()[id as int]->0.ptr) == Some(
                ObjectStatus::Rooted(id),
            ),
        ensures
            self.entered(id) <==> self.spec_roots()[id as int]->0.effective_traced(
                self.spec_marker(),
            ) < self.spec_roots()[id as int]->0.ref_count,
    {
        assert(self.tally_ok(id, cur, done));
    }

    /// Objects of the two spaces have different addresses: the blocks that
    /// are filled lie behind the blocks that are evacuated.
    proof fn lemma_apart(&self, a: u64, q: u64)
        requires
            self.spaces_ok(),
            self.from.has_object(a),
            self.to.has_object(q),
        ensures
            a < q,
            a != 0,
            q != 0,
    {
        self.from.lemma_object_bounds(a);
        self.to.lemma_object_bounds(q);
        self.from.lemma_layout();
    }

    /// The descriptor of an object of `from` is registered and has the
    /// object's size.
    proof fn lemma_from_typed(&self, a: u64)
        requires
            self.spaces_ok(),
            self.from.has_object(a),
        ensures
            self.from.entry(a).info < self.infos@.len(),
            self.from.entry(a).size == self.infos@[self.from.entry(a).info as int].size,
            self.infos@[self.from.entry(a).info as int].wf(),
            self.before@.has_object(a),
            self.before@.bytes_at(a) == self.from.bytes_at(a),
            self.before@.info_at(a) == self.from.entry(a).info,
    {
        let h0 = self.before@;
        assert(h0.spec_space().has_object(a) == self.from.has_object(a));
        assert(h0.spec_space().entry(a) == self.from.entry(a));
        assert(h0.spec_space().bytes_at(a) == self.from.bytes_at(a));
    }

    /// Copies the object at `p` of `from` into `to`, leaves the forwarding
    /// status `Moved` behind, and queues the copy for tracing. Where the
    /// object was rooted, its `RootInner` is brought to name the copy and
    /// the copy is entered as rooted.
    fn evacuate(&mut self, p: u64, Ghost(cur): Ghost<u64>, Ghost(done): Ghost<int>) -> (q: u64)
        requires
            old(self).inv(cur, done),
            old(self).spec_from().has_object(p),
            !is_moved(old(self).spec_from().status_at(p)),
            old(self).origin().reaches(p),
        ensures
            final(self).inv(cur, done),
            final(self).origin() == old(self).origin(),
            final(self).outside_all() == old(self).outside_all(),
            final(self).spec_marker() == old(self).spec_marker(),
            final(self).spec_from().status_at(p) == Some(ObjectStatus::Moved(q)),
            final(self).spec_gray() == old(self).spec_gray().push(q),
            final(self).work() + 1 == old(self).work(),
            final(self).grown(old(self)),
            final(self).counts_kept(old(self)),
            final(self).spec_to().status_at(q) == old(self).spec_from().status_at(p),
    {
        let ghost pre = *self;
        let count: usize = self.roots.len();
        let entry = self.from.lookup(p).unwrap();
        let status = self.from.status(p);
        let bytes = self.from.read(p);
        proof {
            self.lemma_from_typed(p);
            self.from.lemma_object_bounds(p);
            self.to.lemma_layout();
        }
        let align: usize = self.infos[entry.info].align;
        proof {
            assert(self.from_status_ok(p));
            assert(self.unmoved@.contains(p));
            assert(self.unmoved@.len() >= 1) by {
                if self.unmoved@.len() == 0 {
                    assert(self.unmoved@ =~= Set::<u64>::empty());
                }
            }
            assert(self.to.limit() % (BLOCK_SIZE as int) == 0) by {
                assert(self.to.limit() == self.to.spec_first() + self.to.spec_block_count()
                    * BLOCK_SIZE);
            }
            lemma_fresh_fits(self.to.limit(), entry.size, align);
        }
        let q: u64 = match self.to.allocate(entry.size, align, entry.info, &bytes) {
            Ok(q) => q,
            Err(_) => {
                proof {
                    assert(false);
                }
                p
            },
        };
        let ghost mid_to = self.to;
        self.from.set_status(p, ObjectStatus::Moved(q));
        self.gray.push(q);
        self.source = Ghost(self.source@.insert(q, p));
        self.unmoved = Ghost(self.unmoved@.remove(p));
        match status {
            Some(ObjectStatus::Rooted(id)) => {
                proof {
                    assert(pre.from.status_at(p) == Some(ObjectStatus::Rooted(id)));
                    assert(root_live(pre.roots@, id));
                    assert(self.roots@ == pre.roots@);
                    assert(id < count);
                }
                let inner = self.roots[id as usize].unwrap();
                self.roots[id as usize] = Some(RootInner { ptr: q, ..inner });
                self.to.set_status(q, ObjectStatus::Rooted(id));
            },
            _ => {},
        }
        proof {
            pre.from.lemma_object_bounds(p);
            self.to.lemma_object_bounds(q);
            pre.to.lemma_layout();
            assert(p < q && q != 0 && p != 0);
            assert(!pre.source@.contains_key(q)) by {
                assert(pre.to.has_object(q) <==> pre.source@.contains_key(q));
            }
            // the spaces
            assert(self.from.same_objects(&self.before@.spec_space())) by {
                assert(self.from.same_objects(&pre.from));
                assert forall|a: u64| #[trigger]
                    self.from.has_object(a) == self.before@.spec_space().has_object(a) by {
                    assert(pre.from.has_object(a) == self.before@.spec_space().has_object(a));
                }
                assert forall|a: u64| #[trigger]
                    self.from.entry(a) == self.before@.spec_space().entry(a) by {
                    assert(pre.from.entry(a) == self.before@.spec_space().entry(a));
                }
                assert forall|a: u64| #[trigger]
                    self.from.bytes_at(a) == self.before@.spec_space().bytes_at(a) by {
                    assert(pre.from.bytes_at(a) == self.before@.spec_space().bytes_at(a));
                }
                assert forall|size: usize, align: usize| #[trigger]
                    self.from.last_fits(size, align) == self.before@.spec_space().last_fits(
                        size,
                        align,
                    ) by {
                    assert(pre.from.last_fits(size, align) == self.before@.spec_space().last_fits(
                        size,
                        align,
                    ));
                }
            }
            assert forall|x: u64| #[trigger] self.to.has_object(x) <==> pre.to.has_object(x) || x
                == q by {
                assert(mid_to.has_object(x) <==> pre.to.has_object(x) || x == q);
                assert(self.to.has_object(x) == mid_to.has_object(x));
            }
            assert forall|x: u64| pre.to.has_object(x) implies #[trigger] self.to.entry(x)
                == pre.to.entry(x) && self.to.bytes_at(x) == pre.to.bytes_at(x) && self.slots_of(x)
                == pre.slots_of(x) by {
                assert(mid_to.entry(x) == pre.to.entry(x));
                assert(mid_to.bytes_at(x) == pre.to.bytes_at(x));
                assert(self.to.entry(x) == mid_to.entry(x));
                assert(self.to.bytes_at(x) == mid_to.bytes_at(x));
            }
            assert(self.to.entry(q) == entry && self.to.bytes_at(q) == bytes@) by {
                assert(self.to.entry(q) == mid_to.entry(q));
                assert(self.to.bytes_at(q) == mid_to.bytes_at(q));
            }
            assert forall|x: u64| #[trigger] self.from.status_at(x) == (if x == p {
                Some(ObjectStatus::Moved(q))
            } else {
                pre.from.status_at(x)
            }) by {}
            assert forall|x: u64| #[trigger] self.to.status_at(x) == (if x == q {
                match status {
                    Some(ObjectStatus::Rooted(id)) => Some(ObjectStatus::Rooted(id)),
                    _ => None,
                }
            } else {
                pre.to.status_at(x)
            }) by {
                assert(mid_to.status_at(x) == pre.to.status_at(x));
                if x == q && pre.to.status_at(q) is Some {
                    pre.to.lemma_status_object(q);
                }
            }
            assert(typed(self.infos@, &self.to)) by {
                assert forall|a: u64| #[trigger] self.to.has_object(a) implies self.to.entry(a).info
                    < self.infos@.len() && self.to.entry(a).size
                    == self.infos@[self.to.entry(a).info as int].size by {
                    if a != q {
                        assert(pre.to.has_object(a));
                    }
                }
            }
            assert(statuses_rooted(&self.to, self.roots@)) by {
                assert forall|a: u64| (#[trigger] self.to.status_at(a)) is Some implies (
                self.to.status_at(a)->0 matches ObjectStatus::Rooted(id) && root_live(
                    self.roots@,
                    id,
                ) && self.roots@[id as int]->0.ptr == a) by {
                    assert(pre.from_status_ok(p));
                    assert(statuses_rooted(&pre.to, pre.roots@));
                    if a != q {
                        assert(pre.to.status_at(a) is Some);
                        pre.to.lemma_status_object(a);
                        let id = pre.to.status_at(a)->0->Rooted_0;
                        assert(pre.to.status_at(a) == Some(ObjectStatus::Rooted(id)));
                        assert(root_live(pre.roots@, id) && pre.roots@[id as int]->0.ptr == a);
                        if status == Some(ObjectStatus::Rooted(id)) {
                            pre.lemma_apart(p, a);
                        } else {
                            assert(self.roots@[id as int] == pre.roots@[id as int]);
                        }
                    } else {
                        assert(status is Some);
                        let id = status->0->Rooted_0;
                        assert(status == Some(ObjectStatus::Rooted(id)));
                        assert(self.roots@[id as int]->0.ptr == q);
                    }
                }
            }
            assert(self.spaces_ok());
            // the roots
            assert forall|i: int| 0 <= i < self.roots@.len() implies #[trigger] self.root_ok(i) by {
                assert(pre.root_ok(i));
                assert(pre.from_status_ok(p));
                if pre.roots@[i] is Some {
                    let o = self.before@.spec_roots()[i]->0;
                    let r = pre.roots@[i]->0;
                    if status == Some(ObjectStatus::Rooted(i as u64)) {
                        assert(r.ptr == p);
                        if r.ptr != o.ptr {
                            assert(pre.from_status_ok(o.ptr));
                            assert(pre.to.has_object(p));
                            pre.lemma_apart(p, p);
                        }
                        assert(self.roots@[i]->0.ptr == q);
                        assert(self.to.status_at(q) == Some(ObjectStatus::Rooted(i as u64)));
                    } else {
                        assert(self.roots@[i] == pre.roots@[i]);
                        assert(self.from.status_at(r.ptr) == pre.from.status_at(r.ptr)
                            || pre.from.status_at(r.ptr) == status);
                        if pre.to.status_at(r.ptr) is Some {
                            pre.to.lemma_status_object(r.ptr);
                            assert(self.to.status_at(r.ptr) == pre.to.status_at(r.ptr));
                        }
                    }
                }
            }
            // the statuses of `from`
            assert forall|a: u64| #[trigger] self.from_status_ok(a) by {
                assert(pre.from_status_ok(a));
                assert(pre.from_status_ok(p));
                if a != p {
                    match pre.from.status_at(a) {
                        Some(ObjectStatus::Moved(x)) => {
                            assert(x != q);
                        },
                        Some(ObjectStatus::Rooted(id)) => {},
                        _ => {},
                    }
                }
            }
            assert forall|x: u64| self.source@.contains_key(x) implies #[trigger] self.source_ok(
                x,
            ) by {
                if x != q {
                    assert(pre.source_ok(x));
                    assert(pre.to.has_object(x));
                }
            }
            assert forall|x: u64| self.source@.contains_key(x) implies #[trigger] self.content_ok(
                x,
            ) by {
                if x != q {
                    assert(pre.content_ok(x));
                    assert(pre.source_ok(x));
                    assert(pre.to.has_object(x));
                }
            }
            assert forall|x: u64| self.source@.contains_key(x) implies #[trigger] self.to_status_ok(
                x,
            ) by {
                assert(pre.from_status_ok(p));
                if x != q {
                    assert(pre.to_status_ok(x));
                }
            }
            assert forall|x: u64, k: int|
                self.source@.contains_key(x) && 0 <= k < self.slots_of(x).len() implies #[trigger] self.slot_ok(
                x,
                k,
                cur,
                done,
            ) by {
                if x != q {
                    assert(pre.to.has_object(x));
                    assert(pre.slot_ok(x, k, cur, done));
                    assert(pre.source_ok(x));
                    assert(self.pending(x, k, cur, done) == pre.pending(x, k, cur, done)) by {
                        if pre.gray@.contains(x) {
                            let i = choose|i: int| 0 <= i < pre.gray@.len() && pre.gray@[i] == x;
                            assert(self.gray@[i] == x);
                        }
                        if self.gray@.contains(x) {
                            let i = choose|i: int| 0 <= i < self.gray@.len() && self.gray@[i] == x;
                            assert(pre.gray@[i] == x);
                        }
                    }
                    assert(self.word0(x, k) == pre.word0(x, k));
                    assert(self.word1(x, k) == pre.word1(x, k));
                    if !pre.pending(x, k, cur, done) {
                        assert(pre.fixed(x, k));
                        if self.slots_of(x)[k].trace_fn == TraceFn::Root {
                            let id0 = self.word0(x, k);
                            if root_live(self.roots@, id0) {
                                assert(pre.resolved(id0));
                                if status == Some(ObjectStatus::Rooted(id0)) {
                                    assert(pre.from_status_ok(p));
                                    let hp = self.before@.spec_roots()[id0 as int]->0.ptr;
                                    assert(pre.from_status_ok(hp));
                                    assert(pre.to.has_object(p));
                                    pre.lemma_apart(p, p);
                                }
                            }
                        }
                    }
                } else {
                    assert(self.gray@[pre.gray@.len() as int] == q);
                    assert(self.gray@.contains(q));
                }
            }
            // the queue
            assert(self.gray@.no_duplicates()) by {
                assert forall|i: int, j: int|
                    0 <= i < self.gray@.len() && 0 <= j < self.gray@.len() && i
                        != j implies self.gray@[i] != self.gray@[j] by {
                    if i < pre.gray@.len() {
                        assert(pre.to.has_object(pre.gray@[i]));
                    }
                    if j < pre.gray@.len() {
                        assert(pre.to.has_object(pre.gray@[j]));
                    }
                }
            }
            assert forall|i: int| 0 <= i < self.gray@.len() implies self.to.has_object(
                #[trigger] self.gray@[i],
            ) by {
                if i < pre.gray@.len() {
                    assert(pre.to.has_object(pre.gray@[i]));
                }
            }
            assert(!self.gray@.contains(cur)) by {
                if self.gray@.contains(cur) {
                    let i = choose|i: int| 0 <= i < self.gray@.len() && self.gray@[i] == cur;
                    if i < pre.gray@.len() {
                        assert(pre.gray@[i] == cur);
                        assert(pre.gray@.contains(cur));
                    } else {
                        assert(cur == q);
                        assert(pre.to.has_object(cur));
                    }
                }
            }
            if cur != 0 {
                assert(pre.to.has_object(cur));
                assert(self.slots_of(cur) == pre.slots_of(cur));
            }
            // the count of what is left
            assert(self.to.limit() <= pre.to.limit() + BLOCK_SIZE);
            assert(self.unmoved@.len() + 1 == pre.unmoved@.len());
            assert(self.to.limit() + self.unmoved@.len() * BLOCK_SIZE <= u64::MAX) by (nonlinear_arith)
                requires
                    self.to.limit() <= pre.to.limit() + BLOCK_SIZE,
                    self.unmoved@.len() + 1 == pre.unmoved@.len(),
                    pre.to.limit() + pre.unmoved@.len() * BLOCK_SIZE <= u64::MAX,
            ;
            assert(self.frame(cur, done));
            assert forall|id: u64| root_live(pre.roots@, id) implies #[trigger] self.entered(id)
                == pre.entered(id) by {
                let x = pre.roots@[id as int]->0.ptr;
                assert(pre.from_status_ok(p));
                if status == Some(ObjectStatus::Rooted(id)) {
                    assert(self.roots@[id as int]->0.ptr == q);
                    assert(self.to.status_at(q) == Some(ObjectStatus::Rooted(id)));
                } else {
                    assert(self.roots@[id as int] == pre.roots@[id as int]);
                    assert(self.from.status_at(x) == (if x == p {
                        Some(ObjectStatus::Moved(q))
                    } else {
                        pre.from.status_at(x)
                    }));
                    if x == q {
                        if pre.to.status_at(q) is Some {
                            pre.to.lemma_status_object(q);
                        }
                        assert(self.to.status_at(q) != Some(ObjectStatus::Rooted(id)));
                    } else {
                        assert(self.to.status_at(x) == pre.to.status_at(x));
                    }
                }
            }
            assert forall|x: u64, k: int| pre.source@.contains_key(x) implies #[trigger] self.pending(
                x,
                k,
                cur,
                done,
            ) == pre.pending(x, k, cur, done) by {
                assert(x != q);
                if self.gray@.contains(x) {
                    let i = choose|i: int| 0 <= i < self.gray@.len() && self.gray@[i] == x;
                    assert(pre.gray@[i] == x);
                }
                if pre.gray@.contains(x) {
                    let i = choose|i: int| 0 <= i < pre.gray@.len() && pre.gray@[i] == x;
                    assert(self.gray@[i] == x);
                }
            }
            assert forall|x: u64|
                self.source@.contains_key(x) && !pre.source@.contains_key(
                    x,
                ) implies #[trigger] self.gray@.contains(x) by {
                assert(x == q);
                assert(self.gray@[pre.gray@.len() as int] == q);
            }
            self.lemma_tally_kept(&pre, cur, done, cur, done);
        }
        q
    }

    /// `grown` goes through a chain of steps.
    proof fn lemma_grown_trans(&self, mid: &Evacuation, old: &Evacuation)
        requires
            self.grown(mid),
            mid.grown(old),
        ensures
            self.grown(old),
    {
        assert forall|a: u64| is_moved(#[trigger] old.from.status_at(a)) implies self.from.status_at(
            a,
        ) == old.from.status_at(a) by {
            assert(mid.from.status_at(a) == old.from.status_at(a));
        }
        assert forall|x: u64| #[trigger] old.to.has_object(x) implies self.to.has_object(x)
            && self.to.entry(x) == old.to.entry(x) by {
            assert(mid.to.has_object(x));
        }
    }

    /// The address of the copy of the object at `p` of `from`; the object is
    /// copied now if it was not copied before.
    fn forward(&mut self, p: u64, Ghost(cur): Ghost<u64>, Ghost(done): Ghost<int>) -> (q: u64)
        requires
            old(self).inv(cur, done),
            old(self).spec_from().has_object(p),
            old(self).origin().reaches(p),
        ensures
            final(self).inv(cur, done),
            final(self).origin() == old(self).origin(),
            final(self).outside_all() == old(self).outside_all(),
            final(self).spec_marker() == old(self).spec_marker(),
            final(self).spec_from().status_at(p) == Some(ObjectStatus::Moved(q)),
            final(self).work() <= old(self).work(),
            final(self).grown(old(self)),
            final(self).counts_kept(old(self)),
            is_moved(old(self).spec_from().status_at(p)) ==> final(self).spec_roots() == old(self).spec_roots() && final(self).spec_from() == old(self).spec_from() && final(self).spec_to() == old(self).spec_to(),
            !is_moved(old(self).spec_from().status_at(p)) ==> final(self).spec_to().status_at(q)
                == old(self).spec_from().status_at(p),
    {
        match self.from.status(p) {
            Some(ObjectStatus::Moved(q)) => q,
            _ => self.evacuate(p, Ghost(cur), Ghost(done)),
        }
    }

    /// Stores the address `n` of the copy of its target into the managed
    /// pointer that is field `k` of the copy at `q`.
    fn rewrite(&mut self, q: u64, k: usize, n: u64)
        requires
            old(self).inv(q, k as int),
            q != 0,
            k < old(self).slots_of(q).len(),
            old(self).slots_of(q)[k as int].trace_fn == TraceFn::Gc,
            old(self).word0(q, k as int) != 0,
            old(self).spec_from().status_at(old(self).word0(q, k as int)) == Some(
                ObjectStatus::Moved(n),
            ),
        ensures
            final(self).inv(q, k + 1),
            final(self).origin() == old(self).origin(),
            final(self).outside_all() == old(self).outside_all(),
            final(self).spec_marker() == old(self).spec_marker(),
            final(self).work() == old(self).work(),
            final(self).grown(old(self)),
    {
        let ghost pre = *self;
        let entry = self.to.lookup(q).unwrap();
        proof {
            assert(self.source@.contains_key(q));
            assert(self.source_ok(q));
            assert(self.infos@[entry.info as int].wf());
            self.to.lemma_object_bounds(q);
        }
        let off: usize = self.infos[entry.info].slots[k].offset;
        self.to.write_word(q, off, n);
        proof {
            let slots = pre.slots_of(q);
            let b = pre.to.bytes_at(q);
            assert(slots_fit(slots, b.len() as int));
            lemma_word_stored(b, off as int, n);
            assert forall|x: u64| self.source@.contains_key(x) implies self.slots_of(x)
                == pre.slots_of(x) && self.to.entry(x) == pre.to.entry(x) && self.to.has_object(
                x,
            ) by {
                assert(pre.to.has_object(x));
                assert(self.to.has_object(x) == pre.to.has_object(x));
                assert(self.to.entry(x) == pre.to.entry(x));
            }
            assert forall|x: u64| self.source@.contains_key(x) && x != q implies self.to.bytes_at(x)
                == pre.to.bytes_at(x) by {
                assert(pre.to.has_object(x));
            }
            assert(typed(self.infos@, &self.to)) by {
                assert forall|a: u64| #[trigger] self.to.has_object(a) implies self.to.entry(a).info
                    < self.infos@.len() && self.to.entry(a).size
                    == self.infos@[self.to.entry(a).info as int].size by {
                    assert(pre.to.has_object(a) == self.to.has_object(a));
                    assert(self.to.entry(a) == pre.to.entry(a));
                }
            }
            assert(statuses_rooted(&self.to, self.roots@)) by {
                crate::heap::lemma_statuses_same(&self.to, &pre.to, self.roots@);
            }
            assert(self.spaces_ok());
            assert forall|i: int| 0 <= i < self.roots@.len() implies #[trigger] self.root_ok(i) by {
                assert(pre.root_ok(i));
            }
            assert forall|a: u64| #[trigger] self.from_status_ok(a) by {
                assert(pre.from_status_ok(a));
            }
            assert forall|x: u64| #[trigger] self.to.has_object(x) <==> self.source@.contains_key(
                x,
            ) by {
                assert(self.to.has_object(x) == pre.to.has_object(x));
            }
            assert forall|x: u64| self.source@.contains_key(x) implies #[trigger] self.source_ok(
                x,
            ) by {
                assert(pre.source_ok(x));
            }
            assert forall|x: u64| self.source@.contains_key(x) implies #[trigger] self.to_status_ok(
                x,
            ) by {
                assert(pre.to_status_ok(x));
                assert(self.to.status_at(x) == pre.to.status_at(x));
            }
            assert forall|x: u64| self.source@.contains_key(x) implies #[trigger] self.content_ok(
                x,
            ) by {
                assert(pre.content_ok(x));
                if x == q {
                    let b0 = self.from.bytes_at(self.source@[q]);
                    let b1 = self.to.bytes_at(q);
                    assert forall|i: int|
                        0 <= i < b0.len() && !gc_covered(
                            self.slots_of(q),
                            i,
                        ) implies #[trigger] b1[i] == b0[i] by {
                        pre.from.lemma_status_object(pre.source@[q]);
                        pre.from.lemma_object_bounds(pre.source@[q]);
                        assert(slots[k as int].trace_fn == TraceFn::Gc);
                        if off <= i < off + 8 {
                            assert(gc_covered(slots, i));
                        }
                        lemma_splice_bytes(b, off as int, n, i);
                        assert(b[i] == b0[i]);
                    }
                }
            }
            assert forall|x: u64, j: int|
                self.source@.contains_key(x) && 0 <= j < self.slots_of(x).len() implies #[trigger] self.slot_ok(
                x,
                j,
                q,
                k + 1,
            ) by {
                assert(pre.slot_ok(x, j, q, k as int));
                assert(self.word0(x, j) == pre.word0(x, j));
                if x != q {
                    assert(self.word1(x, j) == pre.word1(x, j));
                    assert(self.pending(x, j, q, k + 1) == pre.pending(x, j, q, k as int));
                } else {
                    if j == k {
                        assert(self.word1(q, j) == n);
                        assert(!self.pending(q, j, q, k + 1));
                    } else {
                        assert(slots[j].offset + 8 <= b.len());
                        if j < k {
                            assert(slots[j].offset + 8 <= slots[k as int].offset);
                        } else {
                            assert(slots[k as int].offset + 8 <= slots[j].offset);
                        }
                        lemma_word_kept(b, off as int, n, slots[j].offset as int);
                        assert(self.word1(q, j) == pre.word1(q, j));
                        assert(self.pending(x, j, q, k + 1) == pre.pending(x, j, q, k as int));
                    }
                }
            }
            assert forall|i: int| 0 <= i < self.gray@.len() implies self.to.has_object(
                #[trigger] self.gray@[i],
            ) by {
                assert(pre.to.has_object(pre.gray@[i]));
            }
            assert(self.to.limit() == pre.to.limit());
            assert(self.frame(q, k + 1));
            assert forall|id: u64| root_live(pre.roots@, id) implies #[trigger] self.entered(id)
                == pre.entered(id) by {
                let x = pre.roots@[id as int]->0.ptr;
                assert(self.to.status_at(x) == pre.to.status_at(x));
            }
            self.lemma_tally_kept(&pre, q, k + 1, q, k as int);
        }
    }

    /// A step that copies nothing keeps the invariant: it leaves the objects
    /// of both spaces, the forwarding statuses, the queue and the
    /// descriptors as they are, and what it changes of the other statuses
    /// and of the roots is in order.
    proof fn lemma_frame(&self, pre: &Evacuation, cur: u64, done: int)
        requires
            pre.frame(cur, done),
            self.before@ == pre.before@,
            self.infos@ == pre.infos@,
            self.marker == pre.marker,
            self.gray@ == pre.gray@,
            self.source@ == pre.source@,
            self.unmoved@ == pre.unmoved@,
            self.from.wf(),
            self.from.same_objects(&pre.from),
            forall|a: u64|
                is_moved(#[trigger] pre.from.status_at(a)) || is_moved(self.from.status_at(a))
                    ==> self.from.status_at(a) == pre.from.status_at(a),
            forall|a: u64| #[trigger] self.from_status_ok(a),
            self.to.wf(),
            self.to.same_objects(&pre.to),
            statuses_rooted(&self.to, self.roots@),
            forall|q: u64|
                (#[trigger] self.to.status_at(q)) is Some ==> self.to.status_at(q)
                    == pre.to.status_at(q),
            self.roots@.len() == pre.roots@.len(),
            forall|i: int| 0 <= i < self.roots@.len() ==> #[trigger] self.root_ok(i),
            forall|i: u64| #[trigger] root_live(self.roots@, i) == root_live(pre.roots@, i),
            forall|i: u64|
                root_live(pre.roots@, i) && #[trigger] pre.resolved(i) ==> self.resolved(i),
        ensures
            self.frame(cur, done),
            self.grown(pre),
            self.work() == pre.work(),
    {
        assert(self.from.same_objects(&self.before@.spec_space())) by {
            assert forall|a: u64| #[trigger]
                self.from.has_object(a) == self.before@.spec_space().has_object(a) by {
                assert(pre.from.has_object(a) == self.before@.spec_space().has_object(a));
            }
            assert forall|a: u64| #[trigger]
                self.from.entry(a) == self.before@.spec_space().entry(a) by {
                assert(pre.from.entry(a) == self.before@.spec_space().entry(a));
            }
            assert forall|a: u64| #[trigger]
                self.from.bytes_at(a) == self.before@.spec_space().bytes_at(a) by {
                assert(pre.from.bytes_at(a) == self.before@.spec_space().bytes_at(a));
            }
            assert forall|size: usize, align: usize| #[trigger]
                self.from.last_fits(size, align) == self.before@.spec_space().last_fits(
                    size,
                    align,
                ) by {
                assert(pre.from.last_fits(size, align) == self.before@.spec_space().last_fits(
                    size,
                    align,
                ));
            }
        }
        assert forall|x: u64| #[trigger] self.to.has_object(x) == pre.to.has_object(x) by {}
        assert forall|x: u64|
            #![trigger self.to.entry(x)]
            #![trigger self.slots_of(x)]
            self.to.entry(x) == pre.to.entry(x) && self.slots_of(x) == pre.slots_of(x) by {}
        assert(typed(self.infos@, &self.to)) by {
            assert forall|a: u64| #[trigger] self.to.has_object(a) implies self.to.entry(a).info
                < self.infos@.len() && self.to.entry(a).size
                == self.infos@[self.to.entry(a).info as int].size by {
                assert(pre.to.has_object(a));
                assert(self.to.entry(a) == pre.to.entry(a));
            }
        }
        assert(self.spaces_ok());
        assert forall|q: u64| #[trigger] self.to.has_object(q) <==> self.source@.contains_key(q) by {
            assert(pre.to.has_object(q) <==> pre.source@.contains_key(q));
        }
        assert forall|q: u64| self.source@.contains_key(q) implies #[trigger] self.source_ok(q) by {
            assert(pre.source_ok(q));
            assert(self.from.entry(self.source@[q]) == pre.from.entry(self.source@[q]));
        }
        assert forall|q: u64| self.source@.contains_key(q) implies #[trigger] self.content_ok(
            q,
        ) by {
            assert(pre.content_ok(q));
            assert(self.to.bytes_at(q) == pre.to.bytes_at(q));
            assert(self.from.bytes_at(self.source@[q]) == pre.from.bytes_at(self.source@[q]));
        }
        assert forall|q: u64| self.source@.contains_key(q) implies #[trigger] self.to_status_ok(
            q,
        ) by {
            assert(pre.to_status_ok(q));
        }
        assert forall|q: u64, k: int|
            self.source@.contains_key(q) && 0 <= k < self.slots_of(q).len() implies #[trigger] self.slot_ok(
            q,
            k,
            cur,
            done,
        ) by {
            assert(pre.slot_ok(q, k, cur, done));
            assert(self.to.bytes_at(q) == pre.to.bytes_at(q));
            assert(self.from.bytes_at(self.source@[q]) == pre.from.bytes_at(self.source@[q]));
            assert(self.word0(q, k) == pre.word0(q, k));
            assert(self.word1(q, k) == pre.word1(q, k));
            assert(self.pending(q, k, cur, done) == pre.pending(q, k, cur, done));
            if !pre.pending(q, k, cur, done) {
                let v = pre.word0(q, k);
                if self.slots_of(q)[k].trace_fn == TraceFn::Root {
                    if root_live(self.roots@, v) {
                        assert(root_live(pre.roots@, v));
                        assert(pre.resolved(v));
                    }
                } else {
                    if v != 0 {
                        assert(is_moved(pre.from.status_at(v)));
                    }
                }
            }
        }
        assert forall|i: int| 0 <= i < self.gray@.len() implies self.to.has_object(
            #[trigger] self.gray@[i],
        ) by {
            assert(pre.to.has_object(pre.gray@[i]));
        }
        assert forall|a: u64|
            self.unmoved@.contains(a) <==> (self.from.has_object(a) && !is_moved(
                #[trigger] self.from.status_at(a),
            )) by {
            assert(pre.unmoved@.contains(a) <==> (pre.from.has_object(a) && !is_moved(
                pre.from.status_at(a),
            )));
            assert(self.from.has_object(a) == pre.from.has_object(a));
        }
        assert(self.to.limit() == pre.to.limit());
        if cur != 0 {
            assert(self.slots_of(cur) == pre.slots_of(cur));
        }
    }

    /// Counts a traced handle to root `id`, which names the copy of its
    /// object, and demotes the root when every handle to it has been
    /// counted: where the copy is entered as rooted by it, the entry is
    /// removed, and the object is then kept alive by the pointers that reach
    /// it only. The handle was found in pointer field `done` of the copy at
    /// `cur`, which then counts as traced, or it is counted besides the
    /// handles in the pointer fields.
    fn count_handle(
        &mut self,
        id: usize,
        Ghost(cur): Ghost<u64>,
        Ghost(done): Ghost<int>,
        Ghost(found): Ghost<bool>,
    )
        requires
            old(self).inv(cur, done),
            root_live(old(self).spec_roots(), id as u64),
            old(self).resolved(id as u64),
            found ==> cur != 0 && 0 <= done < old(self).slots_of(cur).len() && old(self).slots_of(
                cur,
            )[done].trace_fn == TraceFn::Root && old(self).word0(cur, done) == id,
        ensures
            final(self).inv(
                cur,
                if found {
                    done + 1
                } else {
                    done
                },
            ),
            final(self).origin() == old(self).origin(),
            final(self).spec_marker() == old(self).spec_marker(),
            final(self).work() == old(self).work(),
            final(self).grown(old(self)),
            final(self).spec_roots() == old(self).spec_roots().update(
                id as int,
                Some(old(self).spec_roots()[id as int]->0.spec_note_traced(old(self).spec_marker())),
            ),
            final(self).resolved(id as u64),
            final(self).spec_from() == old(self).spec_from(),
            forall|a: u64| final(self).spec_to().has_object(a) == old(self).spec_to().has_object(a),
            final(self).spec_to().status_at(old(self).spec_roots()[id as int]->0.ptr) == Some(
                ObjectStatus::Rooted(id as u64),
            ) <==> old(self).spec_to().status_at(old(self).spec_roots()[id as int]->0.ptr) == Some(
                ObjectStatus::Rooted(id as u64),
            ) && final(self).spec_roots()[id as int]->0.traced_count < final(self).spec_roots()[id as int]->0.ref_count,
            final(self).outside_all() == (if found {
                old(self).outside_all()
            } else {
                old(self).outside_all().insert(id as u64, old(self).outside(id as u64) + 1)
            }),
    {
        let ghost pre = *self;
        let count: usize = self.roots.len();
        let mut inner = self.roots[id].unwrap();
        let all = inner.note_traced(self.marker);
        self.roots[id] = Some(inner);
        let p: u64 = inner.ptr;
        if all {
            let in_to: bool = match self.to.status(p) {
                Some(ObjectStatus::Rooted(x)) => x == id as u64,
                _ => false,
            };
            if in_to {
                self.to.clear_status(p);
            }
        }
        self.seen = Ghost(
            if found {
                self.seen@.insert(id as u64, pre.seen_of(id as u64).insert((cur, done)))
            } else {
                self.seen@
            },
        );
        self.outside = Ghost(
            if found {
                self.outside@
            } else {
                self.outside@.insert(id as u64, pre.outside(id as u64) + 1)
            },
        );
        proof {
            let next = if found {
                done + 1
            } else {
                done
            };
            assert(pre.root_ok(id as int));
            assert forall|a: u64| #[trigger] self.from_status_ok(a) by {
                assert(pre.from_status_ok(a));
            }
            assert(statuses_rooted(&self.to, self.roots@)) by {
                assert forall|a: u64| (#[trigger] self.to.status_at(a)) is Some implies (
                self.to.status_at(a)->0 matches ObjectStatus::Rooted(i) && root_live(self.roots@, i)
                    && self.roots@[i as int]->0.ptr == a) by {
                    assert(statuses_rooted(&pre.to, pre.roots@));
                    assert(self.to.status_at(a) == pre.to.status_at(a));
                }
            }
            assert forall|i: int| 0 <= i < self.roots@.len() implies #[trigger] self.root_ok(i) by {
                assert(pre.root_ok(i));
                if pre.roots@[i] is Some && i != id {
                    let r = pre.roots@[i]->0;
                    assert(i < count);
                    if pre.to.status_at(r.ptr) == Some(ObjectStatus::Rooted(i as u64)) {
                        assert(i as u64 != id as u64);
                        assert(self.to.status_at(r.ptr) == pre.to.status_at(r.ptr));
                    }
                }
            }
            assert forall|i: u64| #[trigger] root_live(self.roots@, i) == root_live(
                pre.roots@,
                i,
            ) by {}
            assert forall|i: u64| root_live(pre.roots@, i) && #[trigger] pre.resolved(
                i,
            ) implies self.resolved(i) by {}
            self.lemma_frame(&pre, cur, done);
            if found {
                assert(pre.slot_ok(cur, done, cur, done));
                assert(self.slot_ok(cur, done, cur, done));
                assert(self.fixed(cur, done));
                self.lemma_advance_frame(cur, done);
            }
            self.lemma_counted(&pre, id as u64, p, cur, done, found);
        }
    }

    /// The counts are in order after a handle to root `id` was counted.
    proof fn lemma_counted(&self, pre: &Evacuation, id: u64, p: u64, cur: u64, done: int, found: bool)
        requires
            pre.inv(cur, done),
            self.frame(
                cur,
                if found {
                    done + 1
                } else {
                    done
                },
            ),
            self.grown(pre),
            self.before@ == pre.before@,
            self.marker == pre.marker,
            self.gray@ == pre.gray@,
            self.source@ == pre.source@,
            self.from == pre.from,
            root_live(pre.roots@, id),
            pre.resolved(id),
            p == pre.roots@[id as int]->0.ptr,
            self.roots@ == pre.roots@.update(
                id as int,
                Some(pre.roots@[id as int]->0.spec_note_traced(pre.marker)),
            ),
            forall|a: u64| a != p ==> #[trigger] self.to.status_at(a) == pre.to.status_at(a),
            self.to.status_at(p) == (if self.roots@[id as int]->0.traced_count
                == self.roots@[id as int]->0.ref_count && pre.to.status_at(p) == Some(
                ObjectStatus::Rooted(id),
            ) {
                Option::<ObjectStatus>::None
            } else {
                pre.to.status_at(p)
            }),
            found ==> cur != 0 && 0 <= done < pre.slots_of(cur).len() && pre.slots_of(
                cur,
            )[done].trace_fn == TraceFn::Root && pre.word0(cur, done) == id,
            self.seen@ == (if found {
                pre.seen@.insert(id, pre.seen_of(id).insert((cur, done)))
            } else {
                pre.seen@
            }),
            self.outside@ == (if found {
                pre.outside@
            } else {
                pre.outside@.insert(id, pre.outside(id) + 1)
            }),
        ensures
            self.tally(
                cur,
                if found {
                    done + 1
                } else {
                    done
                },
            ),
    {
        let next = if found {
            done + 1
        } else {
            done
        };
        assert forall|j: u64| root_live(self.roots@, j) implies #[trigger] self.tally_ok(
            j,
            cur,
            next,
        ) by {
            assert(root_live(pre.roots@, j));
            assert(pre.tally_ok(j, cur, done));
            assert(pre.root_ok(j as int));
            assert(pre.root_ok(id as int));
            assert(statuses_rooted(&pre.to, pre.roots@));
            assert forall|q: u64, k: int| #[trigger]
                self.seen_of(j).contains((q, k)) <==> self.handle_at(j, q, k) && !self.pending(
                    q,
                    k,
                    cur,
                    next,
                ) by {
                if pre.source@.contains_key(q) {
                    self.lemma_stable(pre, q, k, cur, next, cur, done);
                }
            }
            if j == id {
                assert(!pre.seen_of(id).contains((cur, done)));
                // the copy that the root names is no object of the blocks
                // that are evacuated
                assert(pre.from_status_ok(pre.before@.spec_roots()[id as int]->0.ptr));
                assert(pre.to.has_object(p));
                if pre.from.status_at(p) is Some {
                    pre.from.lemma_status_object(p);
                    pre.lemma_apart(p, p);
                }
            } else {
                assert(self.seen_of(j) == pre.seen_of(j));
                assert(self.outside(j) == pre.outside(j));
                assert(self.roots@[j as int] == pre.roots@[j as int]);
                let x = pre.roots@[j as int]->0.ptr;
                assert(self.to.status_at(x) == Some(ObjectStatus::Rooted(j)) <==> pre.to.status_at(x)
                    == Some(ObjectStatus::Rooted(j)));
                assert(self.entered(j) == pre.entered(j));
            }
        }
    }

    /// Brings root `id` to name the copy of its object: the object is copied
    /// if it was not yet, and the address of the copy is stored in the
    /// `RootInner`.
    fn resolve(&mut self, id: usize, Ghost(cur): Ghost<u64>, Ghost(done): Ghost<int>)
        requires
            old(self).inv(cur, done),
            root_live(old(self).spec_roots(), id as u64),
            old(self).origin().has_object(old(self).origin().spec_roots()[id as int]->0.ptr),
            old(self).origin().reaches(old(self).origin().spec_roots()[id as int]->0.ptr),
        ensures
            final(self).inv(cur, done),
            final(self).origin() == old(self).origin(),
            final(self).outside_all() == old(self).outside_all(),
            final(self).spec_marker() == old(self).spec_marker(),
            final(self).work() <= old(self).work(),
            final(self).grown(old(self)),
            root_live(final(self).spec_roots(), id as u64),
            final(self).resolved(id as u64),
            final(self).counts_kept(old(self)),
            old(self).resolved(id as u64) ==> final(self).spec_roots()[id as int]->0.ptr == old(self).spec_roots()[id as int]->0.ptr,
            final(self).spec_to().has_object(final(self).spec_roots()[id as int]->0.ptr),
            final(self).spec_to().status_at(final(self).spec_roots()[id as int]->0.ptr) == Some(
                ObjectStatus::Rooted(id as u64),
            ) <==> old(self).entered(id as u64),
    {
        let ghost pre = *self;
        let inner = self.roots[id].unwrap();
        let p: u64 = inner.ptr;
        let ghost o = self.before@.spec_roots()[id as int]->0;
        proof {
            assert(self.root_ok(id as int));
            assert(self.from.has_object(o.ptr)) by {
                assert(self.before@.spec_space().has_object(o.ptr) == self.from.has_object(o.ptr));
            }
            if p != o.ptr {
                assert(self.from_status_ok(o.ptr));
                assert(self.to.has_object(p));
                if self.from.has_object(p) {
                    self.lemma_apart(p, p);
                }
            }
        }
        if self.from.lookup(p).is_some() {
            let q: u64 = self.forward(p, Ghost(cur), Ghost(done));
            let ghost mid = *self;
            proof {
                assert(pre.root_ok(id as int));
                assert(mid.root_ok(id as int));
                assert(mid.roots@.len() == pre.roots@.len());
            }
            let now = self.roots[id].unwrap();
            self.roots[id] = Some(RootInner { ptr: q, ..now });
            proof {
                assert(mid.root_ok(id as int));
                assert(mid.from_status_ok(p));
                assert(mid.to.has_object(q));
                assert(now.ptr == p || now.ptr == q);
                assert forall|a: u64| #[trigger] self.from_status_ok(a) by {
                    assert(mid.from_status_ok(a));
                    if mid.from.status_at(a) == Some(ObjectStatus::Rooted(id as u64)) {
                        mid.from.lemma_status_object(a);
                        if now.ptr == q {
                            mid.lemma_apart(a, q);
                        }
                    }
                }
                assert(statuses_rooted(&self.to, self.roots@)) by {
                    assert forall|a: u64| (#[trigger] self.to.status_at(a)) is Some implies (
                    self.to.status_at(a)->0 matches ObjectStatus::Rooted(i) && root_live(
                        self.roots@,
                        i,
                    ) && self.roots@[i as int]->0.ptr == a) by {
                        assert(statuses_rooted(&mid.to, mid.roots@));
                        if mid.to.status_at(a) == Some(ObjectStatus::Rooted(id as u64)) {
                            mid.to.lemma_status_object(a);
                            if now.ptr == p {
                                mid.from.lemma_status_object(p);
                                mid.lemma_apart(p, a);
                            }
                        }
                    }
                }
                assert forall|i: int| 0 <= i < self.roots@.len() implies #[trigger] self.root_ok(
                    i,
                ) by {
                    assert(mid.root_ok(i));
                }
                assert forall|i: u64| #[trigger] root_live(self.roots@, i) == root_live(
                    mid.roots@,
                    i,
                ) by {}
                assert forall|i: u64| root_live(mid.roots@, i) && #[trigger] mid.resolved(
                    i,
                ) implies self.resolved(i) by {}
                self.lemma_frame(&mid, cur, done);
                assert forall|i: u64| root_live(mid.roots@, i) implies #[trigger] self.entered(i)
                    == mid.entered(i) by {
                    if i == id as u64 && now.ptr == p {
                        if mid.to.status_at(p) is Some {
                            mid.to.lemma_status_object(p);
                            mid.lemma_apart(p, p);
                        }
                        if self.from.status_at(q) is Some {
                            mid.from.lemma_status_object(q);
                            mid.lemma_apart(q, q);
                        }
                        assert(statuses_rooted(&mid.to, mid.roots@));
                    }
                }
                self.lemma_tally_kept(&mid, cur, done, cur, done);
                self.lemma_grown_trans(&mid, &pre);
                // the entry of the root moved with its object, if it had one
                if pre.to.status_at(p) is Some {
                    pre.to.lemma_status_object(p);
                    pre.lemma_apart(p, p);
                }
                if is_moved(pre.from.status_at(p)) {
                    assert(pre.from_status_ok(p));
                    assert(pre.to.has_object(q));
                    pre.lemma_apart(p, q);
                    assert(statuses_rooted(&pre.to, pre.roots@));
                    assert(pre.to.status_at(q) != Some(ObjectStatus::Rooted(id as u64)));
                }
            }
        } else {
            proof {
                assert(self.grown(&pre));
                if self.from.status_at(p) is Some {
                    self.from.lemma_status_object(p);
                }
            }
        }
    }

    /// Traces a handle that was found inside the heap: counts it for the
    /// root that it names, demotes that root when every handle to it has
    /// been found inside the heap, and brings the root to name the copy of
    /// its object. A handle that names no root is passed over. The handle
    /// is the one in pointer field `done` of the copy at `cur`, which then
    /// counts as traced, when `found` says so; else it is counted besides
    /// the handles in the pointer fields.
    pub fn trace_root(
        &mut self,
        id: u64,
        Ghost(cur): Ghost<u64>,
        Ghost(done): Ghost<int>,
        Ghost(found): Ghost<bool>,
    )
        requires
            old(self).inv(cur, done),
            root_live(old(self).spec_roots(), id) ==> old(self).origin().has_object(
                old(self).origin().spec_roots()[id as int]->0.ptr,
            ) && old(self).origin().reaches(old(self).origin().spec_roots()[id as int]->0.ptr),
            found ==> cur != 0 && 0 <= done < old(self).slots_of(cur).len() && old(self).slots_of(
                cur,
            )[done].trace_fn == TraceFn::Root && old(self).word0(cur, done) == id,
        ensures
            final(self).inv(
                cur,
                if found {
                    done + 1
                } else {
                    done
                },
            ),
            final(self).origin() == old(self).origin(),
            final(self).spec_marker() == old(self).spec_marker(),
            final(self).work() <= old(self).work(),
            final(self).grown(old(self)),
            root_live(final(self).spec_roots(), id) == root_live(old(self).spec_roots(), id),
            root_live(final(self).spec_roots(), id) ==> final(self).resolved(id),
            final(self).counted(old(self), id),
            final(self).outside_all() == (if !found && root_live(old(self).spec_roots(), id) {
                old(self).outside_all().insert(id, old(self).outside(id) + 1)
            } else {
                old(self).outside_all()
            }),
    {
        let ghost pre = *self;
        let count: usize = self.roots.len();
        if id == 0 || id >= count as u64 {
            proof {
                assert(self.grown(&pre));
                if found {
                    assert(self.slot_ok(cur, done, cur, done));
                    self.lemma_advance(cur, done);
                }
            }
            return ;
        }
        let idx: usize = id as usize;
        if self.roots[idx].is_none() {
            proof {
                assert(self.grown(&pre));
                if found {
                    assert(self.slot_ok(cur, done, cur, done));
                    self.lemma_advance(cur, done);
                }
            }
            return ;
        }
        self.resolve(idx, Ghost(cur), Ghost(done));
        let ghost one = *self;
        proof {
            assert(one.root_ok(idx as int));
            assert(pre.root_ok(idx as int));
            if found {
                one.lemma_stable(&pre, cur, done, cur, done, cur, done);
            }
        }
        self.count_handle(idx, Ghost(cur), Ghost(done), Ghost(found));
        proof {
            self.lemma_grown_trans(&one, &pre);
        }
    }

    /// A step that counts no handle keeps the counts in order: it leaves
    /// the counts of the roots and their entries in the status tables as
    /// they are, every handle to a root that was pending is still pending,
    /// and a new copy is pending.
    proof fn lemma_tally_kept(&self, pre: &Evacuation, c1: u64, d1: int, c0: u64, d0: int)
        requires
            pre.inv(c0, d0),
            self.frame(c1, d1),
            self.grown(pre),
            self.before@ == pre.before@,
            self.marker == pre.marker,
            self.counts_kept(pre),
            self.seen@ == pre.seen@,
            self.outside@ == pre.outside@,
            forall|q: u64, k: int|
                pre.source@.contains_key(q) && 0 <= k < pre.slots_of(q).len() && pre.slots_of(
                    q,
                )[k].trace_fn == TraceFn::Root && root_live(pre.roots@, pre.word0(q, k))
                    ==> #[trigger] self.pending(q, k, c1, d1) == pre.pending(q, k, c0, d0),
            forall|q: u64|
                self.source@.contains_key(q) && !pre.source@.contains_key(q)
                    ==> #[trigger] self.gray@.contains(q),
            forall|id: u64|
                root_live(pre.roots@, id) ==> #[trigger] self.entered(id) == pre.entered(id),
        ensures
            self.inv(c1, d1),
    {
        assert forall|id: u64| root_live(self.roots@, id) implies #[trigger] self.tally_ok(
            id,
            c1,
            d1,
        ) by {
            assert(root_live(pre.roots@, id));
            assert(pre.tally_ok(id, c0, d0));
            assert(self.seen_of(id) == pre.seen_of(id));
            assert(self.outside(id) == pre.outside(id));
            assert(self.entered(id) == pre.entered(id));
            assert forall|q: u64, k: int| #[trigger]
                self.seen_of(id).contains((q, k)) <==> self.handle_at(id, q, k) && !self.pending(
                    q,
                    k,
                    c1,
                    d1,
                ) by {
                if pre.source@.contains_key(q) {
                    self.lemma_stable(pre, q, k, c1, d1, c0, d0);
                    if pre.handle_at(id, q, k) {
                        assert(self.pending(q, k, c1, d1) == pre.pending(q, k, c0, d0));
                    }
                } else {
                    assert(!pre.handle_at(id, q, k));
                    if self.source@.contains_key(q) {
                        assert(self.gray@.contains(q));
                    }
                }
            }
        }
    }

    /// A step leaves the pointer fields of a copy, and what they held when
    /// the copy was made, as they are.
    proof fn lemma_stable(&self, old: &Evacuation, x: u64, k: int, c1: u64, d1: int, c0: u64, d0: int)
        requires
            self.frame(c1, d1),
            old.frame(c0, d0),
            self.grown(old),
            self.before@ == old.before@,
            old.source@.contains_key(x),
        ensures
            self.slots_of(x) == old.slots_of(x),
            self.word0(x, k) == old.word0(x, k),
    {
        assert(old.to.has_object(x));
        let a = old.source@[x];
        assert(self.from.bytes_at(a) == self.before@.spec_space().bytes_at(a));
        assert(old.from.bytes_at(a) == self.before@.spec_space().bytes_at(a));
    }

    /// The copy at `q` and its source: both are objects with the same
    /// descriptor, and the pointer fields lie inside them.
    proof fn lemma_copy(&self, q: u64, cur: u64, done: int)
        requires
            self.inv(cur, done),
            self.source@.contains_key(q),
        ensures
            q != 0,
            self.to.has_object(q),
            self.from.has_object(self.source@[q]),
            self.before@.has_object(self.source@[q]),
            self.before@.reaches(self.source@[q]),
            self.before@.slots_at(self.source@[q]) == self.slots_of(q),
            self.before@.bytes_at(self.source@[q]) == self.from.bytes_at(self.source@[q]),
            self.to.entry(q).info < self.infos@.len(),
            self.infos@[self.to.entry(q).info as int].wf(),
            self.infos@[self.to.entry(q).info as int].slots@ == self.slots_of(q),
            self.infos@[self.to.entry(q).info as int].size == self.to.entry(q).size,
            slots_fit(self.slots_of(q), self.to.entry(q).size as int),
            self.to.bytes_at(q).len() == self.to.entry(q).size,
            self.from.bytes_at(self.source@[q]).len() == self.to.entry(q).size,
            q + self.to.entry(q).size <= u64::MAX,
    {
        let a = self.source@[q];
        assert(self.source_ok(q));
        assert(self.to.has_object(q));
        self.from.lemma_status_object(a);
        self.lemma_from_typed(a);
        self.to.lemma_object_bounds(q);
        self.from.lemma_object_bounds(a);
    }

    /// What pointer field `k` of the copy at `q` held when the copy was
    /// made leads to an object that was reachable when the cycle began.
    proof fn lemma_slot_target(&self, q: u64, k: int, cur: u64, done: int)
        requires
            self.inv(cur, done),
            self.source@.contains_key(q),
            0 <= k < self.slots_of(q).len(),
        ensures
            self.slots_of(q)[k].trace_fn == TraceFn::Gc && self.word0(q, k) != 0
                ==> self.from.has_object(self.word0(q, k)) && self.before@.reaches(
                self.word0(q, k),
            ),
            self.slots_of(q)[k].trace_fn == TraceFn::Root && root_live(
                self.roots@,
                self.word0(q, k),
            ) ==> {
                let p = self.before@.spec_roots()[self.word0(q, k) as int]->0.ptr;
                self.before@.has_object(p) && self.before@.reaches(p)
            },
    {
        let h0 = self.before@;
        let a = self.source@[q];
        let v = self.word0(q, k);
        self.lemma_copy(q, cur, done);
        let slots = h0.slots_at(a);
        assert(crate::heap::fields_ok(
            &h0.spec_space(),
            h0.spec_roots(),
            slots,
            h0.spec_space().bytes_at(a),
        ));
        assert(crate::heap::value_ok(&h0.spec_space(), h0.spec_roots(), slots[k].trace_fn, v));
        assert(h0.field(a, k) == v);
        if slots[k].trace_fn == TraceFn::Gc {
            if v != 0 {
                assert(h0.spec_space().has_object(v));
                assert(self.from.has_object(v) == h0.spec_space().has_object(v));
                assert(h0.target(a, k) == v);
                h0.lemma_reach_step(a, k);
            }
        } else {
            if root_live(self.roots@, v) {
                assert(self.root_ok(v as int));
                assert(root_live(h0.spec_roots(), v));
                let p = h0.spec_roots()[v as int]->0.ptr;
                assert(h0.spec_space().has_object(p));
                h0.spec_space().lemma_object_bounds(p);
                assert(h0.target(a, k) == p);
                h0.lemma_reach_step(a, k);
            }
        }
    }

    /// A pointer field that was traced counts as done.
    proof fn lemma_advance_frame(&self, q: u64, k: int)
        requires
            self.frame(q, k),
            q != 0,
            0 <= k < self.slots_of(q).len(),
            self.fixed(q, k),
        ensures
            self.frame(q, k + 1),
    {
        assert forall|x: u64, j: int|
            self.source@.contains_key(x) && 0 <= j < self.slots_of(x).len() implies #[trigger] self.slot_ok(
            x,
            j,
            q,
            k + 1,
        ) by {
            assert(self.slot_ok(x, j, q, k));
        }
    }

    /// A pointer field that was traced and is no handle to a root counts as
    /// done.
    proof fn lemma_advance(&self, q: u64, k: int)
        requires
            self.inv(q, k),
            q != 0,
            0 <= k < self.slots_of(q).len(),
            self.fixed(q, k),
            self.slots_of(q)[k].trace_fn == TraceFn::Root ==> !root_live(self.roots@, self.word0(q, k)),
        ensures
            self.inv(q, k + 1),
    {
        self.lemma_advance_frame(q, k);
        assert(self.grown(self));
        self.lemma_tally_kept(self, q, k + 1, q, k);
    }

    /// Traces the copy at `q`: every managed pointer of it is rewritten to
    /// the copy of its target, which is made now if it was not made before,
    /// and every handle of it is traced.
    fn scan(&mut self, q: u64)
        requires
            old(self).inv(q, 0),
            q != 0,
        ensures
            final(self).inv(0, 0),
            final(self).origin() == old(self).origin(),
            final(self).outside_all() == old(self).outside_all(),
            final(self).spec_marker() == old(self).spec_marker(),
            final(self).work() <= old(self).work(),
            final(self).grown(old(self)),
    {
        let ghost pre = *self;
        proof {
            assert(self.source@.contains_key(q));
            self.lemma_copy(q, q, 0);
            assert(self.grown(&pre));
        }
        let entry = self.to.lookup(q).unwrap();
        let mut list: Vec<TraceAt> = Vec::new();
        self.infos[entry.info].trace(q, &mut list);
        let n: usize = list.len();
        let mut k: usize = 0;
        while k < n
            invariant
                k <= n,
                n == list@.len(),
                q != 0,
                self.inv(q, k as int),
                pre.inv(q, 0),
                pre.source@.contains_key(q),
                list@ == spec_trace(pre.slots_of(q), q),
                pre.slots_of(q).len() == n,
                slots_fit(pre.slots_of(q), pre.to.entry(q).size as int),
                q + pre.to.entry(q).size <= u64::MAX,
                self.before@ == pre.before@,
                self.outside@ == pre.outside@,
                self.marker == pre.marker,
                self.work() <= pre.work(),
                self.grown(&pre),
            decreases n - k,
        {
            let ghost top = *self;
            let at = list[k];
            proof {
                self.lemma_stable(&pre, q, k as int, q, k as int, q, 0);
                self.lemma_copy(q, q, k as int);
                self.lemma_slot_target(q, k as int, q, k as int);
                assert(self.slot_ok(q, k as int, q, k as int));
                assert(self.pending(q, k as int, q, k as int));
                assert(pre.to.has_object(q));
                assert(self.to.entry(q) == pre.to.entry(q));
                assert(at.ptr_to_gc == q + pre.slots_of(q)[k as int].offset);
            }
            let off: usize = (at.ptr_to_gc - q) as usize;
            let v: u64 = self.to.read_word(q, off);
            match at.trace_fn {
                TraceFn::Gc => {
                    if v != 0 {
                        let nq: u64 = self.forward(v, Ghost(q), Ghost(k as int));
                        let ghost mid = *self;
                        proof {
                            mid.lemma_stable(&top, q, k as int, q, k as int, q, k as int);
                            mid.lemma_grown_trans(&top, &pre);
                        }
                        self.rewrite(q, k, nq);
                        proof {
                            self.lemma_grown_trans(&mid, &pre);
                        }
                    } else {
                        proof {
                            self.lemma_advance(q, k as int);
                        }
                    }
                },
                TraceFn::Root => {
                    self.trace_root(v, Ghost(q), Ghost(k as int), Ghost(true));
                    proof {
                        self.lemma_grown_trans(&top, &pre);
                    }
                },
            }
            k = k + 1;
        }
        proof {
            self.lemma_stable(&pre, q, 0, q, n as int, q, 0);
            self.to.lemma_layout();
            assert(!self.to.has_object(0)) by {
                if self.to.has_object(0) {
                    self.to.lemma_object_bounds(0);
                }
            }
            assert forall|x: u64, j: int|
                self.source@.contains_key(x) && 0 <= j < self.slots_of(x).len() implies #[trigger] self.slot_ok(
                x,
                j,
                0,
                0,
            ) by {
                assert(self.slot_ok(x, j, q, n as int));
            }
            assert(!self.gray@.contains(0)) by {
                if self.gray@.contains(0) {
                    let i = choose|i: int| 0 <= i < self.gray@.len() && self.gray@[i] == 0;
                    assert(self.to.has_object(self.gray@[i]));
                }
            }
            assert(self.frame(0, 0));
            assert(self.grown(self));
            assert forall|x: u64, j: int|
                self.source@.contains_key(x) && 0 <= j < self.slots_of(
                    x,
                ).len() implies #[trigger] self.pending(x, j, 0, 0) == self.pending(
                x,
                j,
                q,
                n as int,
            ) by {
                assert(self.to.has_object(x));
            }
            self.lemma_tally_kept(self, 0, 0, q, n as int);
            self.lemma_grown_trans(self, &pre);
        }
    }

    /// Traces the queued copies until none is left. What tracing a copy
    /// copies is queued and traced in turn.
    fn drain(&mut self)
        requires
            old(self).inv(0, 0),
        ensures
            final(self).inv(0, 0),
            final(self).spec_gray().len() == 0,
            final(self).origin() == old(self).origin(),
            final(self).outside_all() == old(self).outside_all(),
            final(self).spec_marker() == old(self).spec_marker(),
            final(self).grown(old(self)),
    {
        let ghost pre = *self;
        proof {
            assert(self.grown(&pre));
        }
        while self.gray.len() > 0
            invariant
                self.inv(0, 0),
                self.before@ == pre.before@,
                self.outside@ == pre.outside@,
                self.marker == pre.marker,
                self.grown(&pre),
            decreases self.work(),
        {
            let ghost top = *self;
            let q: u64 = self.gray.pop().unwrap();
            proof {
                let last = top.gray@.len() - 1;
                assert(top.gray@[last] == q);
                assert(top.to.has_object(q));
                top.to.lemma_object_bounds(q);
                assert(self.gray@ =~= top.gray@.subrange(0, last));
                assert(!self.gray@.contains(q)) by {
                    if self.gray@.contains(q) {
                        let i = choose|i: int| 0 <= i < self.gray@.len() && self.gray@[i] == q;
                        assert(top.gray@[i] == q);
                    }
                }
                assert forall|x: u64| x != q implies self.gray@.contains(x) == top.gray@.contains(
                    x,
                ) by {
                    if top.gray@.contains(x) {
                        let i = choose|i: int| 0 <= i < top.gray@.len() && top.gray@[i] == x;
                        assert(self.gray@[i] == x);
                    }
                    if self.gray@.contains(x) {
                        let i = choose|i: int| 0 <= i < self.gray@.len() && self.gray@[i] == x;
                        assert(top.gray@[i] == x);
                    }
                }
                assert forall|i: int| 0 <= i < self.roots@.len() implies #[trigger] self.root_ok(
                    i,
                ) by {
                    assert(top.root_ok(i));
                }
                assert forall|a: u64| #[trigger] self.from_status_ok(a) by {
                    assert(top.from_status_ok(a));
                }
                assert forall|x: u64| self.source@.contains_key(x) implies #[trigger] self.source_ok(
                    x,
                ) by {
                    assert(top.source_ok(x));
                }
                assert forall|x: u64| self.source@.contains_key(x) implies #[trigger] self.content_ok(
                    x,
                ) by {
                    assert(top.content_ok(x));
                }
                assert forall|x: u64| self.source@.contains_key(x) implies #[trigger] self.to_status_ok(
                    x,
                ) by {
                    assert(top.to_status_ok(x));
                }
                assert forall|x: u64, j: int|
                    self.source@.contains_key(x) && 0 <= j < self.slots_of(x).len() implies #[trigger] self.slot_ok(
                    x,
                    j,
                    q,
                    0,
                ) by {
                    assert(top.slot_ok(x, j, 0, 0));
                    assert(top.to.has_object(x));
                    assert(top.gray@.contains(q));
                    top.to.lemma_object_bounds(x);
                    top.to.lemma_layout();
                    assert(x != 0);
                    if x != q {
                        assert(self.gray@.contains(x) == top.gray@.contains(x));
                    }
                    assert(self.pending(x, j, q, 0) == top.pending(x, j, 0, 0));
                }
                assert forall|i: int| 0 <= i < self.gray@.len() implies self.to.has_object(
                    #[trigger] self.gray@[i],
                ) by {
                    assert(top.to.has_object(top.gray@[i]));
                }
                assert(self.frame(q, 0));
                assert(self.grown(&top));
                assert forall|x: u64, j: int|
                    top.source@.contains_key(x) && 0 <= j implies #[trigger] self.pending(x, j, q, 0)
                    == top.pending(x, j, 0, 0) by {
                    assert(top.to.has_object(x));
                    top.to.lemma_object_bounds(x);
                    top.to.lemma_layout();
                    assert(x != 0);
                    assert(top.gray@.contains(q));
                    if x != q {
                        assert(self.gray@.contains(x) == top.gray@.contains(x));
                    }
                }
                self.lemma_tally_kept(&top, q, 0, 0, 0);
                assert(self.work() + 1 == top.work());
            }
            let ghost mid = *self;
            self.scan(q);
            proof {
                self.lemma_grown_trans(&mid, &top);
                self.lemma_grown_trans(&top, &pre);
            }
        }
    }

    /// Copies every object that a root names, as listed in `worklist`.
    fn evacuate_roots(&mut self, worklist: &Vec<u64>)
        requires
            old(self).inv(0, 0),
            forall|i: int|
                0 <= i < worklist@.len() ==> old(self).origin().status_at(
                    #[trigger] worklist@[i],
                ) is Some,
        ensures
            final(self).inv(0, 0),
            final(self).origin() == old(self).origin(),
            final(self).outside_all() == old(self).outside_all(),
            final(self).spec_marker() == old(self).spec_marker(),
            final(self).grown(old(self)),
            forall|i: int|
                0 <= i < worklist@.len() ==> is_moved(
                    final(self).spec_from().status_at(#[trigger] worklist@[i]),
                ),
    {
        let ghost pre = *self;
        proof {
            assert(self.grown(&pre));
        }
        let mut i: usize = 0;
        while i < worklist.len()
            invariant
                i <= worklist@.len(),
                self.inv(0, 0),
                self.before@ == pre.before@,
                self.outside@ == pre.outside@,
                self.marker == pre.marker,
                self.grown(&pre),
                forall|j: int|
                    0 <= j < worklist@.len() ==> pre.before@.status_at(#[trigger] worklist@[j]) is Some,
                forall|j: int|
                    0 <= j < i ==> is_moved(self.from.status_at(#[trigger] worklist@[j])),
            decreases worklist@.len() - i,
        {
            let ghost top = *self;
            let a: u64 = worklist[i];
            proof {
                let h0 = self.before@;
                assert(h0.status_at(worklist@[i as int]) is Some);
                h0.spec_space().lemma_status_object(a);
                h0.lemma_reach_root(a);
                assert(self.from.has_object(a) == h0.spec_space().has_object(a));
            }
            self.forward(a, Ghost(0), Ghost(0));
            proof {
                self.lemma_grown_trans(&top, &pre);
                assert forall|j: int| 0 <= j < i + 1 implies is_moved(
                    self.from.status_at(#[trigger] worklist@[j]),
                ) by {
                    if j < i {
                        assert(is_moved(top.from.status_at(worklist@[j])));
                    }
                }
            }
            i = i + 1;
        }
    }

    /// The cycle has copied everything that it has to: no copy waits to be
    /// traced, and every object that a root named when the cycle began was
    /// copied.
    pub closed spec fn complete(&self) -> bool {
        &&& self.inv(0, 0)
        &&& self.gray@.len() == 0
        &&& forall|a: u64|
            (#[trigger] self.before@.status_at(a)) is Some ==> is_moved(self.from.status_at(a))
    }

    /// Where each object that was copied went.
    pub closed spec fn forward_map(&self) -> Map<u64, u64> {
        Map::new(
            |a: u64| is_moved(self.from.status_at(a)),
            |a: u64| self.from.status_at(a)->0->Moved_0,
        )
    }

    /// Copies what the roots reach: the objects that `worklist` names, and
    /// then, copy by copy, what their pointer fields lead to.
    pub fn run(&mut self, worklist: &Vec<u64>)
        requires
            old(self).inv(0, 0),
            forall|a: u64| old(self).origin().status_at(a) is Some <==> worklist@.contains(a),
        ensures
            final(self).complete(),
            final(self).origin() == old(self).origin(),
            final(self).outside_all() == old(self).outside_all(),
            final(self).spec_marker() == old(self).spec_marker(),
    {
        proof {
            assert forall|i: int| 0 <= i < worklist@.len() implies self.before@.status_at(
                #[trigger] worklist@[i],
            ) is Some by {
                assert(worklist@.contains(worklist@[i]));
            }
        }
        self.evacuate_roots(worklist);
        let ghost mid = *self;
        self.drain();
        proof {
            assert forall|a: u64| (#[trigger] self.before@.status_at(a)) is Some implies is_moved(
                self.from.status_at(a),
            ) by {
                assert(worklist@.contains(a));
                let i = choose|i: int| 0 <= i < worklist@.len() && worklist@[i] == a;
                assert(is_moved(mid.from.status_at(worklist@[i])));
            }
        }
    }

    /// After a complete cycle every pointer field of every copy was traced.
    proof fn lemma_all_fixed(&self, q: u64, k: int)
        requires
            self.complete(),
            self.source@.contains_key(q),
            0 <= k < self.slots_of(q).len(),
        ensures
            self.fixed(q, k),
    {
        self.lemma_copy(q, 0, 0);
        assert(self.slot_ok(q, k, 0, 0));
        assert(!self.gray@.contains(q));
    }

    /// After a complete cycle every object on a path from a root was
    /// copied.
    proof fn lemma_path_moved(&self, path: Seq<u64>, i: int)
        requires
            self.complete(),
            self.before@.is_path(path),
            0 <= i < path.len(),
        ensures
            is_moved(self.from.status_at(path[i])),
        decreases i,
    {
        let h0 = self.before@;
        if i > 0 {
            self.lemma_path_moved(path, i - 1);
            let a = path[i - 1];
            let b = path[i];
            assert(h0.edge(a, b));
            let k = choose|k: int| 0 <= k < h0.slots_at(a).len() && #[trigger] h0.target(a, k) == b;
            assert(self.from_status_ok(a));
            let q = self.from.status_at(a)->0->Moved_0;
            assert(self.source@.contains_key(q) && self.source@[q] == a);
            self.lemma_copy(q, 0, 0);
            self.lemma_all_fixed(q, k);
            assert(self.word0(q, k) == h0.field(a, k));
            if h0.slots_at(a)[k].trace_fn == TraceFn::Root {
                let id = h0.field(a, k);
                assert(root_live(h0.spec_roots(), id));
                assert(self.root_ok(id as int));
                assert(root_live(self.roots@, id));
                assert(self.resolved(id));
            }
        }
    }

    /// After a complete cycle exactly the objects that were reachable when
    /// it began were copied.
    proof fn lemma_moved_reachable(&self, a: u64)
        requires
            self.complete(),
        ensures
            is_moved(self.from.status_at(a)) <==> self.before@.reaches(a),
    {
        let h0 = self.before@;
        if is_moved(self.from.status_at(a)) {
            assert(self.from_status_ok(a));
            let q = self.from.status_at(a)->0->Moved_0;
            assert(self.source_ok(q));
        }
        if h0.reaches(a) {
            let path = choose|path: Seq<u64>| #[trigger] h0.is_path(path) && path.last() == a;
            self.lemma_path_moved(path, path.len() - 1);
        }
    }

    /// After a complete cycle the copies point at copies only.
    proof fn lemma_final_closed(&self, roots: Seq<Option<RootInner>>)
        requires
            self.complete(),
            roots.len() == self.roots@.len(),
            forall|i: int|
                0 <= i < roots.len() ==> ((#[trigger] roots[i]) is Some <==> self.roots@[i] is Some)
                    && (roots[i] is Some ==> roots[i]->0.ptr == self.roots@[i]->0.ptr),
        ensures
            closed_graph(self.infos@, &self.to, roots),
    {
        assert forall|q: u64| #[trigger] self.to.has_object(q) implies fields_ok(
            &self.to,
            roots,
            self.infos@[self.to.entry(q).info as int].slots@,
            self.to.bytes_at(q),
        ) by {
            assert(self.source@.contains_key(q));
            self.lemma_copy(q, 0, 0);
            let slots = self.slots_of(q);
            assert forall|k: int| 0 <= k < slots.len() implies value_ok(
                &self.to,
                roots,
                (#[trigger] slots[k]).trace_fn,
                spec_word(self.to.bytes_at(q), slots[k].offset as int),
            ) by {
                self.lemma_all_fixed(q, k);
                let v0 = self.word0(q, k);
                let v1 = self.word1(q, k);
                if slots[k].trace_fn == TraceFn::Gc {
                    if v0 != 0 {
                        assert(self.from_status_ok(v0));
                        assert(self.to.has_object(v1));
                    }
                } else {
                    if root_live(roots, v1) {
                        assert(root_live(self.roots@, v0));
                        assert(self.resolved(v0));
                        let hp = self.before@.spec_roots()[v0 as int]->0.ptr;
                        assert(self.from_status_ok(hp));
                        assert(self.to.has_object(self.roots@[v0 as int]->0.ptr));
                    }
                }
            }
        }
    }

    /// After a complete cycle the copy of the object at `a` is that object,
    /// moved.
    proof fn lemma_final_copy(&self, a: u64, new: &Heap)
        requires
            self.complete(),
            is_moved(self.from.status_at(a)),
            new.spec_infos() == self.infos@,
            new.spec_space() == self.to,
        ensures
            self.before@.has_object(a),
            new.has_object(self.forward_map()[a]),
            copy_of(&self.before@, a, new, self.forward_map()[a], self.forward_map()),
    {
        let h0 = self.before@;
        let f = self.forward_map();
        let q = f[a];
        assert(self.from_status_ok(a));
        assert(self.source@.contains_key(q) && self.source@[q] == a);
        self.lemma_copy(q, 0, 0);
        assert(self.content_ok(q));
        assert(h0.slots_at(a) == self.slots_of(q));
        assert(self.source_ok(q));
        assert(new.info_at(q) == h0.info_at(a));
        assert(new.bytes_at(q).len() == h0.bytes_at(a).len());
        assert(new.bytes_at(q) == self.to.bytes_at(q));
        assert forall|i: int|
            0 <= i < h0.bytes_at(a).len() && !gc_covered(
                h0.slots_at(a),
                i,
            ) implies #[trigger] new.bytes_at(q)[i] == h0.bytes_at(a)[i] by {
            assert(self.to.bytes_at(q)[i] == self.from.bytes_at(a)[i]);
        }
        assert forall|k: int|
            0 <= k < h0.slots_at(a).len() && (#[trigger] h0.slots_at(a)[k]).trace_fn
                == TraceFn::Gc implies {
            &&& (h0.field(a, k) != 0 ==> f.contains_key(h0.field(a, k)))
            &&& new.field(q, k) == forwarded(f, h0.field(a, k))
        } by {
            self.lemma_all_fixed(q, k);
            assert(new.slots_at(q) == self.slots_of(q));
            assert(self.word0(q, k) == h0.field(a, k));
            assert(self.word1(q, k) == new.field(q, k));
            let v0 = self.word0(q, k);
            if v0 != 0 {
                assert(is_moved(self.from.status_at(v0)));
                assert(f.contains_key(v0));
            }
        }
        assert forall|k: int|
            0 <= k < h0.slots_at(a).len() && (#[trigger] h0.slots_at(a)[k]).trace_fn
                == TraceFn::Root implies new.field(q, k) == h0.field(a, k) by {
            self.lemma_all_fixed(q, k);
            assert(new.slots_at(q) == self.slots_of(q));
            assert(self.word0(q, k) == h0.field(a, k));
            assert(self.word1(q, k) == new.field(q, k));
        }
    }

    /// After a complete cycle the handles to root `id` that were counted in
    /// copies are the handles to it that the objects keep, and the root is
    /// entered as its count says.
    proof fn lemma_final_entry(&self, new: &Heap, id: u64)
        requires
            self.complete(),
            root_live(self.roots@, id),
            new.spec_infos() == self.infos@,
            new.spec_space() == self.to,
        ensures
            self.seen_of(id) == new.handles_to(id),
            self.tally_ok(id, 0, 0),
    {
        assert(self.tally_ok(id, 0, 0));
        self.to.lemma_layout();
        assert forall|at: (u64, int)| self.seen_of(id).contains(at) == new.handles_to(id).contains(
            at,
        ) by {
            let q = at.0;
            let k = at.1;
            assert(at == (q, k));
            assert(self.seen_of(id).contains((q, k)) <==> self.handle_at(id, q, k) && !self.pending(
                q,
                k,
                0,
                0,
            ));
            assert(self.to.has_object(q) <==> self.source@.contains_key(q));
            if self.source@.contains_key(q) {
                self.to.lemma_object_bounds(q);
                assert(q != 0);
                assert(!self.gray@.contains(q));
                assert(new.slots_at(q) == self.slots_of(q));
                if 0 <= k < self.slots_of(q).len() {
                    self.lemma_all_fixed(q, k);
                    assert(self.word1(q, k) == new.field(q, k));
                }
            }
        }
        assert(self.seen_of(id) =~= new.handles_to(id));
    }

    /// Ends a complete cycle: sweeps the evacuated blocks and gives them up,
    /// resets the counts of traced handles, and publishes the count of the
    /// blocks that survived. Returns the heap, the objects whose destructors
    /// are to be run, and where each surviving object went.
    pub fn finish(self) -> (r: (Heap, Vec<Dropped>, Ghost<Map<u64, u64>>))
        requires
            self.complete(),
        ensures
            r.0.wf(),
            evacuated(&self.origin(), &r.0, r.2@, self.outside_all()),
            drops(&self.origin(), r.1@),
    {
        let ghost e = self;
        let ghost h0 = self.before@;
        let ghost f = self.forward_map();
        let infos = self.infos;
        let mut from = self.from;
        let to = self.to;
        let mut roots = self.roots;
        let marker = self.marker;
        proof {
            assert(typed(infos@, &from)) by {
                assert forall|a: u64| #[trigger] from.has_object(a) implies from.entry(a).info
                    < infos@.len() && from.entry(a).size == infos@[from.entry(a).info as int].size by {
                    e.lemma_from_typed(a);
                }
            }
        }
        let dropped = sweep(&mut from, &infos);
        let n: usize = roots.len();
        let mut i: usize = 0;
        while i < n
            invariant
                i <= n,
                n == roots@.len(),
                roots@.len() == e.roots@.len(),
                forall|j: int|
                    0 <= j < i ==> #[trigger] roots@[j] == spec_rest(e.roots@[j], marker),
                forall|j: int| i <= j < n ==> #[trigger] roots@[j] == e.roots@[j],
            decreases n - i,
        {
            match roots[i] {
                Some(r) => {
                    roots[i] = Some(RootInner { traced_count: 0, collection_marker: marker, ..r });
                },
                None => {},
            }
            i = i + 1;
        }
        let post: usize = to.block_count();
        let h = Heap::assemble(infos, to, roots, post, marker);
        proof {
            let rs = h.spec_roots();
            assert forall|j: int| 0 <= j < rs.len() implies ((#[trigger] rs[j]) is Some
                <==> e.roots@[j] is Some) && (rs[j] is Some ==> rs[j]->0.ptr
                == e.roots@[j]->0.ptr) by {
                assert(rs[j] == spec_rest(e.roots@[j], marker));
            }
            e.lemma_final_closed(rs);
            assert(statuses_rooted(&e.to, rs)) by {
                assert forall|a: u64| (#[trigger] e.to.status_at(a)) is Some implies (
                e.to.status_at(a)->0 matches ObjectStatus::Rooted(id) && root_live(rs, id)
                    && rs[id as int]->0.ptr == a) by {
                    assert(statuses_rooted(&e.to, e.roots@));
                    let id = e.to.status_at(a)->0->Rooted_0;
                    assert(rs[id as int] == spec_rest(e.roots@[id as int], marker));
                }
            }
            assert(roots_rest(rs)) by {
                assert(e.root_ok(0));
                assert(rs[0] == spec_rest(e.roots@[0], marker));
                assert forall|j: int| 0 <= j < rs.len() implies ((#[trigger] rs[j]) matches Some(r)
                    ==> r.ref_count > 0 && r.traced_count == 0) by {
                    assert(e.root_ok(j));
                    assert(rs[j] == spec_rest(e.roots@[j], marker));
                }
            }
            assert(h.wf());
            // what became of the objects
            assert forall|a: u64| #[trigger] f.contains_key(a) <==> h0.reaches(a) by {
                e.lemma_moved_reachable(a);
            }
            assert forall|a: u64| #[trigger] f.contains_key(a) implies h0.has_object(a) by {
                e.lemma_final_copy(a, &h);
            }
            assert forall|a: u64|
                #![trigger f[a]]
                f.contains_key(a) implies h.has_object(f[a]) && copy_of(&h0, a, &h, f[a], f) by {
                e.lemma_final_copy(a, &h);
            }
            assert forall|a: u64, b: u64|
                f.contains_key(a) && f.contains_key(b) && #[trigger] f[a]
                    == #[trigger] f[b] implies a == b by {
                assert(e.from_status_ok(a));
                assert(e.from_status_ok(b));
            }
            assert forall|q: u64| #[trigger] h.has_object(q) implies exists|a: u64|
                f.contains_key(a) && #[trigger] f[a] == q by {
                assert(e.source@.contains_key(q));
                assert(e.source_ok(q));
                let a = e.source@[q];
                assert(f.contains_key(a) && f[a] == q);
            }
            assert forall|j: int| 0 <= j < h0.spec_roots().len() implies #[trigger] root_moved(
                &h0,
                &h,
                f,
                e.outside@,
                j,
            ) by {
                assert(e.root_ok(j));
                assert(rs[j] == spec_rest(e.roots@[j], marker));
                if rs[j] is Some {
                    let r = e.roots@[j]->0;
                    let o = h0.spec_roots()[j]->0;
                    if h0.status_at(o.ptr) == Some(ObjectStatus::Rooted(j as u64)) {
                        e.lemma_final_entry(&h, j as u64);
                        assert(is_moved(e.from.status_at(o.ptr)));
                        assert(e.from_status_ok(o.ptr));
                        assert(e.to.has_object(r.ptr));
                        if e.from.status_at(r.ptr) is Some {
                            e.from.lemma_status_object(r.ptr);
                            e.lemma_apart(r.ptr, r.ptr);
                        }
                        assert(e.entered(j as u64) <==> h.status_at(r.ptr) == Some(
                            ObjectStatus::Rooted(j as u64),
                        ));
                    }
                }
            }
            e.from.lemma_layout();
            assert(h.spec_infos() == h0.spec_infos());
            assert(h.spec_marker() != h0.spec_marker());
            assert(h.spec_post_block_count() == h.spec_block_count());
            assert(h0.spec_space().limit() == h.spec_space().spec_first()) by {
                assert(e.from.same_layout(&h0.spec_space()));
            }
            assert(h.spec_roots().len() == h0.spec_roots().len());
            assert forall|a: u64|
                f.contains_key(a) && (#[trigger] h.status_at(f[a])) is Some implies h.status_at(
                f[a],
            ) == h0.status_at(a) by {
                assert(e.from_status_ok(a));
                assert(e.to_status_ok(f[a]));
            }
            assert(evacuated(&h0, &h, f, e.outside@));
            // what was dropped
            assert forall|a: u64| doomed(&e.from, e.infos@, a) == condemned(&h0, a) by {
                e.lemma_moved_reachable(a);
                if e.from.has_object(a) {
                    e.lemma_from_typed(a);
                }
                assert(h0.spec_space().has_object(a) == e.from.has_object(a));
            }
            assert forall|j: int| 0 <= j < dropped@.len() implies condemned(
                &h0,
                (#[trigger] dropped@[j]).ptr,
            ) && dropped@[j].info == h0.info_at(dropped@[j].ptr) && dropped@[j].bytes@
                == h0.bytes_at(dropped@[j].ptr) by {
                let a = dropped@[j].ptr;
                assert(doomed(&e.from, e.infos@, a));
                e.lemma_from_typed(a);
            }
            assert forall|a: u64| condemned(&h0, a) implies exists|j: int|
                0 <= j < dropped@.len() && (#[trigger] dropped@[j]).ptr == a by {
                assert(doomed(&e.from, e.infos@, a));
            }
        }
        (h, dropped, Ghost(f))
    }
}

} // verus!
