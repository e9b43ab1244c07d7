//! What holds of the heap whatever is done with it: laws that relate
//! several operations, each stated over the views that the operations'
//! own contracts use, and proved from them.

use vstd::prelude::*;
use crate::block::Block;
use crate::collect::{Collection, copy_of, evacuated, Evacuation, gc_covered};
use crate::heap::{fields_ok, GcError, Heap, root_live, value_ok};
use crate::info::TraceFn;
use crate::layout::{BLOCK_SIZE, HEADER_SIZE, lemma_align_up, spec_header_from};
use crate::root::RootInner;
use crate::status::ObjectStatus;

verus! {

/// Between cycles every `RootInner` has a handle, and its count of traced
/// handles reads as zero.
pub proof fn law_roots_at_rest(heap: &Heap, id: u64)
    requires
        heap.wf(),
        root_live(heap.spec_roots(), id),
    ensures
        heap.spec_roots()[id as int]->0.ref_count > 0,
        heap.spec_roots()[id as int]->0.effective_traced(heap.spec_marker()) == 0,
        heap.spec_roots()[id as int]->0.traced_count <= heap.spec_roots()[id as int]->0.ref_count,
{
    assert(heap.spec_roots()[id as int] is Some);
}

/// No key of the status table of one block lies in the range of another
/// block.
pub proof fn law_status_keys_apart(heap: &Heap, i: int, j: int, key: u64)
    requires
        heap.wf(),
        0 <= i < heap.spec_block_count(),
        0 <= j < heap.spec_block_count(),
        i != j,
        heap.spec_space().spec_blocks()[i].spec_evaced().contains_key(key),
    ensures
        heap.spec_space().spec_blocks()[i].spec_base() <= key < heap.spec_space().spec_blocks()[i].spec_base()
            + BLOCK_SIZE,
        !(heap.spec_space().spec_blocks()[j].spec_base() <= key
            < heap.spec_space().spec_blocks()[j].spec_base() + BLOCK_SIZE),
{
    heap.spec_space().lemma_evaced_in_own_block(i, j, key);
}

/// After a cycle nothing is left of the evacuated blocks: no object lives at
/// an address of theirs, and no pointer field of a surviving object holds
/// such an address. Every managed pointer of a survivor is zero or names a
/// survivor, and every handle of a survivor that names a root names one
/// whose object survived.
pub proof fn law_survivors_closed(old: &Heap, new: &Heap, forward: Map<u64, u64>, q: u64, k: int)
    requires
        old.wf(),
        new.wf(),
        evacuated(old, new, forward, Map::empty()),
        new.has_object(q),
        0 <= k < new.slots_at(q).len(),
    ensures
        !old.has_object(q),
        new.slots_at(q)[k].trace_fn == TraceFn::Gc ==> new.field(q, k) == 0 || (new.has_object(
            new.field(q, k),
        ) && !old.has_object(new.field(q, k))),
        new.slots_at(q)[k].trace_fn == TraceFn::Root && root_live(new.spec_roots(), new.field(q, k))
            ==> new.has_object(new.spec_roots()[new.field(q, k) as int]->0.ptr),
{
    law_spaces_apart(old, new, forward, q);
    let slots = new.slots_at(q);
    assert(fields_ok(&new.spec_space(), new.spec_roots(), slots, new.spec_space().bytes_at(q)));
    assert(value_ok(&new.spec_space(), new.spec_roots(), slots[k].trace_fn, new.field(q, k)));
    if slots[k].trace_fn == TraceFn::Gc && new.field(q, k) != 0 {
        law_spaces_apart(old, new, forward, new.field(q, k));
    }
}

/// The blocks that a cycle fills lie behind the blocks that it evacuates: no
/// address names an object both before and after.
pub proof fn law_spaces_apart(old: &Heap, new: &Heap, forward: Map<u64, u64>, a: u64)
    requires
        old.wf(),
        new.wf(),
        evacuated(old, new, forward, Map::empty()),
        new.has_object(a),
    ensures
        !old.has_object(a),
{
    if old.has_object(a) {
        old.spec_space().lemma_object_bounds(a);
        new.spec_space().lemma_object_bounds(a);
    }
}

/// After a cycle the count of surviving blocks is the count of live blocks,
/// so a second call of `collect` right after the first runs no cycle, unless
/// nothing survived.
pub proof fn law_collect_twice(old: &Heap, new: &Heap, forward: Map<u64, u64>)
    requires
        evacuated(old, new, forward, Map::empty()),
    ensures
        new.spec_post_block_count() == new.spec_block_count(),
        new.spec_block_count() > 0 ==> !new.spec_should_collect(),
{
}

/// No path from a root enters a set of objects that no root names and that
/// no object outside the set points into.
proof fn lemma_path_stays_out(heap: &Heap, group: Set<u64>, path: Seq<u64>, i: int)
    requires
        forall|a: u64| #[trigger] group.contains(a) ==> heap.has_object(a) && heap.status_at(a) is None,
        forall|a: u64, b: u64| #[trigger] heap.edge(b, a) && group.contains(a) ==> group.contains(b),
        heap.is_path(path),
        0 <= i < path.len(),
    ensures
        !group.contains(path[i]),
    decreases i,
{
    if i > 0 {
        lemma_path_stays_out(heap, group, path, i - 1);
        assert(heap.edge(path[i - 1], path[i]));
    }
}

/// A group of objects that no root names and that only objects of the group
/// point into is reclaimed by one cycle, however its members point at each
/// other: none of them survives.
pub proof fn law_cycle_reclaimed(
    old: &Heap,
    new: &Heap,
    forward: Map<u64, u64>,
    group: Set<u64>,
    a: u64,
)
    requires
        old.wf(),
        new.wf(),
        evacuated(old, new, forward, Map::empty()),
        forall|x: u64| #[trigger] group.contains(x) ==> old.has_object(x) && old.status_at(x) is None,
        forall|x: u64, y: u64| #[trigger] old.edge(y, x) && group.contains(x) ==> group.contains(y),
        group.contains(a),
    ensures
        !old.reaches(a),
        !forward.contains_key(a),
        !new.has_object(a),
        forall|b: u64| forward.contains_key(b) ==> #[trigger] forward[b] != a && !group.contains(b),
{
    if old.reaches(a) {
        let path = choose|path: Seq<u64>| #[trigger] old.is_path(path) && path.last() == a;
        lemma_path_stays_out(old, group, path, path.len() - 1);
    }
    if new.has_object(a) {
        law_spaces_apart(old, new, forward, a);
    }
    assert forall|b: u64| forward.contains_key(b) implies #[trigger] forward[b] != a
        && !group.contains(b) by {
        if group.contains(b) {
            assert(old.reaches(b));
            let path = choose|path: Seq<u64>| #[trigger] old.is_path(path) && path.last() == b;
            lemma_path_stays_out(old, group, path, path.len() - 1);
        }
        assert(new.has_object(forward[b]));
    }
}

/// A cycle on a heap without roots leaves no block.
pub proof fn law_nothing_survives(old: &Heap, new: &Heap, forward: Map<u64, u64>)
    requires
        old.wf(),
        new.wf(),
        evacuated(old, new, forward, Map::empty()),
        forall|a: u64| old.status_at(a) is None,
    ensures
        new.spec_block_count() == 0,
        forall|a: u64| !new.has_object(a),
{
    assert forall|a: u64| !new.has_object(a) by {
        if new.has_object(a) {
            let b = choose|b: u64| forward.contains_key(b) && #[trigger] forward[b] == a;
            assert(old.reaches(b));
            let path = choose|path: Seq<u64>| #[trigger] old.is_path(path) && path.last() == b;
            assert(old.status_at(path[0]) is Some);
        }
    }
    if new.spec_block_count() > 0 {
        new.spec_space().lemma_blocks_hold_objects();
        let a = choose|a: u64| #[trigger] new.spec_space().has_object(a);
        assert(new.has_object(a));
    }
}

/// An object that a root names survives a cycle: the root names its copy
/// afterwards, which has the same descriptor, the same bytes outside its
/// managed pointers, and managed pointers to the copies of its targets. The
/// root stays entered in the status table unless a reachable object keeps
/// a handle to it.
pub proof fn law_root_survives(old: &Heap, new: &Heap, forward: Map<u64, u64>, id: u64)
    requires
        old.wf(),
        new.wf(),
        evacuated(old, new, forward, Map::empty()),
        root_live(old.spec_roots(), id),
        old.status_at(old.spec_roots()[id as int]->0.ptr) == Some(ObjectStatus::Rooted(id)),
    ensures
        root_live(new.spec_roots(), id),
        new.spec_roots()[id as int]->0.ref_count == old.spec_roots()[id as int]->0.ref_count,
        new.spec_roots()[id as int]->0.ptr == forward[old.spec_roots()[id as int]->0.ptr],
        new.has_object(new.spec_roots()[id as int]->0.ptr),
        copy_of(
            old,
            old.spec_roots()[id as int]->0.ptr,
            new,
            new.spec_roots()[id as int]->0.ptr,
            forward,
        ),
        !old.reached_handle(id) ==> new.status_at(new.spec_roots()[id as int]->0.ptr) == Some(
            ObjectStatus::Rooted(id),
        ),
{
    use_root_moved(old, new, forward, id as int);
    let p = old.spec_roots()[id as int]->0.ptr;
    assert(forward.contains_key(p));
    assert(new.has_object(forward[p]));
    if !old.reached_handle(id) {
        law_no_handle_appears(old, new, forward, id);
    }
}

/// The handles that a surviving object keeps are those that it kept before
/// the cycle, in the same pointer fields.
pub proof fn law_handles_carried(
    old: &Heap,
    new: &Heap,
    forward: Map<u64, u64>,
    id: u64,
    a: u64,
    k: int,
)
    requires
        old.wf(),
        new.wf(),
        evacuated(old, new, forward, Map::empty()),
        forward.contains_key(a),
    ensures
        new.handles_to(id).contains((forward[a], k)) <==> old.handles_to(id).contains((a, k)),
{
    assert(copy_of(old, a, new, forward[a], forward));
    assert(new.slots_at(forward[a]) == old.slots_at(a));
}

/// The cycle breaker: an object that is rooted stays rooted through a
/// cycle that the heap runs exactly if the surviving objects keep fewer
/// handles to its root than the root has. Where every handle is kept by a
/// surviving object, the object is demoted, and only the pointers that
/// reach it keep it alive from then on.
pub proof fn law_demoted_exactly(old: &Heap, new: &Heap, forward: Map<u64, u64>, id: u64)
    requires
        old.wf(),
        new.wf(),
        evacuated(old, new, forward, Map::empty()),
        root_live(old.spec_roots(), id),
        old.status_at(old.spec_roots()[id as int]->0.ptr) == Some(ObjectStatus::Rooted(id)),
    ensures
        root_live(new.spec_roots(), id),
        new.handles_to(id).finite(),
        new.status_at(new.spec_roots()[id as int]->0.ptr) == Some(ObjectStatus::Rooted(id))
            <==> new.handles_to(id).len() < old.spec_roots()[id as int]->0.ref_count,
{
    use_root_moved(old, new, forward, id as int);
}

/// Where no reachable object kept a handle to root `id`, no object keeps
/// one after the cycle.
pub proof fn law_no_handle_appears(old: &Heap, new: &Heap, forward: Map<u64, u64>, id: u64)
    requires
        old.wf(),
        new.wf(),
        evacuated(old, new, forward, Map::empty()),
        !old.reached_handle(id),
    ensures
        new.handles_to(id) == Set::<(u64, int)>::empty(),
{
    assert forall|at: (u64, int)| !new.handles_to(id).contains(at) by {
        if new.handles_to(id).contains(at) {
            let q = at.0;
            let k = at.1;
            let a = choose|a: u64| forward.contains_key(a) && #[trigger] forward[a] == q;
            assert(copy_of(old, a, new, q, forward));
            assert(old.reaches(a));
            assert(old.has_object(a));
            assert(new.slots_at(q) == old.slots_at(a));
            assert(old.field(a, k) == id);
            assert(old.reached_handle(id));
        }
    }
    assert(new.handles_to(id) =~= Set::<(u64, int)>::empty());
}

/// Unfolds what `evacuated` says of root `i`.
proof fn use_root_moved(old: &Heap, new: &Heap, forward: Map<u64, u64>, i: int)
    requires
        evacuated(old, new, forward, Map::empty()),
        0 <= i < old.spec_roots().len(),
    ensures
        crate::collect::root_moved(old, new, forward, Map::empty(), i),
{
}

/// After a cycle a handle is kept inside the heap only where a reachable
/// object kept it before: the survivors are copies, handles included.
pub proof fn law_handles_survive(old: &Heap, new: &Heap, forward: Map<u64, u64>, id: u64)
    requires
        old.wf(),
        new.wf(),
        evacuated(old, new, forward, Map::empty()),
        new.holds_handle(id),
    ensures
        old.reached_handle(id),
{
    let (q, k) = choose|q: u64, k: int|
        new.has_object(q) && 0 <= k < new.slots_at(q).len() && new.slots_at(q)[k].trace_fn
            == TraceFn::Root && #[trigger] new.field(q, k) == id;
    let a = choose|a: u64| forward.contains_key(a) && #[trigger] forward[a] == q;
    assert(old.reaches(a));
    assert(copy_of(old, a, new, forward[a], forward));
    assert(old.slots_at(a) == new.slots_at(q));
    assert(old.slots_at(a)[k].trace_fn == TraceFn::Root);
    assert(old.field(a, k) == id);
}

/// Whether the object that root `id` names in `heap` holds `bytes`, is of a
/// type without managed pointers, is entered as rooted by `id`, and no
/// reachable object keeps a handle to `id`: the root is held outside the
/// heap only.
pub open spec fn held_outside(heap: &Heap, id: u64, bytes: Seq<u8>) -> bool {
    &&& heap.wf()
    &&& root_live(heap.spec_roots(), id)
    &&& heap.status_at(heap.spec_roots()[id as int]->0.ptr) == Some(ObjectStatus::Rooted(id))
    &&& !heap.reached_handle(id)
    &&& heap.spec_deref(id) == Some(bytes)
    &&& forall|k: int|
        0 <= k < heap.slots_at(heap.spec_roots()[id as int]->0.ptr).len() ==> (
        #[trigger] heap.slots_at(heap.spec_roots()[id as int]->0.ptr)[k]).trace_fn != TraceFn::Gc
}

/// A cycle keeps a value that is held through a root outside the heap only:
/// the root is still entered, still held outside the heap only, and the
/// value is read back unchanged through it.
pub proof fn law_held_outside_survives(
    old: &Heap,
    new: &Heap,
    forward: Map<u64, u64>,
    id: u64,
    bytes: Seq<u8>,
)
    requires
        held_outside(old, id, bytes),
        new.wf(),
        evacuated(old, new, forward, Map::empty()),
    ensures
        held_outside(new, id, bytes),
        new.spec_roots()[id as int]->0.ref_count == old.spec_roots()[id as int]->0.ref_count,
{
    law_root_survives(old, new, forward, id);
    let p = old.spec_roots()[id as int]->0.ptr;
    let q = new.spec_roots()[id as int]->0.ptr;
    assert(copy_of(old, p, new, q, forward));
    let slots = old.slots_at(p);
    assert(new.slots_at(q) == slots);
    assert forall|i: int| 0 <= i < bytes.len() implies new.bytes_at(q)[i] == bytes[i] by {
        if gc_covered(slots, i) {
            let k = choose|k: int|
                0 <= k < slots.len() && (#[trigger] slots[k]).trace_fn == TraceFn::Gc
                    && slots[k].offset <= i < slots[k].offset + 8;
            assert(slots[k].trace_fn != TraceFn::Gc);
        }
    }
    assert(new.bytes_at(q) =~= bytes);
    if new.reached_handle(id) {
        assert(new.holds_handle(id));
        law_handles_survive(old, new, forward, id);
    }
}

/// Any number of cycles keeps a value that is held through a root outside
/// the heap only: where each heap of `heaps` is what a cycle makes of the
/// one before it, the value is read back unchanged through the root in the
/// last of them. A call of `collect` that runs no cycle leaves the heap as
/// it is, so that this holds of any number of calls of `collect`.
pub proof fn law_held_outside_survives_cycles(
    heaps: Seq<Heap>,
    forwards: Seq<Map<u64, u64>>,
    id: u64,
    bytes: Seq<u8>,
)
    requires
        heaps.len() > 0,
        forwards.len() == heaps.len() - 1,
        held_outside(&heaps[0], id, bytes),
        forall|i: int|
            0 <= i < heaps.len() - 1 ==> heaps[i + 1].wf() && evacuated(
                &heaps[i],
                #[trigger] &heaps[i + 1],
                forwards[i],
                Map::empty(),
            ),
    ensures
        held_outside(&heaps.last(), id, bytes),
        heaps.last().spec_deref(id) == Some(bytes),
    decreases heaps.len(),
{
    if heaps.len() > 1 {
        let n = heaps.len() - 1;
        law_held_outside_survives_cycles(heaps.drop_last(), forwards.drop_last(), id, bytes);
        assert(heaps.drop_last().last() == heaps[n - 1]);
        assert(evacuated(&heaps[n - 1], &heaps[n - 1 + 1], forwards[n - 1], Map::empty()));
        law_held_outside_survives(&heaps[n - 1], &heaps[n], forwards[n - 1], id, bytes);
    }
}

/// A value of a type without managed pointers that was just moved onto the
/// heap and rooted is held outside the heap only: no object keeps a handle
/// to a root that did not exist when the object got its handles.
pub proof fn law_fresh_root_held_outside(
    h0: &Heap,
    h1: &Heap,
    h2: &Heap,
    identity: u64,
    bytes: Seq<u8>,
    ptr: u64,
    id: u64,
)
    requires
        h0.wf(),
        h1.wf(),
        h2.wf(),
        identity < h0.spec_infos().len(),
        forall|k: int|
            0 <= k < h0.spec_infos()[identity as int].slots@.len()
                ==> (#[trigger] h0.spec_infos()[identity as int].slots@[k]).trace_fn != TraceFn::Gc,
        h0.allocated_by(h1, identity, bytes, ptr),
        h1.rooted_by(h2, ptr, Ok(id)),
    ensures
        held_outside(h2, id, bytes),
{
    assert(h1.has_object(ptr));
    assert(h1.status_at(ptr) is None);
    assert(h2.spec_space().has_object(ptr) == h1.spec_space().has_object(ptr));
    assert(h2.spec_space().bytes_at(ptr) == h1.spec_space().bytes_at(ptr));
    assert(h2.spec_space().entry(ptr) == h1.spec_space().entry(ptr));
    assert(id == h1.spec_roots().len());
    assert(h2.spec_roots()[id as int] == Some(h1.fresh_inner(ptr)));
    assert(h2.status_at(ptr) == Some(ObjectStatus::Rooted(id)));
    assert(h2.slots_at(ptr) == h0.spec_infos()[identity as int].slots@);
    if h2.holds_handle(id) {
        let (a, k) = choose|a: u64, k: int|
            h2.has_object(a) && 0 <= k < h2.slots_at(a).len() && h2.slots_at(a)[k].trace_fn
                == TraceFn::Root && #[trigger] h2.field(a, k) == id;
        assert(h1.spec_space().has_object(a) == h2.spec_space().has_object(a));
        assert(h1.spec_space().entry(a) == h2.spec_space().entry(a));
        assert(h1.spec_space().bytes_at(a) == h2.spec_space().bytes_at(a));
        let slots = h1.slots_at(a);
        assert(fields_ok(&h1.spec_space(), h1.spec_roots(), slots, h1.spec_space().bytes_at(a)));
        assert(value_ok(&h1.spec_space(), h1.spec_roots(), slots[k].trace_fn, h1.field(a, k)));
    }
}

/// A value of a type without managed pointers that is moved onto the heap
/// and rooted is read back unchanged through its root after any number of
/// cycles, the first of which begins on the heap as the rooting left it.
pub proof fn law_round_trip_cycles(
    h0: &Heap,
    h1: &Heap,
    heaps: Seq<Heap>,
    forwards: Seq<Map<u64, u64>>,
    identity: u64,
    bytes: Seq<u8>,
    ptr: u64,
    id: u64,
)
    requires
        h0.wf(),
        h1.wf(),
        heaps.len() > 0,
        heaps[0].wf(),
        forwards.len() == heaps.len() - 1,
        identity < h0.spec_infos().len(),
        forall|k: int|
            0 <= k < h0.spec_infos()[identity as int].slots@.len()
                ==> (#[trigger] h0.spec_infos()[identity as int].slots@[k]).trace_fn != TraceFn::Gc,
        h0.allocated_by(h1, identity, bytes, ptr),
        h1.rooted_by(&heaps[0], ptr, Ok(id)),
        forall|i: int|
            0 <= i < heaps.len() - 1 ==> heaps[i + 1].wf() && evacuated(
                &heaps[i],
                #[trigger] &heaps[i + 1],
                forwards[i],
                Map::empty(),
            ),
    ensures
        heaps.last().spec_deref(id) == Some(bytes),
{
    law_fresh_root_held_outside(h0, h1, &heaps[0], identity, bytes, ptr, id);
    law_held_outside_survives_cycles(heaps, forwards, id, bytes);
}

/// A value of a type without managed pointers that is moved onto the heap
/// and rooted is read back unchanged through its root after a cycle.
pub proof fn law_round_trip(
    h0: &Heap,
    h1: &Heap,
    h2: &Heap,
    h3: &Heap,
    identity: u64,
    bytes: Seq<u8>,
    ptr: u64,
    id: u64,
    forward: Map<u64, u64>,
)
    requires
        h0.wf(),
        h1.wf(),
        h2.wf(),
        h3.wf(),
        identity < h0.spec_infos().len(),
        forall|k: int|
            0 <= k < h0.spec_infos()[identity as int].slots@.len()
                ==> (#[trigger] h0.spec_infos()[identity as int].slots@[k]).trace_fn != TraceFn::Gc,
        h0.allocated_by(h1, identity, bytes, ptr),
        h1.rooted_by(h2, ptr, Ok(id)),
        evacuated(h2, h3, forward, Map::empty()),
    ensures
        h3.spec_deref(id) == Some(bytes),
{
    assert(h1.has_object(ptr));
    assert(h1.status_at(ptr) is None);
    assert(h2.spec_space().has_object(ptr) == h1.spec_space().has_object(ptr));
    assert(h2.spec_space().bytes_at(ptr) == h1.spec_space().bytes_at(ptr));
    assert(h2.spec_space().entry(ptr) == h1.spec_space().entry(ptr));
    let n = h1.spec_roots().len();
    assert(id == n);
    assert(h2.spec_roots()[id as int] == Some(h1.fresh_inner(ptr)));
    assert(h2.status_at(ptr) == Some(ObjectStatus::Rooted(id)));
    law_root_survives(h2, h3, forward, id);
    let q = h3.spec_roots()[id as int]->0.ptr;
    assert(copy_of(h2, ptr, h3, q, forward));
    let slots = h2.slots_at(ptr);
    assert(slots == h0.spec_infos()[identity as int].slots@);
    assert forall|i: int| 0 <= i < bytes.len() implies h3.bytes_at(q)[i] == bytes[i] by {
        if gc_covered(slots, i) {
            let k = choose|k: int|
                0 <= k < slots.len() && (#[trigger] slots[k]).trace_fn == TraceFn::Gc
                    && slots[k].offset <= i < slots[k].offset + 8;
            assert(slots[k].trace_fn != TraceFn::Gc);
        }
    }
    assert(h3.bytes_at(q) =~= bytes);
}

/// Rooting an object twice gives two handles that share one `RootInner`,
/// which counts two handles.
pub proof fn law_root_twice(
    h0: &Heap,
    h1: &Heap,
    h2: &Heap,
    ptr: u64,
    first: Result<u64, GcError>,
    second: Result<u64, GcError>,
)
    requires
        h0.wf(),
        h0.has_object(ptr),
        h0.status_at(ptr) is None,
        h0.spec_roots().len() < usize::MAX,
        h0.rooted_by(h1, ptr, first),
        h1.rooted_by(h2, ptr, second),
    ensures
        first is Ok,
        second == first,
        h2.spec_roots().len() == h0.spec_roots().len() + 1,
        h2.spec_roots()[first->Ok_0 as int]->0.ref_count == 2,
        h2.spec_roots()[first->Ok_0 as int]->0.ptr == ptr,
        h2.status_at(ptr) == Some(ObjectStatus::Rooted(first->Ok_0)),
        forall|a: u64| #[trigger] h2.status_at(a) == h1.status_at(a),
{
    let id = h0.spec_roots().len() as u64;
    assert(first == Ok::<u64, GcError>(id));
    assert(h1.spec_space().has_object(ptr) == h0.spec_space().has_object(ptr));
    assert(h1.status_at(ptr) == Some(ObjectStatus::Rooted(id)));
    assert(h1.spec_roots()[id as int] == Some(h0.fresh_inner(ptr)));
    assert(h2.spec_space().status_at(ptr) == h1.spec_space().status_at(ptr));
}

/// An empty block takes exactly the block size less the header: a value of
/// that size fits, one byte more does not.
pub proof fn law_block_capacity(block: &Block, align: usize)
    requires
        block.wf(),
        block.spec_cursor() == block.spec_base() + HEADER_SIZE,
        align > 0,
        (block.spec_base() + HEADER_SIZE) % (align as int) == 0,
        (BLOCK_SIZE - HEADER_SIZE) % (align as int) == 0,
    ensures
        block.fits((BLOCK_SIZE - HEADER_SIZE) as usize, align),
        !block.fits((BLOCK_SIZE - HEADER_SIZE + 1) as usize, align),
{
    block.lemma_header();
    lemma_align_up(block.spec_cursor() as int, align as int);
    lemma_align_up(BLOCK_SIZE - HEADER_SIZE + 1, align as int);
}

/// A block whose cursor stands at its end takes nothing more.
pub proof fn law_block_full(block: &Block, size: usize, align: usize)
    requires
        block.wf(),
        block.spec_cursor() == block.spec_end(),
        size > 0,
        align > 0,
    ensures
        !block.fits(size, align),
{
    lemma_align_up(block.spec_cursor() as int, align as int);
    lemma_align_up(size as int, align as int);
}

/// When the cursor of the last block stands at its end, the next value that
/// is moved onto the heap, of whatever type, lands in a fresh block.
pub proof fn law_full_heap_grows(
    old: &Heap,
    new: &Heap,
    identity: u64,
    bytes: Seq<u8>,
    ptr: u64,
)
    requires
        old.wf(),
        old.spec_block_count() > 0,
        old.spec_space().spec_blocks()[old.spec_block_count() - 1].spec_cursor()
            == old.spec_space().spec_blocks()[old.spec_block_count() - 1].spec_end(),
        identity < old.spec_infos().len(),
        old.allocated_by(new, identity, bytes, ptr),
    ensures
        new.spec_block_count() == old.spec_block_count() + 1,
        ptr >= old.spec_space().limit() + HEADER_SIZE,
{
    let info = old.spec_infos()[identity as int];
    let last = old.spec_space().spec_blocks()[old.spec_block_count() - 1];
    assert(info.wf());
    old.spec_space().lemma_layout();
    law_block_full(&last, info.size, info.align);
    lemma_align_up(old.spec_space().limit() + HEADER_SIZE, info.align as int);
}

/// Between cycles the count of live blocks does not fall: moving a value
/// onto the heap keeps it or adds one, and rooting, handle counting and
/// storing a pointer keep it.
pub proof fn law_block_count_grows(
    old: &Heap,
    new: &Heap,
    identity: u64,
    bytes: Seq<u8>,
    ptr: u64,
    id: u64,
    field: usize,
    rooted: Result<u64, GcError>,
    kept: Result<(), GcError>,
)
    requires
        old.allocated_by(new, identity, bytes, ptr) || old.rooted_by(new, ptr, rooted)
            || old.retained_by(new, id, kept) || old.released_by(new, id) || old.stored_by(
            new,
            ptr,
            field,
            id,
            kept,
        ),
    ensures
        new.spec_block_count() >= old.spec_block_count(),
        new.spec_post_block_count() == old.spec_post_block_count(),
{
}

/// Rooting a live object that has no status makes a `RootInner` for it
/// behind the last of the root table, with one handle, none traced, the
/// generation of the heap, the object's address and its descriptor, and
/// enters the object as rooted by it; no other status changes. This holds
/// unless the root table is full.
pub proof fn law_fresh_root(old: &Heap, new: &Heap, ptr: u64, r: Result<u64, GcError>)
    requires
        old.wf(),
        old.has_object(ptr),
        old.status_at(ptr) is None,
        old.spec_roots().len() < usize::MAX,
        old.rooted_by(new, ptr, r),
    ensures
        r == Ok::<u64, GcError>(old.spec_roots().len() as u64),
        !root_live(old.spec_roots(), r->Ok_0),
        root_live(new.spec_roots(), r->Ok_0),
        new.spec_roots().len() == old.spec_roots().len() + 1,
        new.spec_roots()[r->Ok_0 as int] == Some(
            RootInner {
                ptr,
                trace_fn: old.info_at(ptr),
                collection_marker: old.spec_marker(),
                traced_count: 0,
                ref_count: 1,
            },
        ),
        new.status_at(ptr) == Some(ObjectStatus::Rooted(r->Ok_0)),
        forall|a: u64| a != ptr ==> #[trigger] new.status_at(a) == old.status_at(a),
{
    let id = old.spec_roots().len() as u64;
    assert(new.spec_roots()[id as int] == Some(old.fresh_inner(ptr)));
    assert(new.status_at(ptr) == Some(ObjectStatus::Rooted(id)));
}

/// Tracing a handle to a root whose count was left by an earlier cycle
/// discards that count, whatever it is: afterwards the count is taken under
/// the generation of the running cycle and is one.
pub proof fn law_stale_count_discarded(old: &Evacuation, new: &Evacuation, id: u64)
    requires
        root_live(old.spec_roots(), id),
        old.spec_roots()[id as int]->0.collection_marker != old.spec_marker(),
        old.spec_roots()[id as int]->0.ref_count >= 1,
        new.counted(old, id),
    ensures
        new.spec_roots()[id as int]->0.collection_marker == old.spec_marker(),
        new.spec_roots()[id as int]->0.traced_count == 1,
        new.spec_roots()[id as int]->0.ref_count == old.spec_roots()[id as int]->0.ref_count,
{
}

/// When the trigger holds and addresses are left for the cycle, the
/// collection entry point frees every block that was live: a root that was
/// entered in the status table names a live object afterwards, at an
/// address behind every block that was live, where no object was.
pub proof fn law_collect_moves_roots(
    old: &Heap,
    new: &Heap,
    r: Result<Collection, GcError>,
    id: u64,
)
    requires
        old.wf(),
        new.wf(),
        old.spec_should_collect(),
        old.can_collect(),
        old.collected_by(new, r),
        root_live(old.spec_roots(), id),
        old.status_at(old.spec_roots()[id as int]->0.ptr) == Some(ObjectStatus::Rooted(id)),
    ensures
        r is Ok,
        r->Ok_0.ran,
        root_live(new.spec_roots(), id),
        new.spec_roots()[id as int]->0.ref_count == old.spec_roots()[id as int]->0.ref_count,
        new.has_object(new.spec_roots()[id as int]->0.ptr),
        !old.has_object(new.spec_roots()[id as int]->0.ptr),
        new.spec_roots()[id as int]->0.ptr >= old.spec_space().limit() + HEADER_SIZE,
        forall|a: u64| old.has_object(a) ==> !#[trigger] new.has_object(a),
{
    let forward = r->Ok_0.forward@;
    law_root_survives(old, new, forward, id);
    let q = new.spec_roots()[id as int]->0.ptr;
    law_spaces_apart(old, new, forward, q);
    new.spec_space().lemma_object_bounds(q);
    new.spec_space().lemma_layout();
    assert forall|a: u64| old.has_object(a) implies !#[trigger] new.has_object(a) by {
        if new.has_object(a) {
            law_spaces_apart(old, new, forward, a);
        }
    }
}

/// When the trigger holds and addresses are left for the cycle, the
/// collection entry point leaves no pointer into a block that was live:
/// every managed pointer of a surviving object is zero or the address of a
/// surviving object, at which no object was before.
pub proof fn law_collect_rewrites_pointers(
    old: &Heap,
    new: &Heap,
    r: Result<Collection, GcError>,
    q: u64,
    k: int,
)
    requires
        old.wf(),
        new.wf(),
        old.spec_should_collect(),
        old.can_collect(),
        old.collected_by(new, r),
        new.has_object(q),
        0 <= k < new.slots_at(q).len(),
        new.slots_at(q)[k].trace_fn == TraceFn::Gc,
    ensures
        !old.has_object(q),
        q >= old.spec_space().limit() + HEADER_SIZE,
        new.field(q, k) == 0 || (new.has_object(new.field(q, k)) && !old.has_object(
            new.field(q, k),
        ) && new.field(q, k) >= old.spec_space().limit() + HEADER_SIZE),
{
    let forward = r->Ok_0.forward@;
    law_survivors_closed(old, new, forward, q, k);
    new.spec_space().lemma_layout();
    new.spec_space().lemma_object_bounds(q);
    if new.field(q, k) != 0 {
        new.spec_space().lemma_object_bounds(new.field(q, k));
    }
}

/// When the trigger holds and addresses are left for the cycle, the
/// collection entry point leaves the count of surviving blocks equal to the
/// count of live blocks.
pub proof fn law_collect_counts_blocks(old: &Heap, new: &Heap, r: Result<Collection, GcError>)
    requires
        old.wf(),
        old.spec_should_collect(),
        old.can_collect(),
        old.collected_by(new, r),
    ensures
        r is Ok,
        r->Ok_0.ran,
        new.spec_post_block_count() == new.spec_block_count(),
        new.spec_space().spec_first() == old.spec_space().limit(),
{
}

/// When the trigger holds and addresses are left for the cycle, the
/// collection entry point reclaims a group of objects that no root is
/// entered for and that only objects of the group point into, however its
/// members point at each other: no member is copied, no member is an object
/// afterwards, and no managed pointer of a surviving object holds the
/// address of a member.
pub proof fn law_collect_reclaims_cycle(
    old: &Heap,
    new: &Heap,
    r: Result<Collection, GcError>,
    group: Set<u64>,
    a: u64,
    q: u64,
    k: int,
)
    requires
        old.wf(),
        new.wf(),
        old.spec_should_collect(),
        old.can_collect(),
        old.collected_by(new, r),
        forall|x: u64| #[trigger] group.contains(x) ==> old.has_object(x) && old.status_at(x) is None,
        forall|x: u64, y: u64| #[trigger] old.edge(y, x) && group.contains(x) ==> group.contains(y),
        group.contains(a),
        new.has_object(q),
        0 <= k < new.slots_at(q).len(),
        new.slots_at(q)[k].trace_fn == TraceFn::Gc,
    ensures
        r is Ok,
        !r->Ok_0.forward@.contains_key(a),
        !new.has_object(a),
        q != a,
        new.field(q, k) != a,
{
    let forward = r->Ok_0.forward@;
    law_cycle_reclaimed(old, new, forward, group, a);
    law_survivors_closed(old, new, forward, q, k);
    old.spec_space().lemma_object_bounds(a);
    old.spec_space().lemma_layout();
}

/// A value of the block size less the header, with alignment one, takes a
/// block of its own: it starts right behind the header of the block and
/// ends where the block ends. Rooting it enters its address, which lies in
/// that block, as rooted. This holds unless the root table is full.
pub proof fn law_exact_fit(
    h0: &Heap,
    h1: &Heap,
    h2: &Heap,
    identity: u64,
    bytes: Seq<u8>,
    ptr: u64,
    r: Result<u64, GcError>,
)
    requires
        h0.wf(),
        h1.wf(),
        identity < h0.spec_infos().len(),
        h0.spec_infos()[identity as int].size == BLOCK_SIZE - HEADER_SIZE,
        h0.spec_infos()[identity as int].align == 1,
        h0.allocated_by(h1, identity, bytes, ptr),
        h1.spec_roots().len() < usize::MAX,
        h1.rooted_by(h2, ptr, r),
    ensures
        spec_header_from(ptr) + HEADER_SIZE == ptr,
        ptr + (BLOCK_SIZE - HEADER_SIZE) == spec_header_from(ptr) + BLOCK_SIZE,
        r is Ok,
        h2.status_at(ptr) == Some(ObjectStatus::Rooted(r->Ok_0)),
        spec_header_from(ptr) <= ptr < spec_header_from(ptr) + BLOCK_SIZE,
{
    assert(h1.has_object(ptr));
    h1.spec_space().lemma_object_bounds(ptr);
    assert(h1.spec_space().entry(ptr).size == BLOCK_SIZE - HEADER_SIZE) by {
        assert(h1.info_at(ptr) == identity);
    }
    law_fresh_root(h1, h2, ptr, r);
}

/// With the last block full, the next value that is moved onto the heap
/// lands in a new block behind every block that there was, and the count of
/// live blocks grows by one. Rooting it enters its address and changes no
/// other status, so no block that there was gets a status for it. This
/// holds unless the root table is full.
pub proof fn law_next_block_rooted(
    h0: &Heap,
    h1: &Heap,
    h2: &Heap,
    identity: u64,
    bytes: Seq<u8>,
    ptr: u64,
    r: Result<u64, GcError>,
    other: u64,
)
    requires
        h0.wf(),
        h1.wf(),
        h0.spec_block_count() > 0,
        h0.spec_space().spec_blocks()[h0.spec_block_count() - 1].spec_cursor()
            == h0.spec_space().spec_blocks()[h0.spec_block_count() - 1].spec_end(),
        identity < h0.spec_infos().len(),
        h0.allocated_by(h1, identity, bytes, ptr),
        h1.spec_roots().len() < usize::MAX,
        h1.rooted_by(h2, ptr, r),
        h0.has_object(other),
    ensures
        h1.spec_block_count() == h0.spec_block_count() + 1,
        h2.spec_block_count() == h0.spec_block_count() + 1,
        spec_header_from(ptr) != spec_header_from(other),
        spec_header_from(ptr) >= h0.spec_space().limit(),
        r is Ok,
        h2.status_at(ptr) == Some(ObjectStatus::Rooted(r->Ok_0)),
        forall|a: u64| a != ptr ==> #[trigger] h2.status_at(a) == h0.status_at(a),
{
    law_full_heap_grows(h0, h1, identity, bytes, ptr);
    law_fresh_root(h1, h2, ptr, r);
    h0.spec_space().lemma_object_bounds(other);
    h0.spec_space().lemma_layout();
    assert(h0.spec_space().limit() % (BLOCK_SIZE as int) == 0) by {
        assert(h0.spec_space().limit() == h0.spec_space().spec_first() + h0.spec_block_count()
            * BLOCK_SIZE);
    }
    assert forall|a: u64| a != ptr implies #[trigger] h2.status_at(a) == h0.status_at(a) by {
        assert(h2.status_at(a) == h1.status_at(a));
    }
}

/// When the trigger holds and addresses are left for the cycle, the
/// collection entry point moves what a rooted object points to along with
/// it: the pointer field of the copy of the rooted object holds the address
/// that the target went to, which is not the old address; the target there
/// has the descriptor and the length that it had, and the bytes that it had
/// outside its own managed pointers.
pub proof fn law_collect_forwards(
    old: &Heap,
    new: &Heap,
    r: Result<Collection, GcError>,
    id: u64,
    k: int,
)
    requires
        old.wf(),
        new.wf(),
        old.spec_should_collect(),
        old.can_collect(),
        old.collected_by(new, r),
        root_live(old.spec_roots(), id),
        old.status_at(old.spec_roots()[id as int]->0.ptr) == Some(ObjectStatus::Rooted(id)),
        0 <= k < old.slots_at(old.spec_roots()[id as int]->0.ptr).len(),
        old.slots_at(old.spec_roots()[id as int]->0.ptr)[k].trace_fn == TraceFn::Gc,
        old.field(old.spec_roots()[id as int]->0.ptr, k) != 0,
    ensures
        r is Ok,
        r->Ok_0.forward@.contains_key(old.field(old.spec_roots()[id as int]->0.ptr, k)),
        new.field(new.spec_roots()[id as int]->0.ptr, k) == r->Ok_0.forward@[old.field(
            old.spec_roots()[id as int]->0.ptr,
            k,
        )],
        new.field(new.spec_roots()[id as int]->0.ptr, k) != old.field(
            old.spec_roots()[id as int]->0.ptr,
            k,
        ),
        new.has_object(new.field(new.spec_roots()[id as int]->0.ptr, k)),
        !old.has_object(new.field(new.spec_roots()[id as int]->0.ptr, k)),
        copy_of(
            old,
            old.field(old.spec_roots()[id as int]->0.ptr, k),
            new,
            new.field(new.spec_roots()[id as int]->0.ptr, k),
            r->Ok_0.forward@,
        ),
        (forall|j: int|
            0 <= j < old.slots_at(old.field(old.spec_roots()[id as int]->0.ptr, k)).len() ==> (
            #[trigger] old.slots_at(old.field(old.spec_roots()[id as int]->0.ptr, k))[j]).trace_fn
                != TraceFn::Gc) ==> new.bytes_at(new.field(new.spec_roots()[id as int]->0.ptr, k))
            == old.bytes_at(old.field(old.spec_roots()[id as int]->0.ptr, k)),
{
    let forward = r->Ok_0.forward@;
    let b = old.spec_roots()[id as int]->0.ptr;
    let a = old.field(b, k);
    law_root_survives(old, new, forward, id);
    let b1 = new.spec_roots()[id as int]->0.ptr;
    assert(copy_of(old, b, new, b1, forward));
    assert(forward.contains_key(a));
    let q = forward[a];
    assert(new.field(b1, k) == q);
    assert(new.has_object(q));
    law_spaces_apart(old, new, forward, q);
    assert(old.has_object(a));
    assert(copy_of(old, a, new, q, forward));
    let slots = old.slots_at(a);
    if forall|j: int| 0 <= j < slots.len() ==> (#[trigger] slots[j]).trace_fn != TraceFn::Gc {
        assert forall|i: int| 0 <= i < old.bytes_at(a).len() implies new.bytes_at(q)[i]
            == old.bytes_at(a)[i] by {
            if gc_covered(slots, i) {
                let j = choose|j: int|
                    0 <= j < slots.len() && (#[trigger] slots[j]).trace_fn == TraceFn::Gc
                        && slots[j].offset <= i < slots[j].offset + 8;
                assert(slots[j].trace_fn != TraceFn::Gc);
            }
        }
        assert(new.bytes_at(q) =~= old.bytes_at(a));
    }
}

/// With no block counted as surviving, the collection entry point runs a
/// cycle whenever addresses are left for it, and on a heap without any
/// rooted object the cycle leaves no block and no object: nothing is
/// copied.
pub proof fn law_collect_empties(old: &Heap, new: &Heap, r: Result<Collection, GcError>, a: u64)
    requires
        old.wf(),
        new.wf(),
        old.spec_post_block_count() == 0,
        old.can_collect(),
        old.collected_by(new, r),
        forall|x: u64| old.status_at(x) is None,
    ensures
        r is Ok,
        r->Ok_0.ran,
        new.spec_block_count() == 0,
        new.spec_post_block_count() == 0,
        !new.has_object(a),
        !r->Ok_0.forward@.contains_key(a),
{
    let forward = r->Ok_0.forward@;
    law_nothing_survives(old, new, forward);
    if forward.contains_key(a) {
        assert(new.has_object(forward[a]));
    }
}

/// A pointer field of a surviving object leads to the copy of the object
/// that it led to before the cycle: every edge between survivors was an
/// edge between the objects that they are copies of.
pub proof fn law_edges_carried(old: &Heap, new: &Heap, forward: Map<u64, u64>, y: u64, x: u64)
    requires
        old.wf(),
        new.wf(),
        evacuated(old, new, forward, Map::empty()),
        forward.contains_key(y),
        forward.contains_key(x),
        new.edge(forward[y], forward[x]),
    ensures
        old.edge(y, x),
{
    let y1 = forward[y];
    let x1 = forward[x];
    assert(copy_of(old, y, new, y1, forward));
    assert(new.slots_at(y1) == old.slots_at(y));
    let k = choose|k: int| 0 <= k < new.slots_at(y1).len() && #[trigger] new.target(y1, k) == x1;
    let slots = old.slots_at(y);
    assert(old.has_object(y));
    assert(old.has_object(x));
    old.spec_space().lemma_object_bounds(x);
    old.spec_space().lemma_layout();
    assert(fields_ok(&old.spec_space(), old.spec_roots(), slots, old.spec_space().bytes_at(y)));
    assert(value_ok(&old.spec_space(), old.spec_roots(), slots[k].trace_fn, old.field(y, k)));
    if slots[k].trace_fn == TraceFn::Gc {
        let v = old.field(y, k);
        assert(new.field(y1, k) == crate::collect::forwarded(forward, v));
        assert(v != 0);
        assert(forward.contains_key(v));
        assert(v == x);
        assert(old.target(y, k) == x);
    } else {
        let id = old.field(y, k);
        assert(new.field(y1, k) == id);
        assert(root_live(new.spec_roots(), id));
        use_root_moved(old, new, forward, id as int);
        assert(root_live(old.spec_roots(), id));
        let o = old.spec_roots()[id as int]->0;
        assert(old.has_object(o.ptr));
        law_spaces_apart(old, new, forward, x1);
        assert(o.ptr == x);
        assert(old.target(y, k) == x);
    }
}

/// Whether the objects of `after` keep every handle to the root that the
/// object at `x` of `before` is rooted by, if it is rooted.
pub open spec fn handles_kept_inside(before: &Heap, after: &Heap, x: u64) -> bool {
    match before.status_at(x) {
        Some(ObjectStatus::Rooted(id)) => after.handles_to(id).len()
            >= before.spec_roots()[id as int]->0.ref_count,
        _ => true,
    }
}

/// The cycle breaker over two cycles: a group of objects that only objects
/// of the group point into, and whose rooted members are rooted by roots
/// all of whose handles the survivors of the first cycle keep, is demoted
/// by the first cycle and reclaimed by the second. The handles that the
/// members keep to each other do not keep the group alive.
pub proof fn law_rooted_cycle_reclaimed(
    h0: &Heap,
    h1: &Heap,
    h2: &Heap,
    first: Map<u64, u64>,
    second: Map<u64, u64>,
    group: Set<u64>,
    a: u64,
)
    requires
        h0.wf(),
        h1.wf(),
        h2.wf(),
        evacuated(h0, h1, first, Map::empty()),
        evacuated(h1, h2, second, Map::empty()),
        forall|x: u64| #[trigger]
            group.contains(x) ==> h0.has_object(x) && handles_kept_inside(h0, h1, x),
        forall|x: u64, y: u64| #[trigger] h0.edge(y, x) && group.contains(x) ==> group.contains(y),
        group.contains(a),
        first.contains_key(a),
    ensures
        h1.has_object(first[a]),
        h1.status_at(first[a]) is None,
        !second.contains_key(first[a]),
        !h2.has_object(first[a]),
        !h2.has_object(a),
{
    let moved = Set::new(
        |q: u64|
            exists|x: u64| group.contains(x) && first.contains_key(x) && #[trigger] first[x] == q,
    );
    assert forall|q: u64| #[trigger] moved.contains(q) implies h1.has_object(q) && h1.status_at(
        q,
    ) is None by {
        let x = choose|x: u64| group.contains(x) && first.contains_key(x) && #[trigger] first[x] == q;
        assert(h1.has_object(first[x]));
        if h1.status_at(first[x]) is Some {
            assert(h1.status_at(first[x]) == h0.status_at(x));
            let id = h0.status_at(x)->0->Rooted_0;
            assert(h0.status_at(x) == Some(ObjectStatus::Rooted(id)));
            assert(root_live(h0.spec_roots(), id));
            assert(h0.spec_roots()[id as int]->0.ptr == x);
            use_root_moved(h0, h1, first, id as int);
            assert(handles_kept_inside(h0, h1, x));
            assert(h1.spec_roots()[id as int]->0.ptr == first[x]);
            assert(false);
        }
    }
    assert forall|q: u64, p: u64| #[trigger] h1.edge(p, q) && moved.contains(q) implies moved.contains(
        p,
    ) by {
        let x = choose|x: u64| group.contains(x) && first.contains_key(x) && #[trigger] first[x] == q;
        let y = choose|y: u64| first.contains_key(y) && #[trigger] first[y] == p;
        law_edges_carried(h0, h1, first, y, x);
        assert(group.contains(y));
        assert(first[y] == p);
    }
    assert(moved.contains(first[a]));
    law_cycle_reclaimed(h1, h2, second, moved, first[a]);
    if h2.has_object(a) {
        h2.spec_space().lemma_object_bounds(a);
        h2.spec_space().lemma_layout();
        h1.spec_space().lemma_layout();
        h0.spec_space().lemma_object_bounds(a);
    }
}

} // verus!
