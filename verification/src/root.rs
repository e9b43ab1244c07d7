//! Roots: reference-counted handles that keep an object, and what it
//! reaches, alive across collection cycles.

use vstd::prelude::*;
use crate::collect::{Collection, drops, evacuated, Evacuation};
use crate::heap::{Gc, GcError, Heap, root_live};
use crate::status::ObjectStatus;

verus! {

/// What the heap keeps for a rooted object, one per object however many
/// handles name it. It is like a reference count that also handles cycles.
#[derive(Clone, Copy, Debug, PartialEq, Eq, Structural)]
pub struct RootInner {
    /// Current address of the object.
    pub ptr: u64,
    /// Index of the descriptor whose trace function enumerates the
    /// object's pointer fields.
    pub trace_fn: usize,
    /// The generation under which `traced_count` was last reset.
    pub collection_marker: bool,
    /// The number of handles found inside the heap during a cycle.
    pub traced_count: usize,
    /// The number of handles. `ref_count >= traced_count`.
    pub ref_count: usize,
}

/// A handle to a rooted object. While a handle exists the collector keeps
/// the object, and what the object reaches, and moves the handle's view of
/// it along. Handles are counted: `clone` makes one more, `drop` gives one
/// up.
#[derive(Debug, PartialEq, Eq, PartialOrd, Ord, Hash)]
pub struct Root {
    pub(crate) inner: u64,
}

/// A handle to a rooted object whose type is known.
#[derive(Debug, PartialEq, Eq, Hash)]
pub struct RootGc {
    pub(crate) root: Root,
    pub(crate) identity: u64,
}

impl Root {
    /// The number of the `RootInner` that the handle names.
    pub closed spec fn id(&self) -> u64 {
        self.inner
    }

    /// The number of the `RootInner` that the handle names. A handle that is
    /// to be kept inside the heap is stored as this number.
    pub fn number(&self) -> (n: u64)
        ensures
            n == self.id(),
    {
        self.inner
    }

    /// Roots the object that `gc` points to. An object that is rooted
    /// already shares its `RootInner` with the new handle.
    pub fn from_gc(heap: &mut Heap, gc: Gc) -> (r: Result<Root, GcError>)
        requires
            old(heap).wf(),
        ensures
            final(heap).wf(),
            match r {
                Ok(root) => old(heap).rooted_by(final(heap), gc.ptr, Ok(root.id())),
                Err(e) => old(heap).rooted_by(final(heap), gc.ptr, Err(e)),
            },
    {
        match heap.root(gc) {
            Ok(id) => Ok(Root { inner: id }),
            Err(e) => Err(e),
        }
    }

    /// The same as `from_gc`.
    pub fn from(heap: &mut Heap, gc: Gc) -> (r: Result<Root, GcError>)
        requires
            old(heap).wf(),
        ensures
            final(heap).wf(),
            match r {
                Ok(root) => old(heap).rooted_by(final(heap), gc.ptr, Ok(root.id())),
                Err(e) => old(heap).rooted_by(final(heap), gc.ptr, Err(e)),
            },
    {
        Root::from_gc(heap, gc)
    }

    /// Runs a collection cycle if the live blocks are at least twice the
    /// blocks that survived the last one. Every `Gc` is invalid afterwards;
    /// what a `Root` names is found at its new place.
    pub fn collect_garbage(heap: &mut Heap) -> (r: Result<Collection, GcError>)
        requires
            old(heap).wf(),
        ensures
            final(heap).wf(),
            old(heap).collected_by(final(heap), r),
    {
        heap.collect()
    }

    /// Traces a handle that the running cycle found inside the heap: it is
    /// counted for its `RootInner`, which is brought to name the copy of its
    /// object; when every handle has been found inside the heap, the object
    /// is demoted to one that only the pointers to it keep alive. The cycle
    /// traces the handles in the pointer fields of the objects that it
    /// copies by itself; a handle that is traced here is counted besides
    /// them.
    pub fn trace(s: &Root, cycle: &mut Evacuation)
        requires
            old(cycle).inv(0, 0),
            root_live(old(cycle).spec_roots(), s.id()) ==> old(cycle).origin().has_object(
                old(cycle).origin().spec_roots()[s.id() as int]->0.ptr,
            ) && old(cycle).origin().reaches(
                old(cycle).origin().spec_roots()[s.id() as int]->0.ptr,
            ),
        ensures
            final(cycle).inv(0, 0),
            final(cycle).origin() == old(cycle).origin(),
            final(cycle).spec_marker() == old(cycle).spec_marker(),
            root_live(final(cycle).spec_roots(), s.id()) == root_live(
                old(cycle).spec_roots(),
                s.id(),
            ),
            root_live(final(cycle).spec_roots(), s.id()) ==> final(cycle).resolved(s.id()),
            final(cycle).counted(old(cycle), s.id()),
            root_live(old(cycle).spec_roots(), s.id()) && old(cycle).resolved(s.id()) ==> final(cycle).spec_roots()[s.id() as int]->0.ptr == old(cycle).spec_roots()[s.id() as int]->0.ptr,
            final(cycle).outside_all() == (if root_live(old(cycle).spec_roots(), s.id()) {
                old(cycle).outside_all().insert(s.id(), old(cycle).outside(s.id()) + 1)
            } else {
                old(cycle).outside_all()
            }),
    {
        cycle.trace_root(s.inner, Ghost(0), Ghost(0), Ghost(false));
    }

    /// One more handle to the same object.
    pub fn clone(&self, heap: &mut Heap) -> (r: Result<Root, GcError>)
        requires
            old(heap).wf(),
        ensures
            final(heap).wf(),
            match r {
                Ok(root) => root.id() == self.id() && old(heap).retained_by(
                    final(heap),
                    self.id(),
                    Ok(()),
                ),
                Err(e) => old(heap).retained_by(final(heap), self.id(), Err(e)),
            },
    {
        match heap.retain(self.inner) {
            Ok(_) => Ok(Root { inner: self.inner }),
            Err(e) => Err(e),
        }
    }

    /// Gives the handle up. The object is not destroyed here: when no handle
    /// is left, the next cycle reclaims it unless something else reaches it.
    pub fn drop(self, heap: &mut Heap)
        requires
            old(heap).wf(),
        ensures
            final(heap).wf(),
            old(heap).released_by(final(heap), self.id()),
    {
        heap.release(self.inner);
    }
}

impl RootGc {
    /// The handle without its type.
    pub closed spec fn spec_root(&self) -> Root {
        self.root
    }

    /// The identity of the type of the object.
    pub closed spec fn spec_identity(&self) -> u64 {
        self.identity
    }

    /// The identity of the type of the object.
    pub fn identity(&self) -> (n: u64)
        ensures
            n == self.spec_identity(),
    {
        self.identity
    }

    /// The handle without its type.
    pub fn as_root(&self) -> (r: &Root)
        ensures
            *r == self.spec_root(),
    {
        &self.root
    }

    /// Gives up the type and keeps the handle.
    pub fn into_root(self) -> (r: Root)
        ensures
            r == self.spec_root(),
    {
        self.root
    }

    /// Roots the object that `gc` points to, keeping its type.
    pub fn from_gc(heap: &mut Heap, gc: Gc) -> (r: Result<RootGc, GcError>)
        requires
            old(heap).wf(),
        ensures
            final(heap).wf(),
            match r {
                Ok(typed) => old(heap).rooted_by(final(heap), gc.ptr, Ok(typed.spec_root().id()))
                    && typed.spec_identity() == old(heap).info_at(gc.ptr),
                Err(e) => old(heap).rooted_by(final(heap), gc.ptr, Err(e)),
            },
    {
        match heap.root(gc) {
            Ok(id) => {
                let identity: u64 = match heap.root_info(id) {
                    Some(i) => i,
                    None => {
                        proof {
                            assert(false);
                        }
                        0
                    },
                };
                Ok(RootGc { root: Root { inner: id }, identity })
            },
            Err(e) => Err(e),
        }
    }

    /// One more handle to the same object, of the same type.
    pub fn clone(&self, heap: &mut Heap) -> (r: Result<RootGc, GcError>)
        requires
            old(heap).wf(),
        ensures
            final(heap).wf(),
            match r {
                Ok(typed) => typed.spec_root() == self.spec_root() && typed.spec_identity()
                    == self.spec_identity() && old(heap).retained_by(
                    final(heap),
                    self.spec_root().id(),
                    Ok(()),
                ),
                Err(e) => old(heap).retained_by(final(heap), self.spec_root().id(), Err(e)),
            },
    {
        match self.root.clone(heap) {
            Ok(root) => Ok(RootGc { root, identity: self.identity }),
            Err(e) => Err(e),
        }
    }

    /// A copy of the bytes of the object, read at its current place.
    pub fn deref(&self, heap: &Heap) -> (r: Option<Vec<u8>>)
        requires
            heap.wf(),
        ensures
            r is Some <==> heap.spec_deref(self.spec_root().id()) is Some,
            r matches Some(v) ==> Some(v@) == heap.spec_deref(self.spec_root().id()),
    {
        heap.deref(self.root.inner)
    }

    /// Converts a handle into a typed handle if its object is of the type
    /// with identity `identity`. A handle that is refused is given up.
    pub fn try_from(root: Root, heap: &mut Heap, identity: u64) -> (r: Result<RootGc, GcError>)
        requires
            old(heap).wf(),
        ensures
            final(heap).wf(),
            match r {
                Ok(typed) => {
                    &&& typed.spec_root() == root
                    &&& typed.spec_identity() == identity
                    &&& old(heap).stored_identity(root.id()) == Some(identity)
                    &&& final(heap).same(old(heap))
                },
                Err(e) => {
                    &&& old(heap).released_by(final(heap), root.id())
                    &&& match old(heap).stored_identity(root.id()) {
                        Some(stored) => stored != identity && e == (GcError::TypeMismatch {
                            stored,
                            requested: identity,
                        }),
                        None => e == GcError::InvariantViolation,
                    }
                },
            },
    {
        match heap.root_info(root.inner) {
            Some(stored) => {
                if stored == identity {
                    Ok(RootGc { root, identity })
                } else {
                    root.drop(heap);
                    Err(GcError::TypeMismatch { stored, requested: identity })
                }
            },
            None => {
                root.drop(heap);
                Err(GcError::InvariantViolation)
            },
        }
    }
}

impl RootInner {
    /// The entry of a root that was just made for the object at `ptr` of
    /// descriptor `trace_fn`, under generation `marker`: one handle, none
    /// traced.
    pub fn new(ptr: u64, trace_fn: usize, marker: bool) -> (r: RootInner)
        ensures
            r == (RootInner { ptr, trace_fn, collection_marker: marker, traced_count: 0, ref_count: 1 }),
    {
        RootInner { ptr, trace_fn, collection_marker: marker, traced_count: 0, ref_count: 1 }
    }

    /// The count of handles found inside the heap in the cycle of generation
    /// `marker`: a count taken under another generation is stale and reads
    /// as zero.
    pub open spec fn effective_traced(&self, marker: bool) -> usize {
        if self.collection_marker == marker {
            self.traced_count
        } else {
            0
        }
    }

    /// The value after one more handle was found inside the heap under
    /// generation `marker`. The count never passes `ref_count`.
    pub open spec fn spec_note_traced(self, marker: bool) -> RootInner {
        RootInner {
            collection_marker: marker,
            traced_count: if self.effective_traced(marker) < self.ref_count {
                (self.effective_traced(marker) + 1) as usize
            } else {
                self.effective_traced(marker)
            },
            ..self
        }
    }

    /// Counts one handle found inside the heap under generation `marker`, and
    /// says whether every handle has now been found there. A stale count is
    /// reset first.
    pub fn note_traced(&mut self, marker: bool) -> (all: bool)
        ensures
            *final(self) == old(self).spec_note_traced(marker),
            all == (final(self).traced_count == final(self).ref_count),
    {
        let seen: usize = if self.collection_marker == marker {
            self.traced_count
        } else {
            0
        };
        self.collection_marker = marker;
        if seen < self.ref_count {
            self.traced_count = seen + 1;
        } else {
            self.traced_count = seen;
        }
        self.traced_count == self.ref_count
    }
}

/// What rooting an object with a given status has to do.
#[derive(Clone, Copy, Debug, PartialEq, Eq, Structural)]
pub enum Rooting {
    /// The object has no root yet: a new `RootInner` is made.
    Fresh,
    /// The object is rooted: the `RootInner` of that number is shared.
    Shared(u64),
    /// The object was moved or dropped: it cannot be rooted.
    Refused,
}

/// Decides from the status of an object how it is rooted.
pub fn rooting(status: Option<ObjectStatus>) -> (r: Rooting)
    ensures
        r == spec_rooting(status),
{
    match status {
        None => Rooting::Fresh,
        Some(ObjectStatus::Rooted(id)) => Rooting::Shared(id),
        Some(ObjectStatus::Moved(_)) => Rooting::Refused,
        Some(ObjectStatus::Dropped) => Rooting::Refused,
    }
}

/// How an object with the given status is rooted.
pub open spec fn spec_rooting(status: Option<ObjectStatus>) -> Rooting {
    match status {
        None => Rooting::Fresh,
        Some(ObjectStatus::Rooted(id)) => Rooting::Shared(id),
        Some(ObjectStatus::Moved(_)) => Rooting::Refused,
        Some(ObjectStatus::Dropped) => Rooting::Refused,
    }
}

} // verus!
