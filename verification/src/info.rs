//! Type descriptors: what the collector knows of a type whose values live on
//! the managed heap, and the trace function that a descriptor stands for.

use vstd::prelude::*;
use vstd::arithmetic::div_mod::{lemma_mod_multiples_basic, lemma_mod_multiples_vanish};
use crate::layout::{align_up, BLOCK_SIZE, HEADER_SIZE, lemma_align_up};
use crate::space::fresh_fits;

verus! {

/// How the collector treats what a pointer field holds.
#[derive(Clone, Copy, Debug, PartialEq, Eq, Hash, Structural)]
pub enum TraceFn {
    /// The field is a managed pointer: the address of an object, or zero.
    /// The target is traced by the descriptor of its own type.
    Gc,
    /// The field is a `Root` handle kept inside the heap: the number of a
    /// `RootInner`, or zero. It is traced by `Root::trace`.
    Root,
}

/// One pointer field of a type: its offset inside a value and what it holds.
#[derive(Clone, Copy, Debug, PartialEq, Eq, Hash, Structural)]
pub struct Slot {
    pub offset: usize,
    pub trace_fn: TraceFn,
}

/// The address of one pointer field of one object, with the trace function
/// that applies to what the field holds.
#[derive(Clone, Copy, Debug, PartialEq, Eq, Hash, Structural)]
pub struct TraceAt {
    /// Address of the field, not of what it points to.
    pub ptr_to_gc: u64,
    pub trace_fn: TraceFn,
}

impl TraceAt {
    /// The entry for the pointer field at address `ptr_to_gc`.
    pub fn of_val(ptr_to_gc: u64, trace_fn: TraceFn) -> (t: TraceAt)
        ensures
            t == (TraceAt { ptr_to_gc, trace_fn }),
    {
        TraceAt { ptr_to_gc, trace_fn }
    }
}

/// The descriptor of a type: layout, pointer fields, whether values may be
/// discarded without running a destructor, and the identity that runtime
/// type checks compare.
#[derive(Debug)]
pub struct Info {
    pub size: usize,
    pub align: usize,
    pub slots: Vec<Slot>,
    pub safe_to_drop: bool,
    pub identity: u64,
}

/// Whether `slots` are pointer fields of a value of `size` bytes: each inside
/// the value, in ascending order, none overlapping the next.
pub open spec fn slots_fit(slots: Seq<Slot>, size: int) -> bool {
    &&& forall|i: int| 0 <= i < slots.len() ==> (#[trigger] slots[i]).offset + 8 <= size
    &&& forall|i: int, j: int|
        0 <= i < j < slots.len() ==> (#[trigger] slots[i]).offset + 8 <= (#[trigger] slots[j]).offset
}

/// The entries that tracing an object at `obj` with pointer fields `slots`
/// yields: one per field, in field order.
pub open spec fn spec_trace(slots: Seq<Slot>, obj: u64) -> Seq<TraceAt> {
    Seq::new(
        slots.len(),
        |k: int| TraceAt { ptr_to_gc: (obj + slots[k].offset) as u64, trace_fn: slots[k].trace_fn },
    )
}

impl Info {
    /// A descriptor that the heap accepts: values are not empty, the block
    /// size is a multiple of the alignment, a value fits into an empty
    /// block, and the pointer fields lie inside a value without overlap.
    pub open spec fn wf(&self) -> bool {
        &&& self.size > 0
        &&& self.align > 0
        &&& BLOCK_SIZE as int % self.align as int == 0
        &&& fresh_fits(BLOCK_SIZE as int, self.size, self.align)
        &&& slots_fit(self.slots@, self.size as int)
    }

    /// Tests `wf`.
    pub fn check(&self) -> (ok: bool)
        ensures
            ok == self.wf(),
    {
        if self.size == 0 || self.align == 0 {
            return false;
        }
        if self.size as u64 > BLOCK_SIZE || self.align as u64 > BLOCK_SIZE {
            proof {
                lemma_align_up(BLOCK_SIZE + HEADER_SIZE, self.align as int);
                lemma_align_up(self.size as int, self.align as int);
                if self.align > BLOCK_SIZE {
                    assert(BLOCK_SIZE as int % self.align as int == BLOCK_SIZE) by (nonlinear_arith)
                        requires
                            self.align > BLOCK_SIZE,
                    ;
                }
            }
            return false;
        }
        if BLOCK_SIZE % (self.align as u64) != 0 {
            return false;
        }
        let start: u64 = match align_up(BLOCK_SIZE + HEADER_SIZE, self.align as u64) {
            Some(s) => s,
            None => { return false; },
        };
        let occupied: u64 = match align_up(self.size as u64, self.align as u64) {
            Some(o) => o,
            None => { return false; },
        };
        proof {
            lemma_align_up(BLOCK_SIZE + HEADER_SIZE, self.align as int);
            lemma_align_up(self.size as int, self.align as int);
        }
        if start + occupied > 2 * BLOCK_SIZE {
            return false;
        }
        let n: usize = self.slots.len();
        let mut i: usize = 0;
        let mut floor: usize = 0;
        while i < n
            invariant
                i <= n,
                n == self.slots@.len(),
                floor <= self.size,
                i == 0 ==> floor == 0,
                i > 0 ==> floor == self.slots@[i - 1].offset + 8,
                forall|k: int| 0 <= k < i ==> (#[trigger] self.slots@[k]).offset + 8 <= self.size,
                forall|k: int, l: int|
                    0 <= k < l < i ==> (#[trigger] self.slots@[k]).offset + 8 <= (
                    #[trigger] self.slots@[l]).offset,
            decreases n - i,
        {
            let off: usize = self.slots[i].offset;
            if off < floor || off > self.size || self.size - off < 8 {
                proof {
                    if slots_fit(self.slots@, self.size as int) {
                        assert(self.slots@[i as int].offset + 8 <= self.size);
                        if i > 0 {
                            assert(self.slots@[i - 1].offset + 8 <= self.slots@[i as int].offset);
                        }
                    }
                }
                return false;
            }
            floor = off + 8;
            i = i + 1;
        }
        true
    }

    /// The trace function of the type: appends to `out` one entry per pointer
    /// field of the object at `obj`, without reading the object.
    pub fn trace(&self, obj: u64, out: &mut Vec<TraceAt>)
        requires
            slots_fit(self.slots@, self.size as int),
            obj + self.size <= u64::MAX,
        ensures
            final(out)@ == old(out)@ + spec_trace(self.slots@, obj),
    {
        let n: usize = self.slots.len();
        let mut i: usize = 0;
        let ghost all = spec_trace(self.slots@, obj);
        while i < n
            invariant
                i <= n,
                n == self.slots@.len(),
                slots_fit(self.slots@, self.size as int),
                obj + self.size <= u64::MAX,
                all == spec_trace(self.slots@, obj),
                out@ == old(out)@ + all.subrange(0, i as int),
            decreases n - i,
        {
            let slot = self.slots[i];
            assert(self.slots@[i as int].offset + 8 <= self.size);
            out.push(TraceAt::of_val(obj + slot.offset as u64, slot.trace_fn));
            i = i + 1;
            assert(out@ == old(out)@ + all.subrange(0, i as int));
        }
        assert(all.subrange(0, n as int) == all);
    }
}

/// A value that fits into an empty block at address `BLOCK_SIZE` fits into an
/// empty block at every multiple of the block size, when the block size is a
/// multiple of its alignment.
pub proof fn lemma_fresh_fits(base: int, size: usize, align: usize)
    requires
        base >= 0,
        base % (BLOCK_SIZE as int) == 0,
        align > 0,
        BLOCK_SIZE as int % align as int == 0,
        fresh_fits(BLOCK_SIZE as int, size, align),
    ensures
        fresh_fits(base, size, align),
{
    let a = align as int;
    let b = BLOCK_SIZE as int;
    let h = HEADER_SIZE as int;
    lemma_multiple_of_multiple(base, b, a);
    lemma_multiple_of_multiple(b, b, a);
    lemma_shift_mod(base, h, a);
    lemma_shift_mod(b, h, a);
}

/// A multiple of `b` is a multiple of every divisor of `b`.
proof fn lemma_multiple_of_multiple(x: int, b: int, a: int)
    requires
        x >= 0,
        a > 0,
        b > 0,
        x % b == 0,
        b % a == 0,
    ensures
        x % a == 0,
{
    assert(x == b * (x / b)) by (nonlinear_arith)
        requires
            x % b == 0,
            b > 0,
    ;
    assert(b == a * (b / a)) by (nonlinear_arith)
        requires
            b % a == 0,
            a > 0,
    ;
    assert(x == ((b / a) * (x / b)) * a) by (nonlinear_arith)
        requires
            x == b * (x / b),
            b == a * (b / a),
    ;
    lemma_mod_multiples_basic((b / a) * (x / b), a);
}

/// Adding a multiple of `a` does not change the remainder modulo `a`.
proof fn lemma_shift_mod(x: int, h: int, a: int)
    requires
        x >= 0,
        a > 0,
        x % a == 0,
    ensures
        (x + h) % a == h % a,
{
    assert(x == a * (x / a)) by (nonlinear_arith)
        requires
            x % a == 0,
            a > 0,
    ;
    lemma_mod_multiples_vanish(x / a, h, a);
}

} // verus!
