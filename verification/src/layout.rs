//! Address arithmetic shared by every block: the block size, the header that
//! precedes the objects, and rounding an address up to an alignment.

use vstd::prelude::*;

verus! {

/// Size in bytes of every block. Blocks start at multiples of this size.
pub const BLOCK_SIZE: u64 = 0x10000;

/// Bytes at the start of a block that are reserved for its header.
pub const HEADER_SIZE: u64 = 64;

/// The word a block header carries to show that it is a block header.
pub const BLOCK_MAGIC: u64 = 0x6763_626c_6f63_6b21;

/// Width in bytes of a managed pointer stored inside an object.
pub const WORD: usize = 8;

/// The least multiple of `align` that is not below `x`.
pub open spec fn spec_align_up(x: int, align: int) -> int {
    if x % align == 0 {
        x
    } else {
        x + (align - x % align)
    }
}

/// `spec_align_up` yields an aligned value, moves up by less than `align`, and
/// no aligned value lies between `x` and it.
pub proof fn lemma_align_up(x: int, align: int)
    requires
        x >= 0,
        align > 0,
    ensures
        x <= spec_align_up(x, align) < x + align,
        spec_align_up(x, align) % align == 0,
        forall|y: int| x <= y && y % align == 0 ==> spec_align_up(x, align) <= #[trigger] (y % align) + y,
{
    let r = spec_align_up(x, align);
    let m = x % align;
    assert(0 <= m < align) by (nonlinear_arith)
        requires
            m == x % align,
            align > 0,
    ;
    if m != 0 {
        assert((x + (align - m)) % align == 0) by (nonlinear_arith)
            requires
                m == x % align,
                align > 0,
                x >= 0,
        {
            assert(x == align * (x / align) + m);
            assert(x + (align - m) == align * (x / align + 1));
        }
    }
    assert forall|y: int| x <= y && y % align == 0 implies r <= #[trigger] (y % align) + y by {
        if m != 0 {
            lemma_no_multiple_between(x, y, align);
        }
    }
}

/// A multiple of `align` at or above an unaligned `x` is at least the next
/// multiple above `x`.
proof fn lemma_no_multiple_between(x: int, y: int, align: int)
    requires
        x >= 0,
        align > 0,
        x % align != 0,
        x <= y,
        y % align == 0,
    ensures
        x + (align - x % align) <= y,
{
    let m = x % align;
    let qx = x / align;
    let qy = y / align;
    assert(x == align * qx + m && 0 <= m < align) by (nonlinear_arith)
        requires
            m == x % align,
            qx == x / align,
            align > 0,
    ;
    assert(y == align * qy) by (nonlinear_arith)
        requires
            y % align == 0,
            qy == y / align,
            align > 0,
    ;
    assert(qy > qx) by (nonlinear_arith)
        requires
            x == align * qx + m,
            0 < m < align,
            y == align * qy,
            x <= y,
            align > 0,
    ;
    assert(align * qy >= align * (qx + 1)) by (nonlinear_arith)
        requires
            qy >= qx + 1,
            align > 0,
    ;
    assert(align * (qx + 1) == align * qx + align) by (nonlinear_arith);
}

/// Rounds `x` up to a multiple of `align`, or reports that the result does not
/// fit the address type.
pub fn align_up(x: u64, align: u64) -> (r: Option<u64>)
    requires
        align > 0,
    ensures
        r == (if spec_align_up(x as int, align as int) <= u64::MAX {
            Some(spec_align_up(x as int, align as int) as u64)
        } else {
            None
        }),
{
    let m: u64 = x % align;
    if m == 0 {
        Some(x)
    } else {
        let pad: u64 = align - m;
        if pad > u64::MAX - x {
            None
        } else {
            Some(x + pad)
        }
    }
}

/// The start of the block that holds `ptr`.
pub open spec fn spec_header_from(ptr: u64) -> u64 {
    (ptr - ptr % BLOCK_SIZE) as u64
}

/// The start of the block that holds `ptr`, computed by masking the low bits.
pub fn header_from(ptr: u64) -> (base: u64)
    ensures
        base == spec_header_from(ptr),
        base % BLOCK_SIZE == 0,
        base <= ptr < base + BLOCK_SIZE,
{
    let base: u64 = ptr & !0xffffu64;
    assert(ptr & !0xffffu64 == ptr - ptr % 0x10000) by (bit_vector);
    base
}

} // verus!
