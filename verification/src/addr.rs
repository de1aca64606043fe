//! Physical/virtual address arithmetic: 4 KiB frame and page alignment and
//! the four page-table index slices of a virtual address.

use vstd::prelude::*;

verus! {

/// Size of a physical frame and of a virtual page, in bytes.
pub const PAGE_SIZE: u64 = 4096;

/// Number of entries in one page table.
pub const TABLE_LEN: usize = 512;

/// The base address of the 4 KiB frame or page containing `a`.
pub open spec fn spec_page_base(a: u64) -> int {
    (a as int / 4096) * 4096
}

/// The offset of `a` within its 4 KiB frame or page.
pub open spec fn spec_page_offset(a: u64) -> int {
    a as int % 4096
}

/// `a` is the base of a 4 KiB frame or page.
pub open spec fn is_page_aligned(a: u64) -> bool {
    a as int % 4096 == 0
}

/// Index slice of a virtual address for a given table level (1 to 4):
/// bits 12..21 for level 1, then nine further bits per level.
pub open spec fn spec_table_index(va: u64, level: int) -> int {
    if level == 1 {
        (va as int / 0x1000) % 512
    } else if level == 2 {
        (va as int / 0x20_0000) % 512
    } else if level == 3 {
        (va as int / 0x4000_0000) % 512
    } else {
        (va as int / 0x80_0000_0000) % 512
    }
}

/// Rounds `a` down to its page base.
pub fn align_down(a: u64) -> (r: u64)
    ensures
        r == spec_page_base(a),
        is_page_aligned(r),
        r <= a,
{
    proof {
        assert(a / 4096 * 4096 % 4096 == 0 && a / 4096 * 4096 <= a) by (nonlinear_arith);
    }
    (a / 4096) * 4096
}

/// The offset of `a` within its page.
pub fn page_offset(a: u64) -> (r: u64)
    ensures
        r == spec_page_offset(a),
        r < 4096,
        spec_page_base(a) + r == a,
{
    proof {
        assert(a / 4096 * 4096 + a % 4096 == a) by (nonlinear_arith);
    }
    a % 4096
}

/// The level-1 page-table index of `va` (bits 12..21).
pub fn p1_index(va: u64) -> (r: usize)
    ensures
        r == spec_table_index(va, 1),
        r < 512,
{
    proof {
        assert((va >> 12) & 0x1ff == (va / 0x1000) % 512 && (va >> 12) & 0x1ff < 512)
            by (bit_vector);
    }
    ((va >> 12) & 0x1ff) as usize
}

/// The level-2 page-table index of `va` (bits 21..30).
pub fn p2_index(va: u64) -> (r: usize)
    ensures
        r == spec_table_index(va, 2),
        r < 512,
{
    proof {
        assert((va >> 21) & 0x1ff == (va / 0x20_0000) % 512 && (va >> 21) & 0x1ff < 512)
            by (bit_vector);
    }
    ((va >> 21) & 0x1ff) as usize
}

/// The level-3 page-table index of `va` (bits 30..39).
pub fn p3_index(va: u64) -> (r: usize)
    ensures
        r == spec_table_index(va, 3),
        r < 512,
{
    proof {
        assert((va >> 30) & 0x1ff == (va / 0x4000_0000) % 512 && (va >> 30) & 0x1ff < 512)
            by (bit_vector);
    }
    ((va >> 30) & 0x1ff) as usize
}

/// The level-4 page-table index of `va` (bits 39..48).
pub fn p4_index(va: u64) -> (r: usize)
    ensures
        r == spec_table_index(va, 4),
        r < 512,
{
    proof {
        assert((va >> 39) & 0x1ff == (va / 0x80_0000_0000) % 512 && (va >> 39) & 0x1ff < 512)
            by (bit_vector);
    }
    ((va >> 39) & 0x1ff) as usize
}

} // verus!
