//! What changed in a tree since it was last painted, as a bit mask.
use vstd::prelude::*;

verus! {

pub const NONE: u32 = 0;

/// Colour, opacity, border or shadow.
pub const VISUAL: u32 = 1;

/// Layout style: layout has to run again.
pub const TRANSFORM: u32 = 2;

/// Nodes were added, removed, shown or hidden.
pub const TREE: u32 = 4;

/// Glass, or what lies under it: the backdrop has to be blurred again.
pub const BACKDROP: u32 = 8;

/// Scroll offset or scrollbar state. Positions are stale, layout is not.
pub const SCROLL: u32 = 16;

/// All of the above.
pub const ANY: u32 = 31;

/// `ANY` is the union of the other flags, and no two of them overlap.
pub proof fn any_is_every_flag()
    ensures
        ANY == VISUAL | TRANSFORM | TREE | BACKDROP | SCROLL,
        VISUAL & (TRANSFORM | TREE | BACKDROP | SCROLL) == 0,
        TRANSFORM & (TREE | BACKDROP | SCROLL) == 0,
        TREE & (BACKDROP | SCROLL) == 0,
        BACKDROP & SCROLL == 0,
{
    assert(31u32 == 1u32 | 2u32 | 4u32 | 8u32 | 16u32 && 1u32 & (2u32 | 4u32 | 8u32 | 16u32) == 0
        && 2u32 & (4u32 | 8u32 | 16u32) == 0 && 4u32 & (8u32 | 16u32) == 0 && 8u32 & 16u32 == 0)
        by (bit_vector);
}

/// Raising flags keeps those already raised.
pub proof fn raising_keeps(d: u32, m: u32, f: u32)
    ensures
        (d | m) & f == (d & f) | (m & f),
        (d | m) & m == m,
        m & f == 0 ==> (d | m) & f == d & f,
{
    assert((d | m) & f == (d & f) | (m & f)) by (bit_vector);
    assert((d | m) & m == m) by (bit_vector);
    assert(m & f == 0 ==> (d | m) & f == d & f) by (bit_vector);
}

} // verus!
