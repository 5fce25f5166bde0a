use vstd::prelude::*;

verus! {

/// The smaller of two integers.
pub open spec fn min_int(a: int, b: int) -> int {
    if a <= b {
        a
    } else {
        b
    }
}

/// How many bytes a buffer of `total` bytes still offers at `offset`:
/// `total - offset`, or nothing once the offset is at or past the end.
pub open spec fn avail_after(total: int, offset: int) -> int {
    if offset <= total {
        total - offset
    } else {
        0
    }
}

/// The exact size of a bounded transfer of at most `len` bytes starting at
/// `offset` into a buffer of `total` bytes, when the endpoint itself
/// imposes no further limit.
pub open spec fn transfer_cap(len: int, total: int, offset: int) -> int {
    min_int(len, avail_after(total, offset))
}

} // verus!
