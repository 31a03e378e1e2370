//! Ordering on the circular 32-bit sequence space.
use vstd::prelude::*;

verus! {

/// Number of distinct sequence numbers.
pub open spec fn ring_size() -> int {
    0x1_0000_0000
}

/// Distance travelled forward on the ring from `from` to `to`, in `[0, 2^32)`.
pub open spec fn ring_offset(from: int, to: int) -> int {
    (to - from) % ring_size()
}

#[verifier::opaque]
/// `x` lies strictly inside the circular open interval running forward from
/// `start` to `end`.
pub open spec fn strictly_between(start: int, x: int, end: int) -> bool {
    0 < ring_offset(start, x) && ring_offset(start, x) < ring_offset(start, end)
}

/// Sequence number `a + b`, modulo 2^32.
#[verifier::opaque]
pub open spec fn seq_add(a: u32, b: int) -> u32 {
    ((a + b) % ring_size()) as u32
}

/// Whether `x` lies strictly between `start` and `end` on the wrapping
/// 32-bit sequence space.
pub fn is_between_wrapped(start: u32, x: u32, end: u32) -> (r: bool)
    ensures
        r == strictly_between(start as int, x as int, end as int),
{
    reveal(strictly_between);
    if start == x {
        false
    } else if start < x {
        !(end >= start && end <= x)
    } else {
        end < start && end > x
    }
}

/// `a + b` on the sequence space.
pub fn seq_plus(a: u32, b: u32) -> (r: u32)
    ensures
        r == seq_add(a, b as int),
{
    reveal(seq_add);
    a.wrapping_add(b)
}

/// `a - b` on the sequence space.
pub fn seq_minus(a: u32, b: u32) -> (r: u32)
    ensures
        r == seq_add(a, -(b as int)),
{
    reveal(seq_add);
    a.wrapping_sub(b)
}

} // verus!
