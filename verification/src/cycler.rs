//! Cyclic index stepping, shared by frame selection and category selection.

use vstd::prelude::*;

verus! {

/// One step forward in a cycle of `length` slots, wrapping to the first.
pub open spec fn inc_spec(val: int, length: int) -> int {
    if val + 1 == length {
        0
    } else {
        val + 1
    }
}

/// One step backward in a cycle of `length` slots, wrapping to the last.
pub open spec fn dec_spec(val: int, length: int) -> int {
    if val == 0 {
        length - 1
    } else {
        val - 1
    }
}

/// Next index in a cycle of `length` slots: `val + 1`, or `0` past the end.
pub fn cyclical_increment(val: usize, length: usize) -> (r: usize)
    requires
        length > 0,
        val < length,
    ensures
        r == inc_spec(val as int, length as int),
        r < length,
{
    if val + 1 < length {
        val + 1
    } else {
        0
    }
}

/// Previous index in a cycle of `length` slots: `val - 1`, or the last slot
/// when `val` is `0`.
pub fn cyclical_decrement(val: usize, length: usize) -> (r: usize)
    requires
        length > 0,
        val < length,
    ensures
        r == dec_spec(val as int, length as int),
        r < length,
{
    if val == 0 {
        length - 1
    } else {
        val - 1
    }
}

/// Stepping forward from the last slot of a nonempty cycle returns to the
/// first slot, and stepping backward from the first lands on the last.
pub proof fn lemma_cycle_wraps(length: int)
    requires
        length >= 1,
    ensures
        inc_spec(length - 1, length) == 0,
        dec_spec(0, length) == length - 1,
{
}

/// Forward then backward, and backward then forward, are both the identity
/// on every in-range index.
pub proof fn lemma_cycle_inverse(val: int, length: int)
    requires
        0 <= val < length,
    ensures
        dec_spec(inc_spec(val, length), length) == val,
        inc_spec(dec_spec(val, length), length) == val,
{
}

} // verus!
