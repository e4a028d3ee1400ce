//! The stride of a task, and the order in which the stride scheduler picks tasks.
use vstd::prelude::*;
use core::cmp::Ordering;
use crate::config::BIG_STRIDE;

verus! {

/// The distance a task has run, in units of its pass, modulo 256.
#[derive(Clone, Copy, Debug)]
pub struct Stride(pub u8);

/// The distance from stride `b` forward to stride `a`, modulo 256.
pub open spec fn stride_diff(a: u8, b: u8) -> int {
    (a - b) % 256
}

/// The stride that distance `x` wraps to.
pub open spec fn wrap_u8(x: nat) -> u8 {
    (x % 256) as u8
}

/// A wrapped distance is the distance modulo 256.
pub proof fn lemma_wrap_u8(x: nat)
    ensures
        wrap_u8(x) == x % 256,
{
}

/// The order of two strides `a` and `b`: `a` is greater when it lies less than half of
/// `BIG_STRIDE` ahead of `b`, equal when it lies exactly that far ahead, and less
/// otherwise.
pub open spec fn stride_order_of(a: u8, b: u8) -> Ordering {
    if stride_diff(a, b) < BIG_STRIDE / 2 {
        Ordering::Greater
    } else if stride_diff(a, b) == BIG_STRIDE / 2 {
        Ordering::Equal
    } else {
        Ordering::Less
    }
}

/// Compares two strides as the scheduler does: half of `BIG_STRIDE` against the
/// wrapping difference `a - b`.
pub fn stride_order(a: Stride, b: Stride) -> (r: Ordering)
    ensures
        r == stride_order_of(a.0, b.0),
{
    let d = a.0.wrapping_sub(b.0);
    let half = BIG_STRIDE >> 1u8;
    assert(half == 127) by (bit_vector) requires half == 255u8 >> 1u8;
    if half > d {
        Ordering::Greater
    } else if half == d {
        Ordering::Equal
    } else {
        Ordering::Less
    }
}

} // verus!
