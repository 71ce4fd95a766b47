//! Machine arithmetic in mathematical terms: division that rounds towards
//! zero, and sums that wrap around.
use vstd::prelude::*;

verus! {

/// Division that rounds towards zero.
pub open spec fn trunc_div(a: int, b: int) -> int
    recommends
        b > 0,
{
    if a >= 0 {
        a / b
    } else {
        -((-a) / b)
    }
}

/// The sixteen-bit integer that is `x` up to a multiple of 65536.
pub open spec fn wrap16(x: int) -> int {
    (x + 32768) % 65536 - 32768
}

/// The thirty-two-bit integer that is `x` up to a multiple of 2^32.
pub open spec fn wrap32(x: int) -> int {
    (x + 2147483648) % 4294967296 - 2147483648
}

/// `x` within `lo` and `hi`.
pub open spec fn within(x: int, lo: int, hi: int) -> int {
    if x < lo {
        lo
    } else if x > hi {
        hi
    } else {
        x
    }
}

/// Adding with wrapping around, step by step, wraps the whole sum.
pub proof fn lemma_wrap16(a: int, w: int)
    ensures
        wrap16(wrap16(a) + w) == wrap16(a + w),
        wrap16(wrap16(a) - w) == wrap16(a - w),
        -32768 <= wrap16(a) < 32768,
        -32768 <= a < 32768 ==> wrap16(a) == a,
{
}

/// Adding with wrapping around, step by step, wraps the whole sum.
pub proof fn lemma_wrap32(a: int, w: int)
    ensures
        wrap32(wrap32(a) + w) == wrap32(a + w),
        wrap32(wrap32(a) - w) == wrap32(a - w),
        -2147483648 <= wrap32(a) < 2147483648,
        -2147483648 <= a < 2147483648 ==> wrap32(a) == a,
{
}

/// The size of a product.
pub proof fn lemma_product(n: int, w: int, k: int, m: int)
    requires
        0 <= n <= k,
        -m <= w <= m,
    ensures
        -(k * m) <= n * w <= k * m,
{
    assert(-(k * m) <= n * w <= k * m) by (nonlinear_arith)
        requires
            0 <= n <= k,
            -m <= w <= m,
    ;
}

pub fn clamp_i32(x: i32, lo: i32, hi: i32) -> (r: i32)
    requires
        lo <= hi,
    ensures
        r == within(x as int, lo as int, hi as int),
        lo <= r <= hi,
{
    if x < lo {
        lo
    } else if x > hi {
        hi
    } else {
        x
    }
}

} // verus!
