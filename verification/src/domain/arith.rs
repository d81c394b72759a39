//! Saturating integer arithmetic on amounts: results that do not fit in an
//! `i64` stick at its bounds instead of panicking.

use vstd::prelude::*;

verus! {

/// `x` clamped to the `i64` range.
pub open spec fn clamp_i64(x: int) -> int {
    if x > i64::MAX {
        i64::MAX as int
    } else if x < i64::MIN {
        i64::MIN as int
    } else {
        x
    }
}

/// Integer division rounding toward zero (Rust's `/`).
pub open spec fn trunc_div(a: int, b: int) -> int {
    let q = (if a < 0 { -a } else { a }) / (if b < 0 { -b } else { b });
    if (a < 0) != (b < 0) {
        -q
    } else {
        q
    }
}

/// `a.saturating_add(b)`.
pub fn sat_add(a: i64, b: i64) -> (r: i64)
    ensures
        r == clamp_i64(a + b),
{
    match a.checked_add(b) {
        Some(v) => v,
        None => if b > 0 {
            i64::MAX
        } else {
            i64::MIN
        },
    }
}

/// `a.saturating_sub(b)`.
pub fn sat_sub(a: i64, b: i64) -> (r: i64)
    ensures
        r == clamp_i64(a - b),
{
    match a.checked_sub(b) {
        Some(v) => v,
        None => if b < 0 {
            i64::MAX
        } else {
            i64::MIN
        },
    }
}

/// `a.saturating_mul(b)`.
pub fn sat_mul(a: i64, b: i64) -> (r: i64)
    ensures
        r == clamp_i64(a * b),
{
    match a.checked_mul(b) {
        Some(v) => v,
        None => {
            if (a < 0) == (b < 0) {
                assert(a * b > i64::MAX) by (nonlinear_arith)
                    requires
                        (a < 0) == (b < 0),
                        !(i64::MIN <= a * b <= i64::MAX),
                ;
                i64::MAX
            } else {
                assert(a * b < i64::MIN) by (nonlinear_arith)
                    requires
                        (a < 0) != (b < 0),
                        !(i64::MIN <= a * b <= i64::MAX),
                ;
                i64::MIN
            }
        },
    }
}

/// The magnitude of `n`.
fn magnitude(n: i64) -> (r: u64)
    ensures
        r as int == (if n < 0 { -n } else { n as int }),
{
    if n < 0 {
        ((-(n + 1)) as u64) + 1
    } else {
        n as u64
    }
}

/// `a.saturating_div(b)`: division rounding toward zero; only `i64::MIN / -1`
/// saturates.
pub fn sat_div(a: i64, b: i64) -> (r: i64)
    requires
        b != 0,
    ensures
        r == clamp_i64(trunc_div(a as int, b as int)),
{
    let ma = magnitude(a);
    let mb = magnitude(b);
    let q = ma / mb;
    assert(q <= ma) by {
        vstd::arithmetic::div_mod::lemma_div_is_ordered_by_denominator(ma as int, 1, mb as int);
    }
    if (a < 0) != (b < 0) {
        ((0 - (q as i128)) as i64)
    } else {
        if q > i64::MAX as u64 {
            i64::MAX
        } else {
            q as i64
        }
    }
}

/// Division rounding toward zero leaves the `i64` range only for `i64::MIN / -1`.
pub proof fn lemma_trunc_div_fits(a: int, b: int)
    requires
        i64::MIN <= a <= i64::MAX,
        i64::MIN <= b <= i64::MAX,
        b != 0,
        !(a == i64::MIN && b == -1),
    ensures
        i64::MIN <= trunc_div(a, b) <= i64::MAX,
        clamp_i64(trunc_div(a, b)) == trunc_div(a, b),
{
    let ma = if a < 0 { -a } else { a };
    let mb = if b < 0 { -b } else { b };
    let q = ma / mb;
    assert(0 <= q <= ma) by {
        vstd::arithmetic::div_mod::lemma_div_is_ordered_by_denominator(ma, 1, mb);
        vstd::arithmetic::div_mod::lemma_div_pos_is_pos(ma, mb);
    }
    if ma == 0x8000_0000_0000_0000 && mb >= 2 {
        assert(q <= ma / 2) by {
            vstd::arithmetic::div_mod::lemma_div_is_ordered_by_denominator(ma, 2, mb);
        }
    }
}

} // verus!
