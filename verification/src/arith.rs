//! Thirty-two bit arithmetic as the machine performs it: the exact result,
//! wrapped into the range of `i32`.

use vstd::prelude::*;

verus! {

/// One of the four arithmetic operations.
#[derive(Debug, Copy, Clone, PartialEq, Eq, Structural)]
pub enum BinOp {
    Add,
    Sub,
    Mul,
    Div,
}

/// The `i32` that differs from `x` by a multiple of 2^32.
pub open spec fn wrap32(x: int) -> i32 {
    let r = x % 0x1_0000_0000;
    if r > i32::MAX {
        (r - 0x1_0000_0000) as i32
    } else {
        r as i32
    }
}

/// The quotient of `a` by `b`, rounded toward zero. Meaningful for `b != 0`.
pub open spec fn quotient(a: int, b: int) -> int {
    let q = (if a < 0 { -a } else { a }) / (if b < 0 { -b } else { b });
    if (a < 0) == (b < 0) {
        q
    } else {
        -q
    }
}

/// The exact result of `a op b`, before wrapping.
pub open spec fn exact(op: BinOp, a: int, b: int) -> int {
    match op {
        BinOp::Add => a + b,
        BinOp::Sub => a - b,
        BinOp::Mul => a * b,
        BinOp::Div => quotient(a, b),
    }
}

/// What the machine computes for `a op b`: nothing when dividing by zero,
/// otherwise the exact result wrapped to 32 bits.
pub open spec fn apply(op: BinOp, a: i32, b: i32) -> Option<i32> {
    if op == BinOp::Div && b == 0 {
        None
    } else {
        Some(wrap32(exact(op, a as int, b as int)))
    }
}

/// Wrapping leaves a value that already fits unchanged.
pub proof fn lemma_wrap32_in_range(x: int)
    requires
        i32::MIN <= x <= i32::MAX,
    ensures
        wrap32(x) == x,
{
}

/// Dividing a natural number by a positive one gives a natural number that is
/// no larger, and smaller by half or more when the divisor exceeds one.
proof fn lemma_div_bounds(x: int, d: int)
    by (nonlinear_arith)
    requires
        0 <= x,
        0 < d,
    ensures
        0 <= x / d <= x,
        d >= 2 ==> 2 * (x / d) <= x,
{
}

/// The quotient of two `i32` values fits in an `i32`, except for the one case
/// of the least value divided by minus one.
pub proof fn lemma_quotient_range(a: i32, b: i32)
    requires
        b != 0,
    ensures
        a == i32::MIN && b == -1 ==> quotient(a as int, b as int) == i32::MAX + 1,
        !(a == i32::MIN && b == -1) ==> i32::MIN <= quotient(a as int, b as int) <= i32::MAX,
{
    let x: int = if a < 0 { -a } else { a as int };
    let d: int = if b < 0 { -b } else { b as int };
    lemma_div_bounds(x, d);
    if d == 1 {
        assert(x / d == x) by (nonlinear_arith)
            requires
                d == 1,
        ;
    }
}

/// Computes `a op b` on the machine's integers.
pub fn compute(op: BinOp, a: i32, b: i32) -> (r: Option<i32>)
    ensures
        r == apply(op, a, b),
{
    match op {
        BinOp::Add => Some(a.wrapping_add(b)),
        BinOp::Sub => Some(a.wrapping_sub(b)),
        BinOp::Mul => Some(a.wrapping_mul(b)),
        BinOp::Div => {
            if b == 0 {
                None
            } else {
                proof {
                    lemma_quotient_range(a, b);
                }
                match a.checked_div(b) {
                    Some(q) => Some(q),
                    None => Some(i32::MIN),
                }
            }
        },
    }
}

} // verus!
