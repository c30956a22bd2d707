//! Two's-complement arithmetic on 32 bits: sums and products that wrap around.

use vstd::arithmetic::div_mod::{lemma_fundamental_div_mod, lemma_mod_multiples_vanish};
use vstd::prelude::*;

verus! {

/// The value that 32-bit two's-complement arithmetic keeps of `v`.
pub open spec fn wrap32(v: int) -> int {
    let m = v % 0x1_0000_0000;
    if m < 0x8000_0000 {
        m
    } else {
        m - 0x1_0000_0000
    }
}

/// Values that differ by a multiple of 2^32 wrap to the same value.
pub proof fn lemma_wrap_shift(v: int, q: int)
    ensures
        wrap32(v + q * 0x1_0000_0000) == wrap32(v),
{
    lemma_mod_multiples_vanish(q, v, 0x1_0000_0000);
    assert(q * 0x1_0000_0000 == 0x1_0000_0000 * q);
}

/// What wrapping takes away is a multiple of 2^32.
proof fn lemma_wrap_quotient(v: int) -> (q: int)
    ensures
        wrap32(v) == v - q * 0x1_0000_0000,
{
    lemma_fundamental_div_mod(v, 0x1_0000_0000);
    if v % 0x1_0000_0000 < 0x8000_0000 {
        v / 0x1_0000_0000
    } else {
        v / 0x1_0000_0000 + 1
    }
}

/// Wrapping keeps the values that fit.
pub proof fn lemma_wrap_keeps(v: int)
    requires
        i32::MIN <= v <= i32::MAX,
    ensures
        wrap32(v) == v,
{
}

/// A sum may be wrapped at once or part by part.
pub proof fn lemma_wrap_sum(a: int, b: int)
    ensures
        wrap32(wrap32(a) + b) == wrap32(a + b),
        wrap32(a + wrap32(b)) == wrap32(a + b),
{
    let p = lemma_wrap_quotient(a);
    let q = lemma_wrap_quotient(b);
    lemma_wrap_shift(a + b, -p);
    lemma_wrap_shift(a + b, -q);
}

/// A product may be wrapped at once or factor by factor.
pub proof fn lemma_wrap_product(a: int, b: int)
    ensures
        wrap32(wrap32(a) * b) == wrap32(a * b),
        wrap32(a * wrap32(b)) == wrap32(a * b),
{
    let p = lemma_wrap_quotient(a);
    let q = lemma_wrap_quotient(b);
    lemma_wrap_shift(a * b, -p * b);
    lemma_wrap_shift(a * b, -q * a);
    assert((a - p * 0x1_0000_0000) * b == a * b + (-p * b) * 0x1_0000_0000) by (nonlinear_arith);
    assert(a * (b - q * 0x1_0000_0000) == a * b + (-q * a) * 0x1_0000_0000) by (nonlinear_arith);
}

pub(crate) fn wrapping_sum(a: i32, b: i32) -> (r: i32)
    ensures
        r == wrap32(a + b),
{
    a.wrapping_add(b)
}

pub(crate) fn wrapping_difference(a: i32, b: i32) -> (r: i32)
    ensures
        r == wrap32(a - b),
{
    a.wrapping_sub(b)
}

pub(crate) fn wrapping_product(a: i32, b: i32) -> (r: i32)
    ensures
        r == wrap32(a * b),
{
    a.wrapping_mul(b)
}

} // verus!
