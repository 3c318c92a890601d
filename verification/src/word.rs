//! Mathematical meaning of 32-bit machine words.
//!
//! A register holds a `u32`. The specification talks about its value either
//! as an unsigned number (the `u32` itself) or as a two's-complement signed
//! number (`signed`), and brings integer results back into a register with
//! `wrap32` (reduction modulo 2^32).

use vstd::prelude::*;

verus! {

/// 2^32, the number of distinct register values.
pub open spec fn word_range() -> int {
    0x1_0000_0000
}

/// The two's-complement value of a register.
pub open spec fn signed(a: u32) -> int {
    if a < 0x8000_0000 {
        a as int
    } else {
        a as int - word_range()
    }
}

/// The register value congruent to `v` modulo 2^32.
pub open spec fn wrap32(v: int) -> u32 {
    (v % word_range()) as u32
}

/// The value of the low `width` bits of `v` read as a two's-complement
/// number, where `modulus` is 2^width and `0 <= v < modulus`.
pub open spec fn sext(v: int, modulus: int) -> int {
    if v >= modulus / 2 {
        v - modulus
    } else {
        v
    }
}

/// Truncating division of integers (rounds toward zero), with `d != 0`.
pub open spec fn trunc_div(x: int, d: int) -> int {
    let q = abs(x) / abs(d);
    if (x < 0) == (d < 0) {
        q
    } else {
        -q
    }
}

/// The remainder that goes with `trunc_div`: it has the sign of `x` and the
/// magnitude `|x| mod |d|`.
pub open spec fn trunc_rem(x: int, d: int) -> int {
    let m = abs(x) % abs(d);
    if x < 0 {
        -m
    } else {
        m
    }
}

/// Absolute value.
pub open spec fn abs(x: int) -> int {
    if x < 0 {
        -x
    } else {
        x
    }
}

/// Reading a `u32` as `i32` gives its two's-complement value.
pub proof fn lemma_as_i32(a: u32)
    ensures
        (a as i32) as int == signed(a),
{
    assert((a as i32) as i64 == (if a < 0x8000_0000u32 {
        a as i64
    } else {
        ((a as i64) - 0x1_0000_0000i64) as i64
    })) by (bit_vector);
}

/// Reading an `i32` as `u32` reduces it modulo 2^32.
pub proof fn lemma_as_u32(v: i32)
    ensures
        (v as u32) == wrap32(v as int),
{
    assert((v as u32) as i64 == (if v >= 0i32 {
        v as i64
    } else {
        ((v as i64) + 0x1_0000_0000i64) as i64
    })) by (bit_vector);
}

/// `wrap32` only depends on its argument modulo 2^32.
pub proof fn lemma_wrap_shift(v: int, k: int)
    ensures
        wrap32(v + k * word_range()) == wrap32(v),
{
    vstd::arithmetic::div_mod::lemma_mod_multiples_vanish(k, v, word_range());
}

/// Exec form of `signed`.
pub(crate) fn to_signed(a: u32) -> (r: i32)
    ensures
        r as int == signed(a),
{
    proof {
        lemma_as_i32(a);
    }
    a as i32
}

/// Exec form of `wrap32` on an `i32`.
pub(crate) fn to_word(v: i32) -> (r: u32)
    ensures
        r == wrap32(v as int),
{
    proof {
        lemma_as_u32(v);
    }
    v as u32
}

/// Exec form of `wrap32` on an `i64` that lies within one period below or
/// above zero.
pub(crate) fn wrap_i64(v: i64) -> (r: u32)
    requires
        -word_range() <= v < word_range(),
    ensures
        r == wrap32(v as int),
{
    if v >= 0 {
        v as u32
    } else {
        proof {
            lemma_wrap_shift(v as int, 1);
        }
        (v + 0x1_0000_0000) as u32
    }
}

/// `wrap32` of a value in `[0, 2^33)`.
pub proof fn lemma_wrap_small(v: int)
    requires
        0 <= v < 2 * word_range(),
    ensures
        wrap32(v) == (if v < word_range() { v } else { v - word_range() }),
{
    if v >= word_range() {
        lemma_wrap_shift(v - word_range(), 1);
    }
}

/// `wrap32` of a value within one period of the register range.
pub proof fn lemma_wrap_near(v: int)
    requires
        -word_range() <= v < 2 * word_range(),
    ensures
        wrap32(v) == (if v < 0 {
            v + word_range()
        } else if v < word_range() {
            v
        } else {
            v - word_range()
        }),
{
    if v < 0 {
        lemma_wrap_shift(v, 1);
    } else {
        lemma_wrap_small(v);
    }
}

/// Addition of registers modulo 2^32.
pub(crate) fn add_wrap(a: u32, b: u32) -> (r: u32)
    ensures
        r == wrap32(a + b),
{
    proof {
        lemma_wrap_small(a + b);
    }
    a.wrapping_add(b)
}

/// Subtraction of registers modulo 2^32.
pub(crate) fn sub_wrap(a: u32, b: u32) -> (r: u32)
    ensures
        r == wrap32(a - b),
{
    proof {
        if a < b {
            lemma_wrap_shift(a - b, 1);
        }
    }
    a.wrapping_sub(b)
}

} // verus!
