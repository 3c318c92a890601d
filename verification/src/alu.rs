//! The integer ALU: the register-immediate (`OP-IMM`) and register-register
//! (`OP`) groups of RV32I and the multiply/divide instructions of the M
//! extension.
//!
//! Arithmetic is specified on mathematical integers: `signed` reads a
//! register as two's complement, `wrap32` brings a result back modulo 2^32.
//! Logical operations and shifts are the bitwise operators on `u32`, with
//! `sra` the arithmetic right shift.

use vstd::prelude::*;
use vstd::arithmetic::power2::pow2;
use crate::isa::{Decoded, ALT_FUNCT7, M_FUNCT7};
use crate::word::{
    signed, wrap32, trunc_div, trunc_rem, abs, word_range, to_signed, to_word, wrap_i64, add_wrap,
    sub_wrap, lemma_wrap_near, lemma_wrap_shift,
};

verus! {

/// `1` for true, `0` for false.
pub open spec fn bool_word(b: bool) -> u32 {
    if b {
        1
    } else {
        0
    }
}

/// Arithmetic (sign-filling) right shift of `a` by `s < 32` places.
pub open spec fn sra(a: u32, s: u32) -> u32 {
    ((a as i32) >> s) as u32
}

/// Signed division with RISC-V semantics: rounds toward zero, and division
/// by zero yields all ones (-1).
pub open spec fn div_spec(a: u32, b: u32) -> u32 {
    if b == 0 {
        0xFFFF_FFFF
    } else {
        wrap32(trunc_div(signed(a), signed(b)))
    }
}

/// Signed remainder with RISC-V semantics: takes the sign of the dividend,
/// and the remainder of a division by zero is the dividend.
pub open spec fn rem_spec(a: u32, b: u32) -> u32 {
    if b == 0 {
        a
    } else {
        wrap32(trunc_rem(signed(a), signed(b)))
    }
}

/// The M-extension operation selected by `funct3`.
pub open spec fn muldiv_spec(a: u32, b: u32, funct3: u32) -> u32 {
    if funct3 == 0 {
        // mul: the low word of the product
        wrap32(a * b)
    } else if funct3 == 1 {
        // mulh: the high word of the signed × signed product
        wrap32((signed(a) * signed(b)) / word_range())
    } else if funct3 == 2 {
        // mulhsu: the high word of the signed × unsigned product
        wrap32((signed(a) * b) / word_range())
    } else if funct3 == 3 {
        // mulhu: the high word of the unsigned × unsigned product
        wrap32((a * b) / word_range())
    } else if funct3 == 4 {
        div_spec(a, b)
    } else if funct3 == 5 {
        // divu: division by zero yields all ones
        if b == 0 {
            0xFFFF_FFFF
        } else {
            a / b
        }
    } else if funct3 == 6 {
        rem_spec(a, b)
    } else {
        // remu: the remainder of a division by zero is the dividend
        if b == 0 {
            a
        } else {
            a % b
        }
    }
}

/// The result of an `OP-IMM` instruction on the source value `a`, or `None`
/// for a reserved encoding (a shift with a reserved `funct7`).
pub open spec fn op_imm_spec(a: u32, d: Decoded) -> Option<u32> {
    let imm = d.imm as int;
    let shamt = d.rs2;
    let f3 = d.funct3;
    if f3 == 0 {
        Some(wrap32(a + imm))  // addi

    } else if f3 == 1 {
        if d.funct7 == 0 {
            Some(a << shamt)  // slli

        } else {
            None
        }
    } else if f3 == 2 {
        Some(bool_word(signed(a) < imm))  // slti

    } else if f3 == 3 {
        Some(bool_word(a < wrap32(imm)))  // sltiu

    } else if f3 == 4 {
        Some(a ^ wrap32(imm))  // xori

    } else if f3 == 5 {
        if d.funct7 == 0 {
            Some(a >> shamt)  // srli

        } else if d.funct7 == 0x20 {
            Some(sra(a, shamt))  // srai

        } else {
            None
        }
    } else if f3 == 6 {
        Some(a | wrap32(imm))  // ori

    } else {
        Some(a & wrap32(imm))  // andi

    }
}

/// The result of an `OP` instruction on the source values `a` and `b`, or
/// `None` for a reserved `funct7`/`funct3` combination.
pub open spec fn op_spec(a: u32, b: u32, d: Decoded) -> Option<u32> {
    let f3 = d.funct3;
    let s = b % 32;
    if d.funct7 == 1 {
        Some(muldiv_spec(a, b, f3))
    } else if d.funct7 == 0 {
        if f3 == 0 {
            Some(wrap32(a + b))  // add

        } else if f3 == 1 {
            Some(a << s)  // sll

        } else if f3 == 2 {
            Some(bool_word(signed(a) < signed(b)))  // slt

        } else if f3 == 3 {
            Some(bool_word(a < b))  // sltu

        } else if f3 == 4 {
            Some(a ^ b)  // xor

        } else if f3 == 5 {
            Some(a >> s)  // srl

        } else if f3 == 6 {
            Some(a | b)  // or

        } else {
            Some(a & b)  // and

        }
    } else if d.funct7 == 0x20 {
        if f3 == 0 {
            Some(wrap32(a - b))  // sub

        } else if f3 == 5 {
            Some(sra(a, s))  // sra

        } else {
            None
        }
    } else {
        None
    }
}

/// Execute an `OP-IMM` instruction on the source value `a`; `None` marks a
/// reserved encoding.
pub(crate) fn op_imm(a: u32, d: Decoded) -> (r: Option<u32>)
    requires
        d.funct3 < 8,
        d.rs2 < 32,
    ensures
        r == op_imm_spec(a, d),
{
    let imm = d.imm;
    let uimm = to_word(imm);
    let shamt = d.rs2;
    let f3 = d.funct3;
    proof {
        lemma_wrap_near(imm as int);
        if imm < 0 {
            lemma_wrap_shift(a + imm, 1);
        }
        lemma_wrap_near(a + imm + 0);
    }
    if f3 == 0 {
        Some(add_wrap(a, uimm))  // addi

    } else if f3 == 1 {
        if d.funct7 == 0 {
            Some(a << shamt)  // slli

        } else {
            None
        }
    } else if f3 == 2 {
        Some(if to_signed(a) < imm { 1 } else { 0 })  // slti

    } else if f3 == 3 {
        Some(if a < uimm { 1 } else { 0 })  // sltiu

    } else if f3 == 4 {
        Some(a ^ uimm)  // xori

    } else if f3 == 5 {
        if d.funct7 == 0 {
            Some(a >> shamt)  // srli

        } else if d.funct7 == ALT_FUNCT7 {
            Some(((a as i32) >> shamt) as u32)  // srai

        } else {
            None
        }
    } else if f3 == 6 {
        Some(a | uimm)  // ori

    } else {
        Some(a & uimm)  // andi

    }
}

/// Execute an `OP` instruction on the source values `a` and `b`; `None`
/// marks a reserved encoding.
pub(crate) fn op(a: u32, b: u32, d: Decoded) -> (r: Option<u32>)
    requires
        d.funct3 < 8,
    ensures
        r == op_spec(a, b, d),
{
    let f3 = d.funct3;
    let s = b & 0x1f;
    assert(b & 0x1f == b % 32) by (bit_vector);
    if d.funct7 == M_FUNCT7 {
        Some(muldiv(a, b, f3))
    } else if d.funct7 == 0 {
        if f3 == 0 {
            Some(add_wrap(a, b))
        } else if f3 == 1 {
            Some(a << s)
        } else if f3 == 2 {
            Some(if to_signed(a) < to_signed(b) { 1 } else { 0 })
        } else if f3 == 3 {
            Some(if a < b { 1 } else { 0 })
        } else if f3 == 4 {
            Some(a ^ b)
        } else if f3 == 5 {
            Some(a >> s)
        } else if f3 == 6 {
            Some(a | b)
        } else {
            Some(a & b)
        }
    } else if d.funct7 == ALT_FUNCT7 {
        if f3 == 0 {
            Some(sub_wrap(a, b))
        } else if f3 == 5 {
            Some(((a as i32) >> s) as u32)
        } else {
            None
        }
    } else {
        None
    }
}

/// `floor(p / 2^32)`.
fn high_word(p: i64) -> (q: i64)
    requires
        p > i64::MIN,
    ensures
        q as int == (p as int) / word_range(),
{
    let d: i64 = 0x1_0000_0000;
    if p >= 0 {
        p / d
    } else {
        let n = -p - 1;
        let k = n / d;
        proof {
            let r = (n as int) % word_range();
            vstd::arithmetic::div_mod::lemma_fundamental_div_mod(n as int, word_range());
            vstd::arithmetic::div_mod::lemma_fundamental_div_mod_converse(
                p as int,
                word_range(),
                -(k as int) - 1,
                word_range() - r - 1,
            );
        }
        -k - 1
    }
}

/// Execute the M-extension multiply/divide instructions.
pub(crate) fn muldiv(a: u32, b: u32, funct3: u32) -> (r: u32)
    requires
        funct3 < 8,
    ensures
        r == muldiv_spec(a, b, funct3),
{
    if funct3 == 0 {
        a.wrapping_mul(b)  // mul

    } else if funct3 == 1 {
        // mulh
        let sa = to_signed(a) as i64;
        let sb = to_signed(b) as i64;
        assert(-0x4000_0000_0000_0000 <= sa * sb <= 0x4000_0000_0000_0000) by (nonlinear_arith)
            requires
                -0x8000_0000 <= sa < 0x8000_0000,
                -0x8000_0000 <= sb < 0x8000_0000,
        ;
        let q = high_word(sa * sb);
        assert(-0x4000_0000 <= (sa * sb) / word_range() <= 0x4000_0000);
        wrap_i64(q)
    } else if funct3 == 2 {
        // mulhsu
        let sa = to_signed(a) as i64;
        let ub = b as i64;
        assert(-0x8000_0000_0000_0000 < sa * ub < 0x8000_0000_0000_0000) by (nonlinear_arith)
            requires
                -0x8000_0000 <= sa < 0x8000_0000,
                0 <= ub < 0x1_0000_0000,
        ;
        let q = high_word(sa * ub);
        assert(-0x8000_0000 <= (sa * ub) / word_range() < 0x8000_0000);
        wrap_i64(q)
    } else if funct3 == 3 {
        // mulhu
        assert((a as int) * (b as int) <= 0xFFFF_FFFE_0000_0001) by (nonlinear_arith)
            requires
                a < 0x1_0000_0000,
                b < 0x1_0000_0000,
        ;
        let p = (a as u64) * (b as u64);
        proof {
            assert(p / 0x1_0000_0000 < 0x1_0000_0000);
        }
        (p / 0x1_0000_0000) as u32
    } else if funct3 == 4 {
        signed_div(a, b)  // div

    } else if funct3 == 5 {
        // divu by zero → all ones
        if b == 0 {
            u32::MAX
        } else {
            a / b
        }
    } else if funct3 == 6 {
        signed_rem(a, b)  // rem

    } else {
        // remu by zero → dividend
        if b == 0 {
            a
        } else {
            a % b
        }
    }
}

/// The quotient of a truncating division is no larger in magnitude than the
/// dividend.
proof fn lemma_trunc_div_magnitude(x: int, d: int)
    requires
        d != 0,
    ensures
        abs(trunc_div(x, d)) <= abs(x),
        abs(trunc_div(x, d)) == abs(x) ==> abs(d) == 1 || x == 0,
{
    vstd::arithmetic::div_mod::lemma_div_is_ordered_by_denominator(abs(x), 1, abs(d));
    if abs(d) >= 2 {
        vstd::arithmetic::div_mod::lemma_div_is_ordered_by_denominator(abs(x), 2, abs(d));
    }
}

/// Signed division with RISC-V semantics: div by zero yields -1, and the
/// signed-minimum / -1 overflow case yields the dividend (no trap).
fn signed_div(a: u32, b: u32) -> (r: u32)
    ensures
        r == div_spec(a, b),
{
    let sa = to_signed(a);
    let sb = to_signed(b);
    if sb == 0 {
        u32::MAX  // -1

    } else {
        proof {
            lemma_trunc_div_magnitude(sa as int, sb as int);
        }
        match sa.checked_div(sb) {
            Some(q) => to_word(q),
            None => a,
        }
    }
}

/// Signed remainder with RISC-V semantics: rem by zero yields the dividend,
/// and the signed-minimum / -1 overflow case yields 0.
fn signed_rem(a: u32, b: u32) -> (r: u32)
    ensures
        r == rem_spec(a, b),
{
    let sa = to_signed(a);
    let sb = to_signed(b);
    if sb == 0 {
        a
    } else {
        proof {
            vstd::arithmetic::div_mod::lemma_small_mod(0, abs(sb as int) as nat);
            vstd::arithmetic::div_mod::lemma_mod_multiples_basic(abs(sa as int), 1);
        }
        match sa.checked_rem(sb) {
            Some(m) => to_word(m),
            None => 0,
        }
    }
}

/// Division by zero does not trap: both quotients are all ones and both
/// remainders are the dividend.
pub proof fn lemma_division_by_zero(a: u32)
    ensures
        muldiv_spec(a, 0, 4) == 0xFFFF_FFFF,
        muldiv_spec(a, 0, 5) == 0xFFFF_FFFF,
        muldiv_spec(a, 0, 6) == a,
        muldiv_spec(a, 0, 7) == a,
{
}

/// The one signed overflow, the most negative value divided by -1, yields
/// the dividend with remainder zero.
pub proof fn lemma_division_overflow()
    ensures
        muldiv_spec(0x8000_0000, 0xFFFF_FFFF, 4) == 0x8000_0000,
        muldiv_spec(0x8000_0000, 0xFFFF_FFFF, 6) == 0,
{
    assert(signed(0x8000_0000) == -0x8000_0000);
    assert(signed(0xFFFF_FFFF) == -1);
    assert(trunc_div(-0x8000_0000, -1) == 0x8000_0000);
    vstd::arithmetic::div_mod::lemma_mod_multiples_basic(0x8000_0000, 1);
}

/// Truncating division and its remainder recombine to the dividend; the
/// remainder is smaller than the divisor in magnitude and is zero or has
/// the dividend's sign.
pub proof fn lemma_trunc_div_rem(x: int, d: int)
    requires
        d != 0,
    ensures
        x == d * trunc_div(x, d) + trunc_rem(x, d),
        abs(trunc_rem(x, d)) < abs(d),
        trunc_rem(x, d) == 0 || (trunc_rem(x, d) < 0) == (x < 0),
{
    let ax = abs(x);
    let ad = abs(d);
    let q = ax / ad;
    let r = ax % ad;
    vstd::arithmetic::div_mod::lemma_fundamental_div_mod(ax, ad);
    vstd::arithmetic::div_mod::lemma_mod_pos_bound(ax, ad);
    assert(x == d * trunc_div(x, d) + trunc_rem(x, d)) by (nonlinear_arith)
        requires
            ax == ad * q + r,
            ax == (if x < 0 { -x } else { x }),
            ad == (if d < 0 { -d } else { d }),
            trunc_div(x, d) == (if (x < 0) == (d < 0) { q } else { -q }),
            trunc_rem(x, d) == (if x < 0 { -r } else { r }),
    ;
}

/// `div` and `rem` on the same operands, read as signed numbers, are the
/// quotient rounded toward zero and its remainder: for a nonzero divisor
/// (other than the one overflow, the most negative value divided by -1),
/// `signed(a) == signed(b) * q + r` with `|r| < |signed(b)|` and `r` zero or
/// of the dividend's sign. So the quotient is negative exactly when the
/// operands' signs differ and `|a| >= |b|`.
pub proof fn lemma_signed_quotient_remainder(a: u32, b: u32)
    requires
        b != 0,
        !(a == 0x8000_0000 && b == 0xFFFF_FFFF),
    ensures
        signed(a) == signed(b) * signed(muldiv_spec(a, b, 4)) + signed(muldiv_spec(a, b, 6)),
        abs(signed(muldiv_spec(a, b, 6))) < abs(signed(b)),
        signed(muldiv_spec(a, b, 6)) == 0 || (signed(muldiv_spec(a, b, 6)) < 0) == (signed(a) < 0),
        (signed(muldiv_spec(a, b, 4)) < 0) == ((signed(a) < 0) != (signed(b) < 0) && abs(signed(a))
            >= abs(signed(b))),
{
    let x = signed(a);
    let y = signed(b);
    let q = trunc_div(x, y);
    let r = trunc_rem(x, y);
    lemma_trunc_div_rem(x, y);
    lemma_trunc_div_magnitude(x, y);
    lemma_wrap_near(q);
    lemma_wrap_near(r);
    let ax = abs(x);
    let ay = abs(y);
    vstd::arithmetic::div_mod::lemma_fundamental_div_mod(ax, ay);
    vstd::arithmetic::div_mod::lemma_mod_pos_bound(ax, ay);
    let q0 = ax / ay;
    let r0 = ax % ay;
    assert(q0 >= 0);
    assert((q0 >= 1) == (ax >= ay)) by (nonlinear_arith)
        requires
            ax == ay * q0 + r0,
            0 <= r0 < ay,
            q0 >= 0,
    ;
}

/// Unsigned division and remainder recombine to the dividend, and the
/// remainder is smaller than the divisor.
pub proof fn lemma_unsigned_div_rem(a: u32, b: u32)
    requires
        b != 0,
    ensures
        a == b * muldiv_spec(a, b, 5) + muldiv_spec(a, b, 7),
        muldiv_spec(a, b, 7) < b,
{
    vstd::arithmetic::div_mod::lemma_fundamental_div_mod(a as int, b as int);
}

/// The high and low words of the unsigned product make up the full 64-bit
/// product: `a * b == mulhu * 2^32 + mul`.
pub proof fn lemma_unsigned_product_halves(a: u32, b: u32)
    ensures
        a * b == muldiv_spec(a, b, 3) * word_range() + muldiv_spec(a, b, 0),
{
    let p = a * b;
    assert(0 <= p < word_range() * word_range()) by (nonlinear_arith)
        requires
            0 <= a < word_range(),
            0 <= b < word_range(),
            p == a * b,
    ;
    vstd::arithmetic::div_mod::lemma_fundamental_div_mod(p, word_range());
    vstd::arithmetic::div_mod::lemma_mod_pos_bound(p, word_range());
}

/// A value congruent to `p` modulo 2^32 has the same low word.
proof fn lemma_same_low_word(p: int, k: int, v: int)
    requires
        v == p + k * word_range(),
    ensures
        wrap32(v) == wrap32(p),
{
    crate::word::lemma_wrap_shift(p, k);
}

/// The high word of the signed product, read as signed, and the low word
/// make up the full signed product: `signed(a) * signed(b) == signed(mulh) *
/// 2^32 + mul`; likewise for `mulhsu` with `b` unsigned.
pub proof fn lemma_signed_product_halves(a: u32, b: u32)
    ensures
        signed(a) * signed(b) == signed(muldiv_spec(a, b, 1)) * word_range() + muldiv_spec(a, b, 0),
        signed(a) * b == signed(muldiv_spec(a, b, 2)) * word_range() + muldiv_spec(a, b, 0),
{
    let w = word_range();
    let sa = signed(a);
    let sb = signed(b);
    let ka: int = if a < 0x8000_0000 { 0 } else { 1 };
    let kb: int = if b < 0x8000_0000 { 0 } else { 1 };
    let p = sa * sb;
    let h = sa * b;
    assert(a * b == p + (ka * sb + kb * sa + ka * kb * w) * w) by (nonlinear_arith)
        requires
            a == sa + ka * w,
            b == sb + kb * w,
            p == sa * sb,
    ;
    assert(a * b == h + (ka * b) * w) by (nonlinear_arith)
        requires
            a == sa + ka * w,
            h == sa * b,
    ;
    assert(-0x4000_0000_0000_0000 <= p <= 0x4000_0000_0000_0000) by (nonlinear_arith)
        requires
            -0x8000_0000 <= sa < 0x8000_0000,
            -0x8000_0000 <= sb < 0x8000_0000,
            p == sa * sb,
    ;
    assert(-0x8000_0000 * w <= h < 0x8000_0000 * w) by (nonlinear_arith)
        requires
            -0x8000_0000 <= sa < 0x8000_0000,
            0 <= b < w,
            h == sa * b,
            w == 0x1_0000_0000,
    ;
    lemma_same_low_word(p, ka * sb + kb * sa + ka * kb * w, a * b);
    lemma_same_low_word(h, ka * b, a * b);
    vstd::arithmetic::div_mod::lemma_fundamental_div_mod(p, w);
    vstd::arithmetic::div_mod::lemma_fundamental_div_mod(h, w);
    vstd::arithmetic::div_mod::lemma_mod_bound(p, w);
    vstd::arithmetic::div_mod::lemma_mod_bound(h, w);
    lemma_wrap_near(p / w);
    lemma_wrap_near(h / w);
    lemma_wrap_near(p % w);
    lemma_wrap_near(h % w);
}

/// Shifts scale by powers of two: a logical left shift multiplies modulo
/// 2^32, a logical right shift divides rounding down, and an arithmetic right
/// shift divides the signed value rounding toward negative infinity.
pub proof fn lemma_shifts_scale(a: u32, s: u32)
    requires
        s < 32,
    ensures
        a << s == wrap32(a * pow2(s as nat)),
        a >> s == (a as nat) / pow2(s as nat),
        signed(sra(a, s)) == signed(a) / (pow2(s as nat) as int),
{
    let p = pow2(s as nat);
    vstd::arithmetic::power2::lemma2_to64();
    vstd::arithmetic::power2::lemma_pow2_pos(s as nat);
    if s < 31 {
        vstd::arithmetic::power2::lemma_pow2_strictly_increases(s as nat, 31);
    }
    vstd::bits::lemma_u32_shr_is_div(a, s);
    // Left shift: shift in 64 bits, where nothing is lost, then keep the low
    // word.
    let x = a as u64;
    let sh = s as u64;
    assert((a << s) as u64 == (x << sh) % 0x1_0000_0000u64) by (bit_vector)
        requires
            x == a as u64,
            sh == s as u64,
            s < 32,
    ;
    assert(x * p <= u64::MAX) by (nonlinear_arith)
        requires
            x < 0x1_0000_0000,
            p <= 0x8000_0000,
    ;
    vstd::bits::lemma_u64_shl_is_mul(x, sh);
    // Arithmetic right shift.
    if a < 0x8000_0000 {
        assert(((a as i32) >> s) as u32 == a >> s) by (bit_vector)
            requires
                a < 0x8000_0000u32,
        ;
        vstd::arithmetic::div_mod::lemma_div_is_ordered_by_denominator(a as int, 1, p as int);
    } else {
        let n = !a;
        assert(((a as i32) >> s) as u32 == !(n >> s) && n == 0xFFFF_FFFFu32 - a) by (bit_vector)
            requires
                n == !a,
                a >= 0x8000_0000u32,
                s < 32,
        ;
        vstd::bits::lemma_u32_shr_is_div(n, s);
        assert(!(n >> s) == 0xFFFF_FFFFu32 - (n >> s)) by (bit_vector);
        let q = (n as int) / (p as int);
        let r = (n as int) % (p as int);
        vstd::arithmetic::div_mod::lemma_fundamental_div_mod(n as int, p as int);
        vstd::arithmetic::div_mod::lemma_mod_pos_bound(n as int, p as int);
        vstd::arithmetic::div_mod::lemma_div_is_ordered_by_denominator(n as int, 1, p as int);
        assert(-1 - (n as int) == (-1 - q) * p + (p - 1 - r)) by (nonlinear_arith)
            requires
                n == p * q + r,
        ;
        vstd::arithmetic::div_mod::lemma_fundamental_div_mod_converse(
            -1 - (n as int),
            p as int,
            -1 - q,
            p - 1 - r,
        );
    }
}

} // verus!
