//! Byte-addressable memory model for the functional model.
//!
//! Implemented as a sparse map so any address may hold a byte without a fixed
//! address-space limit. Reads of unwritten addresses return `0`. Multi-byte
//! accesses are little-endian and their addresses wrap around the 32-bit
//! address space. The memory itself does not check alignment: the CPU raises
//! the misaligned-access traps before it touches memory.

use std::collections::BTreeMap;
use vstd::prelude::*;
use crate::word::{wrap32, word_range, lemma_wrap_near};
use vstd::arithmetic::power2::pow2;

verus! {

/// The byte stored at `a`; unwritten addresses hold 0.
pub open spec fn byte_at(m: Map<u32, u8>, a: u32) -> u8 {
    if m.contains_key(a) {
        m[a]
    } else {
        0
    }
}

/// The address `k` bytes after `a`, wrapping around the address space.
pub open spec fn offset(a: u32, k: int) -> u32 {
    wrap32(a + k)
}

/// 256^n.
pub open spec fn pow256(n: nat) -> nat
    decreases n,
{
    if n == 0 {
        1
    } else {
        256 * pow256((n - 1) as nat)
    }
}

/// The little-endian number held by the `n` bytes starting at `a`.
pub open spec fn load_le(m: Map<u32, u8>, a: u32, n: nat) -> nat
    decreases n,
{
    if n == 0 {
        0
    } else {
        byte_at(m, a) as nat + 256 * load_le(m, offset(a, 1), (n - 1) as nat)
    }
}

/// `m` after writing the low `n` bytes of `v` little-endian at `a`, lowest
/// address first.
pub open spec fn store_le(m: Map<u32, u8>, a: u32, n: nat, v: nat) -> Map<u32, u8>
    decreases n,
{
    if n == 0 {
        m
    } else {
        store_le(m.insert(a, (v % 256) as u8), offset(a, 1), (n - 1) as nat, v / 256)
    }
}

/// `m` after writing `bytes` one after another starting at `base`.
pub open spec fn store_image(m: Map<u32, u8>, base: u32, bytes: Seq<u8>) -> Map<u32, u8>
    decreases bytes.len(),
{
    if bytes.len() == 0 {
        m
    } else {
        store_image(m.insert(base, bytes[0]), offset(base, 1), bytes.drop_first())
    }
}

/// A sparse, little-endian byte-addressable memory.
#[derive(Debug)]
pub struct Memory {
    data: BTreeMap<u32, u8>,
}

impl View for Memory {
    type V = Map<u32, u8>;

    closed spec fn view(&self) -> Map<u32, u8> {
        self.data@
    }
}

impl Default for Memory {
    fn default() -> (r: Self)
        ensures
            r@ == Map::<u32, u8>::empty(),
    {
        Memory::new()
    }
}

impl Memory {
    /// Create an empty memory.
    pub fn new() -> (r: Self)
        ensures
            r@ == Map::<u32, u8>::empty(),
    {
        Memory { data: BTreeMap::new() }
    }

    /// Read a single byte; returns 0 for unwritten addresses.
    pub fn read_u8(&self, addr: u32) -> (r: u8)
        ensures
            r == byte_at(self@, addr),
    {
        match self.data.get(&addr) {
            Some(v) => *v,
            None => 0,
        }
    }

    /// Write a single byte.
    pub fn write_u8(&mut self, addr: u32, val: u8)
        ensures
            final(self)@ == old(self)@.insert(addr, val),
    {
        self.data.insert(addr, val);
    }

    /// Read `len` (1, 2, 4 or 8) bytes little-endian starting at `addr`.
    pub fn read_bytes(&self, addr: u32, len: u32) -> (r: u64)
        requires
            len <= 8,
        ensures
            r as nat == load_le(self@, addr, len as nat),
    {
        let mut v: u64 = 0;
        let mut j: u32 = len;
        while j > 0
            invariant
                j <= len <= 8,
                v as nat == load_le(self@, offset(addr, j as int), (len - j) as nat),
                v < pow256((len - j) as nat),
            decreases j,
        {
            j = j - 1;
            let b = self.read_u8(crate::word::add_wrap(addr, j));
            proof {
                lemma_offset_offset(addr, j as int, 1);
                lemma_pow256_bounds((len - j - 1) as nat);
            }
            v = v * 256 + b as u64;
        }
        v
    }

    /// Write `len` (1, 2, 4 or 8) bytes little-endian starting at `addr`.
    /// Only the low `8 * len` bits of `val` are used. For `len` < 8 the high
    /// bytes of `val` are ignored.
    pub fn write_bytes(&mut self, addr: u32, len: u32, val: u64)
        requires
            len <= 8,
        ensures
            final(self)@ == store_le(old(self)@, addr, len as nat, val as nat),
    {
        let mut cur: u64 = val;
        let mut i: u32 = 0;
        while i < len
            invariant
                i <= len <= 8,
                store_le(old(self)@, addr, len as nat, val as nat) == store_le(
                    self@,
                    offset(addr, i as int),
                    (len - i) as nat,
                    cur as nat,
                ),
            decreases len - i,
        {
            proof {
                lemma_offset_offset(addr, i as int, 1);
            }
            self.write_u8(crate::word::add_wrap(addr, i), (cur % 256) as u8);
            cur = cur / 256;
            i = i + 1;
        }
    }

    /// Convenience: read a 32-bit little-endian word.
    pub fn load_u32(&self, addr: u32) -> (r: u32)
        ensures
            r as nat == load_le(self@, addr, 4),
    {
        proof {
            lemma_load_le_bound(self@, addr, 4);
            reveal_with_fuel(pow256, 5);
        }
        self.read_bytes(addr, 4) as u32
    }

    /// Convenience: store a 32-bit little-endian word.
    pub fn store_u32(&mut self, addr: u32, val: u32)
        ensures
            final(self)@ == store_le(old(self)@, addr, 4, val as nat),
    {
        self.write_bytes(addr, 4, val as u64);
    }

    /// Load a raw binary image at `base` address, one byte at a time.
    pub fn load_image(&mut self, base: u32, bytes: &[u8])
        ensures
            final(self)@ == store_image(old(self)@, base, bytes@),
    {
        let mut i: usize = 0;
        let mut at: u32 = base;
        assert(bytes@.subrange(0, bytes@.len() as int) =~= bytes@);
        while i < bytes.len()
            invariant
                i <= bytes@.len(),
                store_image(old(self)@, base, bytes@) == store_image(
                    self@,
                    at,
                    bytes@.subrange(i as int, bytes@.len() as int),
                ),
            decreases bytes@.len() - i,
        {
            let ghost rest = bytes@.subrange(i as int, bytes@.len() as int);
            assert(rest.drop_first() =~= bytes@.subrange(i + 1, bytes@.len() as int));
            self.write_u8(at, bytes[i]);
            at = crate::word::add_wrap(at, 1);
            i = i + 1;
        }
    }
}

/// Reading a byte just written gives it back; other addresses keep their
/// bytes.
pub proof fn lemma_read_after_write_u8(m: Map<u32, u8>, a: u32, v: u8, b: u32)
    ensures
        byte_at(m.insert(a, v), b) == (if a == b {
            v
        } else {
            byte_at(m, b)
        }),
{
}

/// A fresh memory reads zero everywhere.
pub proof fn lemma_fresh_memory_reads_zero(a: u32)
    ensures
        byte_at(Map::<u32, u8>::empty(), a) == 0,
{
}

/// The distance from `a` forward to `b` in the wrapping address space.
pub open spec fn distance(a: u32, b: u32) -> int {
    wrap32(b - a) as int
}

/// One step forward from `a` brings `b` one byte closer.
proof fn lemma_distance_step(a: u32, b: u32)
    requires
        a != b,
    ensures
        distance(offset(a, 1), b) == distance(a, b) - 1,
{
    lemma_wrap_near(a + 1);
    lemma_wrap_near(b - a);
    lemma_wrap_near(b - offset(a, 1));
}

/// A little-endian store of `n` bytes at `a` leaves every address at least
/// `n` bytes past `a` (going forward, wrapping) unchanged.
pub proof fn lemma_store_le_outside(m: Map<u32, u8>, a: u32, n: nat, v: nat, b: u32)
    requires
        distance(a, b) >= n,
    ensures
        byte_at(store_le(m, a, n, v), b) == byte_at(m, b),
    decreases n,
{
    if n > 0 {
        lemma_wrap_near(b - a);
        lemma_distance_step(a, b);
        lemma_store_le_outside(m.insert(a, (v % 256) as u8), offset(a, 1), (n - 1) as nat, v / 256, b);
    }
}

/// Loading `n` bytes where `n` bytes of `v` were just stored gives back `v`
/// reduced to `n` bytes.
pub proof fn lemma_load_after_store(m: Map<u32, u8>, a: u32, n: nat, v: nat)
    requires
        n <= word_range(),
    ensures
        load_le(store_le(m, a, n, v), a, n) == v % pow256(n),
    decreases n,
{
    if n > 0 {
        let m1 = m.insert(a, (v % 256) as u8);
        let a1 = offset(a, 1);
        let rest = store_le(m1, a1, (n - 1) as nat, v / 256);
        lemma_wrap_near(a + 1);
        lemma_wrap_near(a - a1);
        lemma_store_le_outside(m1, a1, (n - 1) as nat, v / 256, a);
        lemma_load_after_store(m1, a1, (n - 1) as nat, v / 256);
        lemma_pow256_positive((n - 1) as nat);
        vstd::arithmetic::div_mod::lemma_mod_breakdown(v as int, 256, pow256((n - 1) as nat) as int);
    }
}

/// Loading an image leaves every address at least `bytes.len()` bytes past
/// `base` (going forward, wrapping) unchanged.
pub proof fn lemma_store_image_outside(m: Map<u32, u8>, base: u32, bytes: Seq<u8>, b: u32)
    requires
        distance(base, b) >= bytes.len(),
    ensures
        byte_at(store_image(m, base, bytes), b) == byte_at(m, b),
    decreases bytes.len(),
{
    if bytes.len() > 0 {
        lemma_wrap_near(b - base);
        lemma_distance_step(base, b);
        lemma_store_image_outside(m.insert(base, bytes[0]), offset(base, 1), bytes.drop_first(), b);
    }
}

/// After loading an image of at most 2^32 bytes, the byte `i` past `base`
/// is `bytes[i]`.
pub proof fn lemma_store_image_reads_back(m: Map<u32, u8>, base: u32, bytes: Seq<u8>, i: int)
    requires
        bytes.len() <= word_range(),
        0 <= i < bytes.len(),
    ensures
        byte_at(store_image(m, base, bytes), offset(base, i)) == bytes[i],
    decreases bytes.len(),
{
    let m1 = m.insert(base, bytes[0]);
    let b1 = offset(base, 1);
    lemma_wrap_near(base + 1);
    if i == 0 {
        lemma_wrap_near(base - b1);
        lemma_wrap_near(base + 0);
        lemma_store_image_outside(m1, b1, bytes.drop_first(), base);
    } else {
        lemma_offset_offset(base, 1, i - 1);
        lemma_store_image_reads_back(m1, b1, bytes.drop_first(), i - 1);
    }
}

/// A little-endian store of `n` bytes puts byte `i` of the value, that is
/// `(v / 256^i) % 256`, at the address `i` bytes past `a`.
pub proof fn lemma_store_le_bytes(m: Map<u32, u8>, a: u32, n: nat, v: nat, i: int)
    requires
        n <= word_range(),
        0 <= i < n,
    ensures
        byte_at(store_le(m, a, n, v), offset(a, i)) == ((v / pow256(i as nat)) % 256) as u8,
    decreases n,
{
    let m1 = m.insert(a, (v % 256) as u8);
    let a1 = offset(a, 1);
    lemma_wrap_near(a + 1);
    if i == 0 {
        lemma_wrap_near(a - a1);
        lemma_wrap_near(a + 0);
        lemma_store_le_outside(m1, a1, (n - 1) as nat, v / 256, a);
        assert(pow256(0) == 1);
        assert(v / 1 == v) by (nonlinear_arith);
    } else {
        assert(pow256(i as nat) == 256 * pow256((i - 1) as nat));
        lemma_offset_offset(a, 1, i - 1);
        lemma_store_le_bytes(m1, a1, (n - 1) as nat, v / 256, i - 1);
        lemma_pow256_positive((i - 1) as nat);
        vstd::arithmetic::div_mod::lemma_div_denominator(v as int, 256, pow256((i - 1) as nat) as int);
    }
}

/// A little-endian load of `n` bytes holds the byte at the address `i`
/// bytes past `a` as its byte `i`, that is `(value / 256^i) % 256`.
pub proof fn lemma_load_le_bytes(m: Map<u32, u8>, a: u32, n: nat, i: int)
    requires
        0 <= i < n,
        n <= word_range(),
    ensures
        (load_le(m, a, n) / pow256(i as nat)) % 256 == byte_at(m, offset(a, i)),
    decreases n,
{
    let b = byte_at(m, a) as nat;
    let rest = load_le(m, offset(a, 1), (n - 1) as nat);
    let v = load_le(m, a, n);
    assert(v == b + 256 * rest);
    vstd::arithmetic::div_mod::lemma_fundamental_div_mod_converse(v as int, 256, rest as int, b as int);
    if i == 0 {
        lemma_wrap_near(a + 0);
        assert(pow256(0) == 1);
        assert(v / 1 == v) by (nonlinear_arith);
    } else {
        lemma_wrap_near(a + 1);
        lemma_offset_offset(a, 1, i - 1);
        lemma_load_le_bytes(m, offset(a, 1), (n - 1) as nat, i - 1);
        lemma_pow256_positive((i - 1) as nat);
        assert(pow256(i as nat) == 256 * pow256((i - 1) as nat));
        vstd::arithmetic::div_mod::lemma_div_denominator(v as int, 256, pow256((i - 1) as nat) as int);
    }
}

/// 256^i is 2^(8i).
proof fn lemma_pow256_is_pow2(i: nat)
    ensures
        pow256(i) == pow2(8 * i),
    decreases i,
{
    if i == 0 {
        vstd::arithmetic::power2::lemma2_to64();
    } else {
        lemma_pow256_is_pow2((i - 1) as nat);
        vstd::arithmetic::power2::lemma_pow2_adds(8 * (i - 1) as nat, 8);
        vstd::arithmetic::power2::lemma2_to64();
        assert(8 * (i - 1) as nat + 8 == 8 * i);
    }
}

/// `write_bytes(addr, len, val)` writes `val >> (8 * i)` (its low byte) to
/// the address `i` bytes past `addr`, for each `i < len`; every other
/// address keeps its byte (see `lemma_store_le_outside`), and reading the
/// `len` bytes back gives `val` modulo 256^len (see `lemma_load_after_store`).
pub proof fn lemma_write_bytes_per_byte(m: Map<u32, u8>, addr: u32, len: u32, val: u64, i: u32)
    requires
        len <= 8,
        i < len,
    ensures
        byte_at(store_le(m, addr, len as nat, val as nat), offset(addr, i as int)) == (val >> (8
            * i) as u64) as u8,
{
    lemma_store_le_bytes(m, addr, len as nat, val as nat, i as int);
    let sh = (8 * i) as u64;
    vstd::bits::lemma_u64_shr_is_div(val, sh);
    lemma_pow256_is_pow2(i as nat);
    let x = val >> sh;
    assert((x as u8) as u64 == x % 256) by (bit_vector);
}

/// Stepping `j` bytes and then `k` more is stepping `j + k` bytes.
pub proof fn lemma_offset_offset(a: u32, j: int, k: int)
    requires
        0 <= j,
        0 <= k,
        j + k <= word_range(),
    ensures
        offset(offset(a, j), k) == offset(a, j + k),
{
    let w = word_range();
    let x = a + j;
    vstd::arithmetic::div_mod::lemma_fundamental_div_mod(x, w);
    vstd::arithmetic::div_mod::lemma_mod_multiples_vanish(x / w, x % w + k, w);
}

/// Bounds on the small powers of 256 that fit a `u64`.
pub proof fn lemma_pow256_bounds(n: nat)
    requires
        n <= 7,
    ensures
        pow256(n) <= 0x100_0000_0000_0000,
        pow256(n + 1) == 256 * pow256(n),
        pow256(n) >= 1,
{
    reveal_with_fuel(pow256, 9);
    assert(pow256(7) == 0x100_0000_0000_0000);
    if n < 7 {
        lemma_pow256_monotonic(n, 7);
    }
}

/// 256^n grows with n.
pub proof fn lemma_pow256_monotonic(i: nat, j: nat)
    requires
        i <= j,
    ensures
        1 <= pow256(i) <= pow256(j),
    decreases j,
{
    if i < j {
        lemma_pow256_monotonic(i, (j - 1) as nat);
    } else {
        lemma_pow256_positive(i);
    }
}

/// 256^n is positive.
pub proof fn lemma_pow256_positive(n: nat)
    ensures
        pow256(n) >= 1,
    decreases n,
{
    if n > 0 {
        lemma_pow256_positive((n - 1) as nat);
    }
}

/// A little-endian number of `n` bytes is less than 256^n.
pub proof fn lemma_load_le_bound(m: Map<u32, u8>, a: u32, n: nat)
    ensures
        load_le(m, a, n) < pow256(n),
    decreases n,
{
    if n > 0 {
        lemma_load_le_bound(m, offset(a, 1), (n - 1) as nat);
    }
}

} // verus!
