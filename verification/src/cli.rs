//! Parsing of the command-line driver's arguments.
//!
//! The start address is written in hexadecimal, optionally behind `0x` or
//! `0X` prefixes (any number of each, `0x` ones first) and an optional `+`
//! sign, the way the driver strips the prefixes and then reads the rest as a
//! base-16 `u32`.

use vstd::prelude::*;

verus! {

/// The value of an ASCII hexadecimal digit, or `None` for another byte.
pub open spec fn hex_digit_value(c: u8) -> Option<nat> {
    if 0x30 <= c <= 0x39 {
        Some((c - 0x30) as nat)
    } else if 0x61 <= c <= 0x66 {
        Some((c - 0x61 + 10) as nat)
    } else if 0x41 <= c <= 0x46 {
        Some((c - 0x41 + 10) as nat)
    } else {
        None
    }
}

/// Every byte of `s` is a hexadecimal digit.
pub open spec fn all_hex(s: Seq<u8>) -> bool {
    forall|i: int| 0 <= i < s.len() ==> (#[trigger] hex_digit_value(s[i])) is Some
}

/// The number the hexadecimal digits `s` spell, most significant first.
pub open spec fn hex_value(s: Seq<u8>) -> nat
    decreases s.len(),
{
    if s.len() == 0 {
        0
    } else {
        hex_value(s.drop_last()) * 16 + hex_digit_value(s.last()).unwrap_or(0)
    }
}

/// `s` with every leading repetition of the two-byte prefix `c0 c1`
/// removed.
pub open spec fn strip_prefixes(s: Seq<u8>, c0: u8, c1: u8) -> Seq<u8>
    decreases s.len(),
{
    if s.len() >= 2 && s[0] == c0 && s[1] == c1 {
        strip_prefixes(s.subrange(2, s.len() as int), c0, c1)
    } else {
        s
    }
}

/// The digits of an address argument: `text` without its `0x` prefixes,
/// then its `0X` prefixes, then one optional `+`.
pub open spec fn address_digits(text: Seq<u8>) -> Seq<u8> {
    let clean = strip_prefixes(strip_prefixes(text, 0x30, 0x78), 0x30, 0x58);
    if clean.len() > 0 && clean[0] == 0x2B {
        clean.drop_first()
    } else {
        clean
    }
}

/// The address that `text` spells, or `None` when its digits are empty, hold
/// a byte that is not a hexadecimal digit, or spell a value that does not
/// fit in 32 bits.
pub open spec fn parse_addr_spec(text: Seq<u8>) -> Option<u32> {
    let digits = address_digits(text);
    if digits.len() > 0 && all_hex(digits) && hex_value(digits) < 0x1_0000_0000 {
        Some(hex_value(digits) as u32)
    } else {
        None
    }
}

/// The hexadecimal digit for `d < 16`, in lower or upper case.
pub open spec fn hex_char(d: nat, upper: bool) -> u8 {
    if d < 10 {
        (0x30 + d) as u8
    } else if upper {
        (0x41 + d - 10) as u8
    } else {
        (0x61 + d - 10) as u8
    }
}

/// 16^n.
pub open spec fn pow16(n: nat) -> nat
    decreases n,
{
    if n == 0 {
        1
    } else {
        16 * pow16((n - 1) as nat)
    }
}

/// `v` written with exactly `n` hexadecimal digits, most significant first.
pub open spec fn render_hex(v: nat, n: nat, upper: bool) -> Seq<u8>
    decreases n,
{
    if n == 0 {
        Seq::empty()
    } else {
        render_hex(v / 16, (n - 1) as nat, upper).push(hex_char(v % 16, upper))
    }
}

/// Every digit, in either case, reads as its value.
pub proof fn lemma_hex_chars_read_back(d: nat, upper: bool)
    requires
        d < 16,
    ensures
        hex_digit_value(hex_char(d, upper)) == Some(d),
{
}

/// Digits written for a value below 16^n read back as that value.
pub proof fn lemma_render_hex_reads_back(v: nat, n: nat, upper: bool)
    requires
        v < pow16(n),
    ensures
        all_hex(render_hex(v, n, upper)),
        hex_value(render_hex(v, n, upper)) == v,
        render_hex(v, n, upper).len() == n,
        forall|i: int|
            0 <= i < n ==> #[trigger] render_hex(v, n, upper)[i] != 0x78 && render_hex(v, n, upper)[i]
                != 0x58 && render_hex(v, n, upper)[i] != 0x2B,
    decreases n,
{
    if n > 0 {
        let rest = render_hex(v / 16, (n - 1) as nat, upper);
        lemma_render_hex_reads_back(v / 16, (n - 1) as nat, upper);
        lemma_hex_chars_read_back(v % 16, upper);
        let r = render_hex(v, n, upper);
        assert(r.drop_last() =~= rest);
        assert forall|i: int| 0 <= i < r.len() implies (#[trigger] hex_digit_value(r[i])) is Some by {
            if i < rest.len() {
                assert(r[i] == rest[i]);
            }
        }
        assert forall|i: int| 0 <= i < n implies #[trigger] r[i] != 0x78 && r[i] != 0x58 && r[i]
            != 0x2B by {
            if i < rest.len() {
                assert(r[i] == rest[i]);
            }
        }
    } else {
        assert(v == 0);
    }
}

/// Every 32-bit address, written as `0x` and eight hexadecimal digits of
/// either case, parses back to itself.
pub proof fn lemma_parse_addr_reads_rendered(v: u32, upper: bool)
    ensures
        parse_addr_spec(seq![0x30u8, 0x78u8] + render_hex(v as nat, 8, upper)) == Some(v),
{
    reveal_with_fuel(pow16, 9);
    let digits = render_hex(v as nat, 8, upper);
    lemma_render_hex_reads_back(v as nat, 8, upper);
    let text = seq![0x30u8, 0x78u8] + digits;
    assert(text.subrange(2, text.len() as int) =~= digits);
    assert(strip_prefixes(digits, 0x30, 0x78) == digits) by {
        assert(digits[1] != 0x78);
    }
    assert(strip_prefixes(text, 0x30, 0x78) == digits);
    assert(strip_prefixes(digits, 0x30, 0x58) == digits) by {
        assert(digits[1] != 0x58);
    }
    assert(digits[0] != 0x2B);
    assert(address_digits(text) == digits);
}

/// The number of bytes of `text` from `start` on that the leading `c0 c1`
/// prefixes take up.
fn skip_prefixes(text: &[u8], start: usize, c0: u8, c1: u8) -> (r: usize)
    requires
        start <= text@.len(),
    ensures
        start <= r <= text@.len(),
        strip_prefixes(text@.subrange(start as int, text@.len() as int), c0, c1) == text@.subrange(
            r as int,
            text@.len() as int,
        ),
{
    let mut at = start;
    while text.len() - at >= 2 && text[at] == c0 && text[at + 1] == c1
        invariant
            start <= at <= text@.len(),
            strip_prefixes(text@.subrange(start as int, text@.len() as int), c0, c1)
                == strip_prefixes(text@.subrange(at as int, text@.len() as int), c0, c1),
        decreases text@.len() - at,
    {
        let ghost rest = text@.subrange(at as int, text@.len() as int);
        assert(rest.subrange(2, rest.len() as int) =~= text@.subrange(at + 2, text@.len() as int));
        at = at + 2;
    }
    at
}

/// The value of the hexadecimal digit `c`, if it is one.
fn digit_value(c: u8) -> (r: Option<u32>)
    ensures
        match hex_digit_value(c) {
            Some(v) => r == Some(v as u32),
            None => r is None,
        },
{
    if 0x30 <= c && c <= 0x39 {
        Some((c - 0x30) as u32)
    } else if 0x61 <= c && c <= 0x66 {
        Some((c - 0x61 + 10) as u32)
    } else if 0x41 <= c && c <= 0x46 {
        Some((c - 0x41 + 10) as u32)
    } else {
        None
    }
}

/// Parse a start address given in hexadecimal (see the module comment);
/// `None` when the argument is not a valid 32-bit hexadecimal number.
pub fn parse_addr(text: &[u8]) -> (r: Option<u32>)
    ensures
        r == parse_addr_spec(text@),
{
    let len = text.len();
    assert(text@.subrange(0, len as int) =~= text@);
    let after_lower = skip_prefixes(text, 0, 0x30, 0x78);
    let mut start = skip_prefixes(text, after_lower, 0x30, 0x58);
    if start < len && text[start] == 0x2B {
        let ghost clean = text@.subrange(start as int, len as int);
        assert(clean.drop_first() =~= text@.subrange(start + 1, len as int));
        start = start + 1;
    }
    let ghost digits = text@.subrange(start as int, len as int);
    assert(digits == address_digits(text@));
    if start == len {
        return None;
    }
    // `value` is the digits' value so far, capped at 2^32.
    let mut value: u64 = 0;
    let mut i = start;
    while i < len
        invariant
            start <= i <= len,
            len == text@.len(),
            digits == text@.subrange(start as int, len as int),
            digits == address_digits(text@),
            all_hex(text@.subrange(start as int, i as int)),
            value as nat == (if hex_value(text@.subrange(start as int, i as int)) < 0x1_0000_0000 {
                hex_value(text@.subrange(start as int, i as int))
            } else {
                0x1_0000_0000
            }),
        decreases len - i,
    {
        let ghost before = text@.subrange(start as int, i as int);
        let ghost after = text@.subrange(start as int, i + 1);
        assert(after.drop_last() =~= before);
        match digit_value(text[i]) {
            Some(d) => {
                if value < 0x1_0000_0000 {
                    value = value * 16 + d as u64;
                    if value > 0x1_0000_0000 {
                        value = 0x1_0000_0000;
                    }
                }
                proof {
                    assert forall|k: int| 0 <= k < after.len() implies (#[trigger] hex_digit_value(
                        after[k],
                    )) is Some by {
                        if k < before.len() {
                            assert(after[k] == before[k]);
                        }
                    }
                }
            },
            None => {
                proof {
                    assert(digits[i - start] == text@[i as int]);
                    assert(hex_digit_value(digits[i - start]) is None);
                    assert(!all_hex(digits));
                }
                return None;
            },
        }
        i = i + 1;
    }
    assert(text@.subrange(start as int, len as int) == digits);
    if value < 0x1_0000_0000 {
        Some(value as u32)
    } else {
        None
    }
}

} // verus!
