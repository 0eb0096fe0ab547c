//! Fixed-width big-integer arithmetic shared between the server-side
//! bookkeeping and the worker-side key enumeration.
//!
//! A 256-bit quantity is held as 8 limbs of 32 bits each in
//! little-endian limb order.  Addition carries across all 8 limbs and
//! reports a carry out of limb 7 instead of wrapping.

use vstd::prelude::*;
use vstd::string::StringExecFns;
use vstd::string::StringSliceAdditionalSpecFns;

verus! {

/// Mathematical value of a 256-bit number stored as 8 little-endian
/// 32-bit limbs.
pub open spec fn u256_val(s: Seq<u32>) -> int
    recommends
        s.len() == 8,
{
    s[0] as int
        + s[1] as int * 0x1_00000000
        + s[2] as int * 0x1_00000000_00000000
        + s[3] as int * 0x1_00000000_00000000_00000000
        + s[4] as int * 0x1_00000000_00000000_00000000_00000000int
        + s[5] as int * 0x1_00000000_00000000_00000000_00000000_00000000int
        + s[6] as int * 0x1_00000000_00000000_00000000_00000000_00000000_00000000int
        + s[7] as int * 0x1_00000000_00000000_00000000_00000000_00000000_00000000_00000000int
}

/// Mathematical value of a 128-bit number stored as 4 little-endian
/// 32-bit limbs.
pub open spec fn u128_limbs_val(s: Seq<u32>) -> int
    recommends
        s.len() == 4,
{
    s[0] as int
        + s[1] as int * 0x1_00000000
        + s[2] as int * 0x1_00000000_00000000
        + s[3] as int * 0x1_00000000_00000000_00000000
}

/// 2^256, the weight of a carry out of limb 7.
pub open spec fn pow_256() -> int {
    0x1_00000000_00000000_00000000_00000000_00000000_00000000_00000000_00000000int
}

/// One full-adder step on 32-bit limbs.
fn add_limb(a: u32, b: u32, c_in: bool) -> (r: (u32, bool))
    ensures
        r.0 as int + (if r.1 {
            0x1_00000000int
        } else {
            0int
        }) == a as int + b as int + (if c_in {
            1int
        } else {
            0int
        }),
{
    let s: u64 = a as u64 + b as u64 + (if c_in {
        1u64
    } else {
        0u64
    });
    (((s % 0x1_00000000) as u32), s >= 0x1_00000000)
}

/// Splits a 128-bit value into 4 little-endian 32-bit limbs.
pub fn u128_to_u32arr(a: u128) -> (r: [u32; 4])
    ensures
        u128_limbs_val(r@) == a as int,
{
    let l0: u32 = (a % 0x1_00000000) as u32;
    let q1: u128 = a / 0x1_00000000;
    let l1: u32 = (q1 % 0x1_00000000) as u32;
    let q2: u128 = q1 / 0x1_00000000;
    let l2: u32 = (q2 % 0x1_00000000) as u32;
    let l3: u32 = (q2 / 0x1_00000000) as u32;
    [l0, l1, l2, l3]
}

/// Adds a 128-bit delta to a 256-bit limb array; the boolean reports a
/// carry past limb 7 (the sum overflowed 2^256) instead of wrapping.
pub fn add_u128_to_u256(a: &[u32; 8], b: u128) -> (r: ([u32; 8], bool))
    ensures
        u256_val(r.0@) + (if r.1 {
            pow_256()
        } else {
            0int
        }) == u256_val(a@) + b as int,
{
    let bl = u128_to_u32arr(b);
    let (r0, c0) = add_limb(a[0], bl[0], false);
    let (r1, c1) = add_limb(a[1], bl[1], c0);
    let (r2, c2) = add_limb(a[2], bl[2], c1);
    let (r3, c3) = add_limb(a[3], bl[3], c2);
    let (r4, c4) = add_limb(a[4], 0, c3);
    let (r5, c5) = add_limb(a[5], 0, c4);
    let (r6, c6) = add_limb(a[6], 0, c5);
    let (r7, c7) = add_limb(a[7], 0, c6);
    ([r0, r1, r2, r3, r4, r5, r6, r7], c7)
}

/// Adds a 32-bit delta to a 256-bit limb array; the boolean reports a
/// carry past limb 7.
pub fn add_u32_to_u256(a: &[u32; 8], b: u32) -> (r: ([u32; 8], bool))
    ensures
        u256_val(r.0@) + (if r.1 {
            pow_256()
        } else {
            0int
        }) == u256_val(a@) + b as int,
{
    let (r0, c0) = add_limb(a[0], b, false);
    let (r1, c1) = add_limb(a[1], 0, c0);
    let (r2, c2) = add_limb(a[2], 0, c1);
    let (r3, c3) = add_limb(a[3], 0, c2);
    let (r4, c4) = add_limb(a[4], 0, c3);
    let (r5, c5) = add_limb(a[5], 0, c4);
    let (r6, c6) = add_limb(a[6], 0, c5);
    let (r7, c7) = add_limb(a[7], 0, c6);
    ([r0, r1, r2, r3, r4, r5, r6, r7], c7)
}

/// Lowercase hex character for one nibble.
pub open spec fn hex_digit_char(d: int) -> char
    recommends
        0 <= d < 16,
{
    if d == 0 {
        '0'
    } else if d == 1 {
        '1'
    } else if d == 2 {
        '2'
    } else if d == 3 {
        '3'
    } else if d == 4 {
        '4'
    } else if d == 5 {
        '5'
    } else if d == 6 {
        '6'
    } else if d == 7 {
        '7'
    } else if d == 8 {
        '8'
    } else if d == 9 {
        '9'
    } else if d == 10 {
        'a'
    } else if d == 11 {
        'b'
    } else if d == 12 {
        'c'
    } else if d == 13 {
        'd'
    } else if d == 14 {
        'e'
    } else {
        'f'
    }
}

/// Nibble value of a hex character, either case; 16 marks a non-digit.
pub open spec fn hex_char_val(c: char) -> int {
    if c == '0' {
        0
    } else if c == '1' {
        1
    } else if c == '2' {
        2
    } else if c == '3' {
        3
    } else if c == '4' {
        4
    } else if c == '5' {
        5
    } else if c == '6' {
        6
    } else if c == '7' {
        7
    } else if c == '8' {
        8
    } else if c == '9' {
        9
    } else if c == 'a' || c == 'A' {
        10
    } else if c == 'b' || c == 'B' {
        11
    } else if c == 'c' || c == 'C' {
        12
    } else if c == 'd' || c == 'D' {
        13
    } else if c == 'e' || c == 'E' {
        14
    } else if c == 'f' || c == 'F' {
        15
    } else {
        16
    }
}

pub open spec fn is_hex_digit(c: char) -> bool {
    hex_char_val(c) < 16
}

/// Byte described by two hex characters; a malformed pair counts as 0.
pub open spec fn hex_pair_val(c1: char, c2: char) -> int {
    if is_hex_digit(c1) && is_hex_digit(c2) {
        16 * hex_char_val(c1) + hex_char_val(c2)
    } else {
        0
    }
}

/// 8 hex characters for one limb, most significant nibble first.
pub open spec fn u32_hex(n: u32) -> Seq<char> {
    seq![
        hex_digit_char((n as int / 0x10000000) % 16),
        hex_digit_char((n as int / 0x1000000) % 16),
        hex_digit_char((n as int / 0x100000) % 16),
        hex_digit_char((n as int / 0x10000) % 16),
        hex_digit_char((n as int / 0x1000) % 16),
        hex_digit_char((n as int / 0x100) % 16),
        hex_digit_char((n as int / 0x10) % 16),
        hex_digit_char(n as int % 16),
    ]
}

/// Textual form of a 256-bit limb array: most significant limb first,
/// each limb as 8 hex characters.
pub open spec fn bignum_hex(s: Seq<u32>) -> Seq<char>
    recommends
        s.len() == 8,
{
    u32_hex(s[7]) + u32_hex(s[6]) + u32_hex(s[5]) + u32_hex(s[4]) + u32_hex(s[3]) + u32_hex(s[2])
        + u32_hex(s[1]) + u32_hex(s[0])
}

/// Appends one nibble as a lowercase hex character.
fn push_hex_digit(s: &mut String, d: u32)
    requires
        d < 16,
    ensures
        final(s)@ == old(s)@ + seq![hex_digit_char(d as int)],
{
    let p: &str = match d {
        0 => "0",
        1 => "1",
        2 => "2",
        3 => "3",
        4 => "4",
        5 => "5",
        6 => "6",
        7 => "7",
        8 => "8",
        9 => "9",
        10 => "a",
        11 => "b",
        12 => "c",
        13 => "d",
        14 => "e",
        _ => "f",
    };
    proof {
        reveal_strlit("0");
        reveal_strlit("1");
        reveal_strlit("2");
        reveal_strlit("3");
        reveal_strlit("4");
        reveal_strlit("5");
        reveal_strlit("6");
        reveal_strlit("7");
        reveal_strlit("8");
        reveal_strlit("9");
        reveal_strlit("a");
        reveal_strlit("b");
        reveal_strlit("c");
        reveal_strlit("d");
        reveal_strlit("e");
        reveal_strlit("f");
        assert(p@ =~= seq![hex_digit_char(d as int)]);
    }
    s.append(p);
}

/// Formats one limb as 8 lowercase hex characters, most significant
/// byte first.
pub fn hex_fmt_byte(n: u32) -> (r: String)
    ensures
        r@ == u32_hex(n),
{
    let mut s = String::new();
    push_hex_digit(&mut s, (n / 0x10000000) % 16);
    push_hex_digit(&mut s, (n / 0x1000000) % 16);
    push_hex_digit(&mut s, (n / 0x100000) % 16);
    push_hex_digit(&mut s, (n / 0x10000) % 16);
    push_hex_digit(&mut s, (n / 0x1000) % 16);
    push_hex_digit(&mut s, (n / 0x100) % 16);
    push_hex_digit(&mut s, (n / 0x10) % 16);
    push_hex_digit(&mut s, n % 16);
    proof {
        assert(s@ =~= u32_hex(n));
    }
    s
}

/// Formats a 256-bit limb array as 64 lowercase hex characters, most
/// significant limb first.
pub fn bignum_to_hex(a: &[u32; 8]) -> (r: String)
    ensures
        r@ == bignum_hex(a@),
{
    let mut s = String::new();
    let p7 = hex_fmt_byte(a[7]);
    s.append(p7.as_str());
    proof {
        assert(Seq::<char>::empty() + u32_hex(a@[7]) =~= u32_hex(a@[7]));
    }
    let p6 = hex_fmt_byte(a[6]);
    s.append(p6.as_str());
    let p5 = hex_fmt_byte(a[5]);
    s.append(p5.as_str());
    let p4 = hex_fmt_byte(a[4]);
    s.append(p4.as_str());
    let p3 = hex_fmt_byte(a[3]);
    s.append(p3.as_str());
    let p2 = hex_fmt_byte(a[2]);
    s.append(p2.as_str());
    let p1 = hex_fmt_byte(a[1]);
    s.append(p1.as_str());
    let p0 = hex_fmt_byte(a[0]);
    s.append(p0.as_str());
    s
}

/// Nibble value of a hex character given as its ASCII byte, either
/// case; 16 marks a non-digit.
pub open spec fn hex_byte_val(b: u8) -> int {
    if 48 <= b && b <= 57 {
        b - 48
    } else if 97 <= b && b <= 102 {
        b - 87
    } else if 65 <= b && b <= 70 {
        b - 55
    } else {
        16
    }
}

/// Byte described by two hex characters (as ASCII bytes); a malformed
/// pair counts as 0.
pub open spec fn hex_pair_byte(b1: u8, b2: u8) -> int {
    if hex_byte_val(b1) < 16 && hex_byte_val(b2) < 16 {
        16 * hex_byte_val(b1) + hex_byte_val(b2)
    } else {
        0
    }
}

/// Value of the 8-character group number `ci` of a hex text, parsed as
/// 4 bytes, most significant first.
pub open spec fn hex_limb_at(s: Seq<u8>, ci: int) -> int
    recommends
        0 <= ci,
        8 * ci + 8 <= s.len(),
{
    hex_pair_byte(s[8 * ci], s[8 * ci + 1]) * 0x1000000 + hex_pair_byte(
        s[8 * ci + 2],
        s[8 * ci + 3],
    ) * 0x10000 + hex_pair_byte(s[8 * ci + 4], s[8 * ci + 5]) * 0x100 + hex_pair_byte(
        s[8 * ci + 6],
        s[8 * ci + 7],
    )
}

/// Limb `k` of the number described by a hex text: the last complete
/// 8-character group gives limb 0, the one before it limb 1, and so
/// on; limbs past the text's groups are 0.
pub open spec fn from_hex_limb(s: Seq<u8>, k: int) -> int {
    let m = s.len() as int / 8;
    if 0 <= k && k < 8 && k < m {
        hex_limb_at(s, m - 1 - k)
    } else {
        0
    }
}

/// Nibble value of a hex character; 16 marks a non-digit.
fn hex_digit_of_byte(b: u8) -> (r: u8)
    ensures
        r as int == hex_byte_val(b),
{
    if 48 <= b && b <= 57 {
        b - 48
    } else if 97 <= b && b <= 102 {
        b - 87
    } else if 65 <= b && b <= 70 {
        b - 55
    } else {
        16
    }
}

/// Parses up to four bytes from consecutive pairs of hex characters;
/// pairs past the fourth are ignored, malformed pairs give 0.
pub fn bytes_from_chars(chars_chunk: &[char]) -> (r: [u8; 4])
    ensures
        forall|i: int|
            0 <= i < 4 ==> r@[i] as int == (if 2 * i + 1 < chars_chunk@.len() {
                hex_pair_val(chars_chunk@[2 * i], chars_chunk@[2 * i + 1])
            } else {
                0int
            }),
{
    let mut res = [0u8; 4];
    let mut idx: usize = 0;
    let n = chars_chunk.len();
    while idx < 4 && 2 * idx + 1 < n
        invariant
            idx <= 4,
            n == chars_chunk@.len(),
            forall|j: int|
                0 <= j < idx ==> res@[j] as int == (if 2 * j + 1 < chars_chunk@.len() {
                    hex_pair_val(chars_chunk@[2 * j], chars_chunk@[2 * j + 1])
                } else {
                    0int
                }),
            forall|j: int| idx <= j < 4 ==> res@[j] == 0u8,
        decreases 4 - idx,
    {
        let d1 = hex_digit_of(chars_chunk[2 * idx]);
        let d2 = hex_digit_of(chars_chunk[2 * idx + 1]);
        if d1 < 16 && d2 < 16 {
            res[idx] = 16 * d1 + d2;
        }
        idx = idx + 1;
    }
    res
}

/// Nibble value of a hex character; 16 marks a non-digit.
pub fn hex_digit_of(c: char) -> (r: u8)
    ensures
        r as int == hex_char_val(c),
{
    match c {
        '0' => 0,
        '1' => 1,
        '2' => 2,
        '3' => 3,
        '4' => 4,
        '5' => 5,
        '6' => 6,
        '7' => 7,
        '8' => 8,
        '9' => 9,
        'a' => 10,
        'b' => 11,
        'c' => 12,
        'd' => 13,
        'e' => 14,
        'f' => 15,
        'A' => 10,
        'B' => 11,
        'C' => 12,
        'D' => 13,
        'E' => 14,
        'F' => 15,
        _ => 16,
    }
}

/// Parses a hex text into a 256-bit limb array: the last complete
/// 8-character group gives limb 0 and so on towards the front;
/// malformed pairs read as 0 and groups past the eighth are ignored.
pub fn bignum_from_hex(hex: &str) -> (r: [u32; 8])
    ensures
        forall|k: int| 0 <= k < 8 ==> r@[k] as int == from_hex_limb(hex.spec_bytes(), k),
{
    let bs = hex.as_bytes();
    let n = bs.len();
    let m = n / 8;
    let mut res = [0u32; 8];
    let mut k: usize = 0;
    while k < 8 && k < m
        invariant
            k <= 8,
            n == bs@.len(),
            m == n / 8,
            bs@ == hex.spec_bytes(),
            forall|j: int| 0 <= j < k ==> res@[j] as int == from_hex_limb(bs@, j),
            forall|j: int| k <= j < 8 ==> res@[j] == 0u32,
        decreases 8 - k,
    {
        proof {
            assert(m * 8 <= n);
        }
        let st = (m - 1 - k) * 8;
        let b0 = hex_pair_at(bs, st);
        let b1 = hex_pair_at(bs, st + 2);
        let b2 = hex_pair_at(bs, st + 4);
        let b3 = hex_pair_at(bs, st + 6);
        res[k] = (b0 as u32) * 0x1000000 + (b1 as u32) * 0x10000 + (b2 as u32) * 0x100 + (
        b3 as u32);
        k = k + 1;
    }
    res
}

/// Parses the byte written at positions `i`, `i + 1` of a hex text.
fn hex_pair_at(bs: &[u8], i: usize) -> (r: u8)
    requires
        i + 1 < bs@.len(),
    ensures
        r as int == hex_pair_byte(bs@[i as int], bs@[i as int + 1]),
{
    let d1 = hex_digit_of_byte(bs[i]);
    let d2 = hex_digit_of_byte(bs[i + 1]);
    if d1 < 16 && d2 < 16 {
        16 * d1 + d2
    } else {
        0
    }
}

/// In-place variant of `add_u32_to_u256`.
pub fn add_u32_to_u256_(a: &mut [u32; 8], b: u32) -> (carry: bool)
    ensures
        u256_val(final(a)@) + (if carry {
            pow_256()
        } else {
            0int
        }) == u256_val(old(a)@) + b as int,
{
    let cur: [u32; 8] = *a;
    let (res, carry) = add_u32_to_u256(&cur, b);
    *a = res;
    carry
}

} // verus!
