//! Tests of the fixed-width big-integer codec.

use nyash::num_utils::{
    add_u128_to_u256, add_u32_to_u256, add_u32_to_u256_, bignum_from_hex, bignum_to_hex,
    bytes_from_chars, hex_digit_of, hex_fmt_byte, u128_to_u32arr,
};

/// The adder against (delta, t0, t0+1, t0+delta) vectors covering
/// zero, a limb carry, a full wrap and a middle-of-space value, each
/// checked through the hex form as the worker would see it.
#[test]
fn num_utils_test_add() {
    let cases: [(&str, u32, &str, &str, bool); 4] = [
        (
            "00000000000000000000000000000000000000000000000000000000fffffffb",
            10u32,
            "00000000000000000000000000000000000000000000000000000000fffffffc",
            "0000000000000000000000000000000000000000000000000000000100000005",
            false,
        ),
        (
            "0000000000000000000000000000000000000000000000000000000000000000",
            1u32,
            "0000000000000000000000000000000000000000000000000000000000000001",
            "0000000000000000000000000000000000000000000000000000000000000001",
            false,
        ),
        (
            "fffffffffffffffffffffffffffffffffffffffffffffffffffffffffffffffb",
            4000000000u32,
            "fffffffffffffffffffffffffffffffffffffffffffffffffffffffffffffffc",
            "00000000000000000000000000000000000000000000000000000000ee6b27fb",
            true,
        ),
        (
            "123456789abcdef0fedcba9876543210ffffffffffffffff0000000000000001",
            7u32,
            "123456789abcdef0fedcba9876543210ffffffffffffffff0000000000000002",
            "123456789abcdef0fedcba9876543210ffffffffffffffff0000000000000008",
            false,
        ),
    ];
    for (t0_hex, num_to_add, t1_hex, t2_hex, wraps) in cases {
        let t0 = bignum_from_hex(t0_hex);
        let (t1, c1) = add_u32_to_u256(&t0, 1);
        let (t2, c2) = add_u32_to_u256(&t0, num_to_add);
        assert_eq!(bignum_to_hex(&t0), t0_hex);
        assert_eq!(bignum_to_hex(&t1), t1_hex);
        assert_eq!(bignum_to_hex(&t2), t2_hex);
        assert_eq!(c2, wraps);
        assert!(!c1 || t0_hex.chars().all(|c| c == 'f'));
    }
}

#[test]
fn in_place_add_matches() {
    let t0 = bignum_from_hex("000000000000000000000000000000000000000000000000ffffffffffffffff");
    let mut t1 = t0;
    let carry = add_u32_to_u256_(&mut t1, 1);
    assert!(!carry);
    assert_eq!(
        bignum_to_hex(&t1),
        "0000000000000000000000000000000000000000000000010000000000000000"
    );
}

#[test]
fn u128_split_little_endian() {
    let arr = u128_to_u32arr(0x00010002_00030004_00050006_00070008u128);
    assert_eq!(arr, [0x00070008, 0x00050006, 0x00030004, 0x00010002]);
    assert_eq!(u128_to_u32arr(0), [0, 0, 0, 0]);
    assert_eq!(u128_to_u32arr(u128::MAX), [u32::MAX; 4]);
}

#[test]
fn add_u128_carries_to_upper_limbs() {
    let a = [u32::MAX; 8];
    let (r, carry) = add_u128_to_u256(&a, 1);
    assert!(carry);
    assert_eq!(r, [0u32; 8]);

    let b = bignum_from_hex("ffffffffffffffffffffffffffffffffffffffffffffffffffffffffffffffff");
    let (r2, carry2) = add_u128_to_u256(&b, u128::MAX);
    assert!(carry2);
    assert_eq!(
        bignum_to_hex(&r2),
        "00000000000000000000000000000000fffffffffffffffffffffffffffffffe"
    );
}

#[test]
fn hex_formatting_is_exact() {
    assert_eq!(hex_fmt_byte(0xdeadbeef), "deadbeef");
    assert_eq!(hex_fmt_byte(0), "00000000");
    assert_eq!(hex_fmt_byte(0x0000001a), "0000001a");
}

#[test]
fn hex_parsing_limbs_and_digits() {
    let limbs = bignum_from_hex("123456789abcdef0fedcba9876543210ffffffffffffffff0000000000000001");
    assert_eq!(limbs[7], 0x12345678);
    assert_eq!(limbs[6], 0x9abcdef0);
    assert_eq!(limbs[1], 0x00000000);
    assert_eq!(limbs[0], 0x00000001);
    // uppercase digits parse too
    let upper = bignum_from_hex("00000000000000000000000000000000000000000000000000000000DEADBEEF");
    assert_eq!(upper[0], 0xdeadbeef);
    // short input: only complete 8-character groups count, from the end
    assert_eq!(bignum_from_hex(""), [0u32; 8]);
    assert_eq!(hex_digit_of('a'), 10);
    assert_eq!(hex_digit_of('F'), 15);
    assert_eq!(hex_digit_of('z'), 16);
}

#[test]
fn round_trip_hex() {
    let hexes = [
        "0000000000000000000000000000000000000000000000000000000000000000",
        "123456789abcdef0fedcba9876543210ffffffffffffffff0000000000000001",
        "ffffffffffffffffffffffffffffffffffffffffffffffffffffffffffffffff",
    ];
    for h in hexes {
        assert_eq!(bignum_to_hex(&bignum_from_hex(h)), h);
    }
}

#[test]
fn bytes_from_chars_parses_pairs() {
    let chunk = vec!['d', 'e', 'a', 'd', 'b', 'e', 'e', 'f'];
    assert_eq!(bytes_from_chars(&chunk), [0xde, 0xad, 0xbe, 0xef]);
    // a malformed pair reads as zero, the rest still parse
    let partly = vec!['z', 'z', '0', '1', 'F', 'F', '7', 'f'];
    assert_eq!(bytes_from_chars(&partly), [0x00, 0x01, 0xff, 0x7f]);
    // short chunks leave the tail at zero
    let short = vec!['a', 'b'];
    assert_eq!(bytes_from_chars(&short), [0xab, 0, 0, 0]);
}
