//! How fixed-width integers lie in the stream: which bytes stand for a value
//! in each byte order, and which value a run of bytes stands for.
//!
//! Signed values are written in two's complement. Everything here is stated
//! by division and remainder, so that the bytes of a given value can be
//! computed by hand.

use vstd::prelude::*;

verus! {

/// Byte `i` of `u`, counted from the least significant one; the eighth byte
/// for `i` above 7.
pub open spec fn byte_of(u: int, i: int) -> u8 {
    if i == 0 {
        (u % 0x100) as u8
    } else if i == 1 {
        (u / 0x100 % 0x100) as u8
    } else if i == 2 {
        (u / 0x1_0000 % 0x100) as u8
    } else if i == 3 {
        (u / 0x100_0000 % 0x100) as u8
    } else if i == 4 {
        (u / 0x1_0000_0000 % 0x100) as u8
    } else if i == 5 {
        (u / 0x100_0000_0000 % 0x100) as u8
    } else if i == 6 {
        (u / 0x1_0000_0000_0000 % 0x100) as u8
    } else {
        (u / 0x100_0000_0000_0000 % 0x100) as u8
    }
}

/// The `width` bytes of `u` in the given byte order.
pub open spec fn uint_bytes(little_endian: bool, u: int, width: int) -> Seq<u8> {
    Seq::new(
        width as nat,
        |i: int|
            if little_endian {
                byte_of(u, i)
            } else {
                byte_of(u, width - 1 - i)
            },
    )
}

/// The value of which `s` holds the bytes, least significant byte first.
pub open spec fn le_value(s: Seq<u8>) -> int
    decreases s.len(),
{
    if s.len() == 0 {
        0
    } else {
        s[0] as int + 0x100 * le_value(s.drop_first())
    }
}

/// The unsigned value that the bytes `s` stand for in the given byte order.
pub open spec fn uint_value(little_endian: bool, s: Seq<u8>) -> int {
    if little_endian {
        le_value(s)
    } else {
        le_value(s.reverse())
    }
}

/// Two's complement: the unsigned number that is written for `v` where
/// `modulus` is two to the power of the width in bits.
pub open spec fn to_unsigned(v: int, modulus: int) -> int {
    if v < 0 {
        v + modulus
    } else {
        v
    }
}

/// Two's complement: the signed number that `u` is read as.
pub open spec fn to_signed(u: int, modulus: int) -> int {
    if 2 * u >= modulus {
        u - modulus
    } else {
        u
    }
}

/// The two bytes of a `u16` in the given byte order.
pub open spec fn u16_bytes(little_endian: bool, v: u16) -> Seq<u8> {
    uint_bytes(little_endian, v as int, 2)
}

/// The four bytes of a `u32` in the given byte order.
pub open spec fn u32_bytes(little_endian: bool, v: u32) -> Seq<u8> {
    uint_bytes(little_endian, v as int, 4)
}

/// The eight bytes of a `u64` in the given byte order.
pub open spec fn u64_bytes(little_endian: bool, v: u64) -> Seq<u8> {
    uint_bytes(little_endian, v as int, 8)
}

/// The one byte of a signed byte. A single byte has no byte order.
pub open spec fn i8_byte(v: i8) -> u8 {
    to_unsigned(v as int, 0x100) as u8
}

/// The two bytes of an `i16` in the given byte order.
pub open spec fn i16_bytes(little_endian: bool, v: i16) -> Seq<u8> {
    uint_bytes(little_endian, to_unsigned(v as int, 0x1_0000), 2)
}

/// The four bytes of an `i32` in the given byte order.
pub open spec fn i32_bytes(little_endian: bool, v: i32) -> Seq<u8> {
    uint_bytes(little_endian, to_unsigned(v as int, 0x1_0000_0000), 4)
}

/// The eight bytes of an `i64` in the given byte order.
pub open spec fn i64_bytes(little_endian: bool, v: i64) -> Seq<u8> {
    uint_bytes(little_endian, to_unsigned(v as int, 0x1_0000_0000_0000_0000), 8)
}

/// The `u16` that two bytes stand for in the given byte order.
pub open spec fn u16_value(little_endian: bool, s: Seq<u8>) -> u16 {
    uint_value(little_endian, s) as u16
}

/// The `u32` that four bytes stand for in the given byte order.
pub open spec fn u32_value(little_endian: bool, s: Seq<u8>) -> u32 {
    uint_value(little_endian, s) as u32
}

/// The `u64` that eight bytes stand for in the given byte order.
pub open spec fn u64_value(little_endian: bool, s: Seq<u8>) -> u64 {
    uint_value(little_endian, s) as u64
}

/// The signed byte that a byte stands for.
pub open spec fn i8_value(b: u8) -> i8 {
    to_signed(b as int, 0x100) as i8
}

/// The `i16` that two bytes stand for in the given byte order.
pub open spec fn i16_value(little_endian: bool, s: Seq<u8>) -> i16 {
    to_signed(uint_value(little_endian, s), 0x1_0000) as i16
}

/// The `i32` that four bytes stand for in the given byte order.
pub open spec fn i32_value(little_endian: bool, s: Seq<u8>) -> i32 {
    to_signed(uint_value(little_endian, s), 0x1_0000_0000) as i32
}

/// The `i64` that eight bytes stand for in the given byte order.
pub open spec fn i64_value(little_endian: bool, s: Seq<u8>) -> i64 {
    to_signed(uint_value(little_endian, s), 0x1_0000_0000_0000_0000) as i64
}

/// The value of two bytes, written out.
pub proof fn lemma_value_of_2(little_endian: bool, s: Seq<u8>)
    requires
        s.len() == 2,
    ensures
        uint_value(little_endian, s) == if little_endian {
            s[0] + 0x100 * s[1]
        } else {
            s[1] + 0x100 * s[0]
        },
        0 <= uint_value(little_endian, s) < 0x1_0000,
{
    reveal_with_fuel(le_value, 3);
    let t = if little_endian { s } else { s.reverse() };
    assert(t.drop_first().drop_first().len() == 0);
}

/// The value of four bytes, written out.
pub proof fn lemma_value_of_4(little_endian: bool, s: Seq<u8>)
    requires
        s.len() == 4,
    ensures
        uint_value(little_endian, s) == if little_endian {
            s[0] + 0x100 * s[1] + 0x1_0000 * s[2] + 0x100_0000 * s[3]
        } else {
            s[3] + 0x100 * s[2] + 0x1_0000 * s[1] + 0x100_0000 * s[0]
        },
        0 <= uint_value(little_endian, s) < 0x1_0000_0000,
{
    reveal_with_fuel(le_value, 5);
    let t = if little_endian { s } else { s.reverse() };
    assert(t.drop_first().drop_first().drop_first().drop_first().len() == 0);
}

/// The value of eight bytes, written out.
pub proof fn lemma_value_of_8(little_endian: bool, s: Seq<u8>)
    requires
        s.len() == 8,
    ensures
        uint_value(little_endian, s) == if little_endian {
            s[0] + 0x100 * s[1] + 0x1_0000 * s[2] + 0x100_0000 * s[3] + 0x1_0000_0000 * s[4]
                + 0x100_0000_0000 * s[5] + 0x1_0000_0000_0000 * s[6] + 0x100_0000_0000_0000 * s[7]
        } else {
            s[7] + 0x100 * s[6] + 0x1_0000 * s[5] + 0x100_0000 * s[4] + 0x1_0000_0000 * s[3]
                + 0x100_0000_0000 * s[2] + 0x1_0000_0000_0000 * s[1] + 0x100_0000_0000_0000 * s[0]
        },
        0 <= uint_value(little_endian, s) < 0x1_0000_0000_0000_0000,
{
    reveal_with_fuel(le_value, 9);
    let t = if little_endian { s } else { s.reverse() };
    let t4 = t.drop_first().drop_first().drop_first().drop_first();
    assert(t4.drop_first().drop_first().drop_first().drop_first().len() == 0);
}

/// A number below two to the 16th is the sum of its two bytes, each weighted
/// by its place.
pub proof fn lemma_sum_of_bytes_2(u: int)
    requires
        0 <= u < 0x1_0000,
    ensures
        u == byte_of(u, 0) + 0x100 * byte_of(u, 1),
{
}

/// A number below two to the 32nd is the sum of its four bytes, each
/// weighted by its place.
pub proof fn lemma_sum_of_bytes_4(u: int)
    requires
        0 <= u < 0x1_0000_0000,
    ensures
        u == byte_of(u, 0) + 0x100 * byte_of(u, 1) + 0x1_0000 * byte_of(u, 2) + 0x100_0000
            * byte_of(u, 3),
{
    let q1 = u / 0x100;
    let q2 = q1 / 0x100;
    let q3 = q2 / 0x100;
    assert(q2 == u / 0x1_0000);
    assert(q3 == u / 0x100_0000);
    assert(q3 < 0x100);
    assert(u == u % 0x100 + 0x100 * q1);
    assert(q1 == q1 % 0x100 + 0x100 * q2);
    assert(q2 == q2 % 0x100 + 0x100 * q3);
}

/// Two bytes that were written for a value are read back as that value.
pub proof fn lemma_u16_roundtrip(little_endian: bool, v: u16)
    ensures
        u16_bytes(little_endian, v).len() == 2,
        u16_value(little_endian, u16_bytes(little_endian, v)) == v,
{
    lemma_value_of_2(little_endian, u16_bytes(little_endian, v));
    lemma_sum_of_bytes_2(v as int);
}

/// Four bytes that were written for a value are read back as that value.
pub proof fn lemma_u32_roundtrip(little_endian: bool, v: u32)
    ensures
        u32_bytes(little_endian, v).len() == 4,
        u32_value(little_endian, u32_bytes(little_endian, v)) == v,
{
    lemma_value_of_4(little_endian, u32_bytes(little_endian, v));
    lemma_sum_of_bytes_4(v as int);
}

/// A number below two to the 64th is the sum of its eight bytes, each
/// weighted by its place.
pub proof fn lemma_sum_of_bytes_8(u: int)
    requires
        0 <= u < 0x1_0000_0000_0000_0000,
    ensures
        u == byte_of(u, 0) + 0x100 * byte_of(u, 1) + 0x1_0000 * byte_of(u, 2) + 0x100_0000
            * byte_of(u, 3) + 0x1_0000_0000 * byte_of(u, 4) + 0x100_0000_0000 * byte_of(u, 5)
            + 0x1_0000_0000_0000 * byte_of(u, 6) + 0x100_0000_0000_0000 * byte_of(u, 7),
{
    let q1 = u / 0x100;
    let q2 = q1 / 0x100;
    let q3 = q2 / 0x100;
    let q4 = q3 / 0x100;
    let q5 = q4 / 0x100;
    let q6 = q5 / 0x100;
    let q7 = q6 / 0x100;
    assert(q2 == u / 0x1_0000);
    assert(q3 == u / 0x100_0000);
    assert(q4 == u / 0x1_0000_0000);
    assert(q5 == u / 0x100_0000_0000);
    assert(q6 == u / 0x1_0000_0000_0000);
    assert(q7 == u / 0x100_0000_0000_0000);
    assert(q7 < 0x100);
    assert(u == u % 0x100 + 0x100 * q1);
    assert(q1 == q1 % 0x100 + 0x100 * q2);
    assert(q2 == q2 % 0x100 + 0x100 * q3);
    assert(q3 == q3 % 0x100 + 0x100 * q4);
    assert(q4 == q4 % 0x100 + 0x100 * q5);
    assert(q5 == q5 % 0x100 + 0x100 * q6);
    assert(q6 == q6 % 0x100 + 0x100 * q7);
}

/// Eight bytes that were written for a value are read back as that value.
pub proof fn lemma_u64_roundtrip(little_endian: bool, v: u64)
    ensures
        u64_bytes(little_endian, v).len() == 8,
        u64_value(little_endian, u64_bytes(little_endian, v)) == v,
{
    lemma_value_of_8(little_endian, u64_bytes(little_endian, v));
    lemma_sum_of_bytes_8(v as int);
}

/// The byte that was written for a signed byte is read back as that value.
pub proof fn lemma_i8_roundtrip(v: i8)
    ensures
        i8_value(i8_byte(v)) == v,
{
}

/// Two bytes that were written for a signed value are read back as it.
pub proof fn lemma_i16_roundtrip(little_endian: bool, v: i16)
    ensures
        i16_bytes(little_endian, v).len() == 2,
        i16_value(little_endian, i16_bytes(little_endian, v)) == v,
{
    lemma_value_of_2(little_endian, i16_bytes(little_endian, v));
    lemma_sum_of_bytes_2(to_unsigned(v as int, 0x1_0000));
}

/// Four bytes that were written for a signed value are read back as it.
pub proof fn lemma_i32_roundtrip(little_endian: bool, v: i32)
    ensures
        i32_bytes(little_endian, v).len() == 4,
        i32_value(little_endian, i32_bytes(little_endian, v)) == v,
{
    lemma_value_of_4(little_endian, i32_bytes(little_endian, v));
    lemma_sum_of_bytes_4(to_unsigned(v as int, 0x1_0000_0000));
}

/// Eight bytes that were written for a signed value are read back as it.
pub proof fn lemma_i64_roundtrip(little_endian: bool, v: i64)
    ensures
        i64_bytes(little_endian, v).len() == 8,
        i64_value(little_endian, i64_bytes(little_endian, v)) == v,
{
    lemma_value_of_8(little_endian, i64_bytes(little_endian, v));
    lemma_sum_of_bytes_8(to_unsigned(v as int, 0x1_0000_0000_0000_0000));
}

/// The value of two bytes in the given byte order.
pub fn u16_from_bytes(little_endian: bool, b: [u8; 2]) -> (v: u16)
    ensures
        v == u16_value(little_endian, b@),
{
    proof {
        lemma_value_of_2(little_endian, b@);
    }
    if little_endian {
        b[0] as u16 + 0x100 * (b[1] as u16)
    } else {
        b[1] as u16 + 0x100 * (b[0] as u16)
    }
}

/// The value of four bytes in the given byte order.
pub fn u32_from_bytes(little_endian: bool, b: [u8; 4]) -> (v: u32)
    ensures
        v == u32_value(little_endian, b@),
{
    proof {
        lemma_value_of_4(little_endian, b@);
    }
    if little_endian {
        b[0] as u32 + 0x100 * (b[1] as u32) + 0x1_0000 * (b[2] as u32) + 0x100_0000 * (b[3] as u32)
    } else {
        b[3] as u32 + 0x100 * (b[2] as u32) + 0x1_0000 * (b[1] as u32) + 0x100_0000 * (b[0] as u32)
    }
}

/// The value of eight bytes in the given byte order.
pub fn u64_from_bytes(little_endian: bool, b: [u8; 8]) -> (v: u64)
    ensures
        v == u64_value(little_endian, b@),
{
    proof {
        lemma_value_of_8(little_endian, b@);
    }
    if little_endian {
        b[0] as u64 + 0x100 * (b[1] as u64) + 0x1_0000 * (b[2] as u64) + 0x100_0000 * (b[3] as u64)
            + 0x1_0000_0000 * (b[4] as u64) + 0x100_0000_0000 * (b[5] as u64) + 0x1_0000_0000_0000
            * (b[6] as u64) + 0x100_0000_0000_0000 * (b[7] as u64)
    } else {
        b[7] as u64 + 0x100 * (b[6] as u64) + 0x1_0000 * (b[5] as u64) + 0x100_0000 * (b[4] as u64)
            + 0x1_0000_0000 * (b[3] as u64) + 0x100_0000_0000 * (b[2] as u64) + 0x1_0000_0000_0000
            * (b[1] as u64) + 0x100_0000_0000_0000 * (b[0] as u64)
    }
}

/// The signed byte that a byte is read as.
pub fn i8_from_byte(b: u8) -> (v: i8)
    ensures
        v == i8_value(b),
{
    if b < 0x80 {
        b as i8
    } else {
        (b - 0x80) as i8 + i8::MIN
    }
}

/// The signed value that a 16-bit number is read as.
pub fn i16_from_u16(u: u16) -> (v: i16)
    ensures
        v == to_signed(u as int, 0x1_0000),
{
    if u < 0x8000 {
        u as i16
    } else {
        (u - 0x8000) as i16 + i16::MIN
    }
}

/// The signed value that a 32-bit number is read as.
pub fn i32_from_u32(u: u32) -> (v: i32)
    ensures
        v == to_signed(u as int, 0x1_0000_0000),
{
    if u < 0x8000_0000 {
        u as i32
    } else {
        (u - 0x8000_0000) as i32 + i32::MIN
    }
}

/// The signed value that a 64-bit number is read as.
pub fn i64_from_u64(u: u64) -> (v: i64)
    ensures
        v == to_signed(u as int, 0x1_0000_0000_0000_0000),
{
    if u < 0x8000_0000_0000_0000 {
        u as i64
    } else {
        (u - 0x8000_0000_0000_0000) as i64 + i64::MIN
    }
}

/// The byte that is written for a signed byte.
pub fn byte_from_i8(v: i8) -> (b: u8)
    ensures
        b == i8_byte(v),
{
    if v >= 0 {
        v as u8
    } else {
        (v - i8::MIN) as u8 + 0x80
    }
}

/// The 16-bit number that is written for a signed value.
pub fn u16_from_i16(v: i16) -> (u: u16)
    ensures
        u == to_unsigned(v as int, 0x1_0000),
{
    if v >= 0 {
        v as u16
    } else {
        (v - i16::MIN) as u16 + 0x8000
    }
}

/// The 32-bit number that is written for a signed value.
pub fn u32_from_i32(v: i32) -> (u: u32)
    ensures
        u == to_unsigned(v as int, 0x1_0000_0000),
{
    if v >= 0 {
        v as u32
    } else {
        (v - i32::MIN) as u32 + 0x8000_0000
    }
}

/// The 64-bit number that is written for a signed value.
pub fn u64_from_i64(v: i64) -> (u: u64)
    ensures
        u == to_unsigned(v as int, 0x1_0000_0000_0000_0000),
{
    if v >= 0 {
        v as u64
    } else {
        (v - i64::MIN) as u64 + 0x8000_0000_0000_0000
    }
}

/// Byte `i` of `v`, counted from the least significant one; the most
/// significant byte for `i` above 7.
pub fn nth_byte(v: u64, i: usize) -> (b: u8)
    ensures
        b == byte_of(v as int, i as int),
{
    if i == 0 {
        (v % 0x100) as u8
    } else if i == 1 {
        (v / 0x100 % 0x100) as u8
    } else if i == 2 {
        (v / 0x1_0000 % 0x100) as u8
    } else if i == 3 {
        (v / 0x100_0000 % 0x100) as u8
    } else if i == 4 {
        (v / 0x1_0000_0000 % 0x100) as u8
    } else if i == 5 {
        (v / 0x100_0000_0000 % 0x100) as u8
    } else if i == 6 {
        (v / 0x1_0000_0000_0000 % 0x100) as u8
    } else {
        (v / 0x100_0000_0000_0000 % 0x100) as u8
    }
}

} // verus!
