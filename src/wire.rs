//! Big-endian layout of the fixed-width signed integers.
use vstd::prelude::*;

verus! {

/// The single byte of an `i8`.
pub open spec fn i8_to_be(v: i8) -> Seq<u8> {
    seq![v as u8]
}

/// The `i8` held in the first byte of `b`.
pub open spec fn i8_from_be(b: Seq<u8>) -> i8 {
    b[0] as i8
}

/// The two bytes of an `i16`, most significant first.
pub open spec fn i16_to_be(v: i16) -> Seq<u8> {
    seq![((v as u16) >> 8u16) as u8, (v as u16) as u8]
}

/// The `i16` held in the first two bytes of `b`, most significant first.
pub open spec fn i16_from_be(b: Seq<u8>) -> i16 {
    (((b[0] as u16) << 8u16) | (b[1] as u16)) as i16
}

/// The four bytes of an `i32`, most significant first.
pub open spec fn i32_to_be(v: i32) -> Seq<u8> {
    let u = v as u32;
    seq![(u >> 24u32) as u8, (u >> 16u32) as u8, (u >> 8u32) as u8, u as u8]
}

/// The `i32` held in the first four bytes of `b`, most significant first.
pub open spec fn i32_from_be(b: Seq<u8>) -> i32 {
    (((b[0] as u32) << 24u32) | ((b[1] as u32) << 16u32) | ((b[2] as u32) << 8u32) | (b[3] as u32)) as i32
}

/// The eight bytes of an `i64`, most significant first.
pub open spec fn i64_to_be(v: i64) -> Seq<u8> {
    let u = v as u64;
    seq![
        (u >> 56u64) as u8,
        (u >> 48u64) as u8,
        (u >> 40u64) as u8,
        (u >> 32u64) as u8,
        (u >> 24u64) as u8,
        (u >> 16u64) as u8,
        (u >> 8u64) as u8,
        u as u8,
    ]
}

/// The `i64` held in the first eight bytes of `b`, most significant first.
pub open spec fn i64_from_be(b: Seq<u8>) -> i64 {
    (((b[0] as u64) << 56u64) | ((b[1] as u64) << 48u64) | ((b[2] as u64) << 40u64) | ((b[3] as u64)
        << 32u64) | ((b[4] as u64) << 24u64) | ((b[5] as u64) << 16u64) | ((b[6] as u64) << 8u64)
        | (b[7] as u64)) as i64
}

pub proof fn lemma_i8_round_trip(v: i8)
    ensures
        i8_from_be(i8_to_be(v)) == v,
        i8_to_be(v).len() == 1,
{
    assert(((v as u8) as i8) == v) by (bit_vector);
}

pub proof fn lemma_i16_round_trip(v: i16)
    ensures
        i16_from_be(i16_to_be(v)) == v,
        i16_to_be(v).len() == 2,
{
    assert((((((v as u16) >> 8u16) as u8 as u16) << 8u16) | ((v as u16) as u8 as u16)) as i16 == v)
        by (bit_vector);
}

pub proof fn lemma_i32_round_trip(v: i32)
    ensures
        i32_from_be(i32_to_be(v)) == v,
        i32_to_be(v).len() == 4,
{
    assert(((((((v as u32) >> 24u32) as u8 as u32) << 24u32) | ((((v as u32) >> 16u32) as u8 as u32)
        << 16u32) | ((((v as u32) >> 8u32) as u8 as u32) << 8u32) | ((v as u32) as u8 as u32))
        as i32) == v) by (bit_vector);
}

pub proof fn lemma_i64_round_trip(v: i64)
    ensures
        i64_from_be(i64_to_be(v)) == v,
        i64_to_be(v).len() == 8,
{
    assert(((((((v as u64) >> 56u64) as u8 as u64) << 56u64) | ((((v as u64) >> 48u64) as u8 as u64)
        << 48u64) | ((((v as u64) >> 40u64) as u8 as u64) << 40u64) | ((((v as u64) >> 32u64) as u8
        as u64) << 32u64) | ((((v as u64) >> 24u64) as u8 as u64) << 24u64) | ((((v as u64)
        >> 16u64) as u8 as u64) << 16u64) | ((((v as u64) >> 8u64) as u8 as u64) << 8u64) | ((
    v as u64) as u8 as u64)) as i64) == v) by (bit_vector);
}

} // verus!
