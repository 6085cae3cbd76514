//! Big-endian layouts of the fixed-width integers, as mathematical
//! functions on byte sequences.

use vstd::prelude::*;

verus! {

/// The one byte of an `i8`, in two's complement.
pub open spec fn be_i8(v: i8) -> Seq<u8> {
    seq![v as u8]
}

/// The `i8` held in the first byte of `b`.
pub open spec fn i8_from_be(b: Seq<u8>) -> i8 {
    b[0] as i8
}

/// The two bytes of a `u16`, most significant first.
pub open spec fn be_u16(v: u16) -> Seq<u8> {
    seq![(v >> 8) as u8, v as u8]
}

/// The `u16` whose most significant byte is `b[0]`.
pub open spec fn u16_from_be(b: Seq<u8>) -> u16 {
    ((b[0] as u16) << 8) | (b[1] as u16)
}

/// The two bytes of an `i16`: those of its two's complement bit pattern.
pub open spec fn be_i16(v: i16) -> Seq<u8> {
    be_u16(v as u16)
}

pub open spec fn i16_from_be(b: Seq<u8>) -> i16 {
    u16_from_be(b) as i16
}

/// The four bytes of a `u32`, most significant first.
pub open spec fn be_u32(v: u32) -> Seq<u8> {
    seq![(v >> 24) as u8, (v >> 16) as u8, (v >> 8) as u8, v as u8]
}

pub open spec fn u32_from_be(b: Seq<u8>) -> u32 {
    ((b[0] as u32) << 24) | ((b[1] as u32) << 16) | ((b[2] as u32) << 8) | (b[3] as u32)
}

/// The four bytes of an `i32`: those of its two's complement bit pattern.
pub open spec fn be_i32(v: i32) -> Seq<u8> {
    be_u32(v as u32)
}

pub open spec fn i32_from_be(b: Seq<u8>) -> i32 {
    u32_from_be(b) as i32
}

/// The eight bytes of a `u64`, most significant first.
pub open spec fn be_u64(v: u64) -> Seq<u8> {
    seq![
        (v >> 56) as u8,
        (v >> 48) as u8,
        (v >> 40) as u8,
        (v >> 32) as u8,
        (v >> 24) as u8,
        (v >> 16) as u8,
        (v >> 8) as u8,
        v as u8,
    ]
}

pub open spec fn u64_from_be(b: Seq<u8>) -> u64 {
    ((b[0] as u64) << 56) | ((b[1] as u64) << 48) | ((b[2] as u64) << 40) | ((b[3] as u64) << 32)
        | ((b[4] as u64) << 24) | ((b[5] as u64) << 16) | ((b[6] as u64) << 8) | (b[7] as u64)
}

/// The eight bytes of an `i64`: those of its two's complement bit pattern.
pub open spec fn be_i64(v: i64) -> Seq<u8> {
    be_u64(v as u64)
}

pub open spec fn i64_from_be(b: Seq<u8>) -> i64 {
    u64_from_be(b) as i64
}

/// Reading back the byte of an `i8` gives the `i8`.
pub proof fn lemma_i8_round_trip(v: i8)
    ensures
        be_i8(v).len() == 1,
        i8_from_be(be_i8(v)) == v,
{
    assert((v as u8) as i8 == v) by (bit_vector);
}

/// Reading back the bytes of an `i16` gives the `i16`.
pub proof fn lemma_i16_round_trip(v: i16)
    ensures
        be_i16(v).len() == 2,
        i16_from_be(be_i16(v)) == v,
{
    let u = v as u16;
    let b0 = (u >> 8) as u8;
    let b1 = u as u8;
    assert((((b0 as u16) << 8) | (b1 as u16)) as i16 == v) by (bit_vector)
        requires
            u == v as u16,
            b0 == (u >> 8) as u8,
            b1 == u as u8,
    ;
}

/// Reading back the bytes of an `i32` gives the `i32`.
pub proof fn lemma_i32_round_trip(v: i32)
    ensures
        be_i32(v).len() == 4,
        i32_from_be(be_i32(v)) == v,
{
    let u = v as u32;
    let b0 = (u >> 24) as u8;
    let b1 = (u >> 16) as u8;
    let b2 = (u >> 8) as u8;
    let b3 = u as u8;
    assert((((b0 as u32) << 24) | ((b1 as u32) << 16) | ((b2 as u32) << 8) | (b3 as u32)) as i32
        == v) by (bit_vector)
        requires
            u == v as u32,
            b0 == (u >> 24) as u8,
            b1 == (u >> 16) as u8,
            b2 == (u >> 8) as u8,
            b3 == u as u8,
    ;
}

/// Reading back the bytes of a `u64` gives the `u64`.
pub proof fn lemma_u64_round_trip(u: u64)
    ensures
        be_u64(u).len() == 8,
        u64_from_be(be_u64(u)) == u,
{
    let b0 = (u >> 56) as u8;
    let b1 = (u >> 48) as u8;
    let b2 = (u >> 40) as u8;
    let b3 = (u >> 32) as u8;
    let b4 = (u >> 24) as u8;
    let b5 = (u >> 16) as u8;
    let b6 = (u >> 8) as u8;
    let b7 = u as u8;
    assert((((b0 as u64) << 56) | ((b1 as u64) << 48) | ((b2 as u64) << 40) | ((b3 as u64) << 32)
        | ((b4 as u64) << 24) | ((b5 as u64) << 16) | ((b6 as u64) << 8) | (b7 as u64)) == u)
        by (bit_vector)
        requires
            b0 == (u >> 56) as u8,
            b1 == (u >> 48) as u8,
            b2 == (u >> 40) as u8,
            b3 == (u >> 32) as u8,
            b4 == (u >> 24) as u8,
            b5 == (u >> 16) as u8,
            b6 == (u >> 8) as u8,
            b7 == u as u8,
    ;
}

/// Reading back the bytes of an `i64` gives the `i64`.
pub proof fn lemma_i64_round_trip(v: i64)
    ensures
        be_i64(v).len() == 8,
        i64_from_be(be_i64(v)) == v,
{
    lemma_u64_round_trip(v as u64);
    assert((v as u64) as i64 == v) by (bit_vector);
}

} // verus!
