//! Two's-complement correspondence between the unsigned value a bit pattern
//! carries on the wire and the signed value the caller sees.

use vstd::prelude::*;

verus! {

/// The signed reading of an unsigned value `v` under modulus `m`
/// (for example `m == 0x1_0000_0000` for 32-bit values).
pub open spec fn to_signed(v: int, m: int) -> int
    recommends
        0 <= v < m,
{
    if 2 * v < m {
        v
    } else {
        v - m
    }
}

/// The unsigned wire value of a signed number `x` under modulus `m`.
pub open spec fn to_unsigned(x: int, m: int) -> int
    recommends
        -m <= 2 * x < m,
{
    if x >= 0 {
        x
    } else {
        x + m
    }
}

/// Round trip: reading back the wire value of `x` yields `x` again.
pub proof fn lemma_signed_round_trip(x: int, m: int)
    requires
        -m <= 2 * x < m,
    ensures
        to_signed(to_unsigned(x, m), m) == x,
{
}

pub(crate) fn u8_to_i8(x: u8) -> (r: i8)
    ensures
        r as int == to_signed(x as int, 0x100),
{
    if x < 0x80 {
        x as i8
    } else {
        (x - 0x80) as i8 - 0x7f - 1
    }
}

pub(crate) fn i8_to_u8(x: i8) -> (r: u8)
    ensures
        r as int == to_unsigned(x as int, 0x100),
{
    if x >= 0 {
        x as u8
    } else {
        ((x + 0x7f + 1) as u8) + 0x80
    }
}

pub(crate) fn u16_to_i16(x: u16) -> (r: i16)
    ensures
        r as int == to_signed(x as int, 0x1_0000),
{
    if x < 0x8000 {
        x as i16
    } else {
        (x - 0x8000) as i16 - 0x7fff - 1
    }
}

pub(crate) fn i16_to_u16(x: i16) -> (r: u16)
    ensures
        r as int == to_unsigned(x as int, 0x1_0000),
{
    if x >= 0 {
        x as u16
    } else {
        ((x + 0x7fff + 1) as u16) + 0x8000
    }
}

pub(crate) fn u32_to_i32(x: u32) -> (r: i32)
    ensures
        r as int == to_signed(x as int, 0x1_0000_0000),
{
    if x < 0x8000_0000 {
        x as i32
    } else {
        (x - 0x8000_0000) as i32 - 0x7fff_ffff - 1
    }
}

pub(crate) fn i32_to_u32(x: i32) -> (r: u32)
    ensures
        r as int == to_unsigned(x as int, 0x1_0000_0000),
{
    if x >= 0 {
        x as u32
    } else {
        ((x + 0x7fff_ffff + 1) as u32) + 0x8000_0000
    }
}

pub(crate) fn u64_to_i64(x: u64) -> (r: i64)
    ensures
        r as int == to_signed(x as int, 0x1_0000_0000_0000_0000),
{
    if x < 0x8000_0000_0000_0000 {
        x as i64
    } else {
        (x - 0x8000_0000_0000_0000) as i64 - 0x7fff_ffff_ffff_ffff - 1
    }
}

pub(crate) fn i64_to_u64(x: i64) -> (r: u64)
    ensures
        r as int == to_unsigned(x as int, 0x1_0000_0000_0000_0000),
{
    if x >= 0 {
        x as u64
    } else {
        ((x + 0x7fff_ffff_ffff_ffff + 1) as u64) + 0x8000_0000_0000_0000
    }
}

} // verus!
