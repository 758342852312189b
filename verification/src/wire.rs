//! Fixed-width integers on the wire.
//!
//! The spec functions here say what a big-endian or little-endian field is;
//! the executable readers and writers are thin calls into `nom` and
//! `byteorder`, whose contracts are stated against those functions and are
//! taken on trust.

use byteorder::{BigEndian, LittleEndian, WriteBytesExt};
use vstd::prelude::*;

verus! {

/// The value of the two bytes at the front of `b`, most significant first.
pub open spec fn be_u16_value(b: Seq<u8>) -> u16
    recommends
        b.len() >= 2,
{
    (b[0] as int * 0x100 + b[1] as int) as u16
}

/// The value of the four bytes at the front of `b`, most significant first.
pub open spec fn be_u32_value(b: Seq<u8>) -> u32
    recommends
        b.len() >= 4,
{
    (b[0] as int * 0x100_0000 + b[1] as int * 0x1_0000 + b[2] as int * 0x100 + b[3] as int) as u32
}

/// The value of the four bytes at the front of `b`, least significant first.
pub open spec fn le_u32_value(b: Seq<u8>) -> u32
    recommends
        b.len() >= 4,
{
    (b[3] as int * 0x100_0000 + b[2] as int * 0x1_0000 + b[1] as int * 0x100 + b[0] as int) as u32
}

/// The two bytes of `v`, most significant first.
pub open spec fn be_u16_bytes(v: u16) -> Seq<u8> {
    seq![(v / 0x100) as u8, (v % 0x100) as u8]
}

/// The two bytes of `v`, least significant first.
pub open spec fn le_u16_bytes(v: u16) -> Seq<u8> {
    seq![(v % 0x100) as u8, (v / 0x100) as u8]
}

/// The four bytes of `v`, most significant first.
pub open spec fn be_u32_bytes(v: u32) -> Seq<u8> {
    seq![
        (v / 0x100_0000) as u8,
        (v / 0x1_0000 % 0x100) as u8,
        (v / 0x100 % 0x100) as u8,
        (v % 0x100) as u8,
    ]
}

/// The four bytes of `v`, least significant first.
pub open spec fn le_u32_bytes(v: u32) -> Seq<u8> {
    seq![
        (v % 0x100) as u8,
        (v / 0x100 % 0x100) as u8,
        (v / 0x1_0000 % 0x100) as u8,
        (v / 0x100_0000) as u8,
    ]
}

/// Reading back what was written big-endian gives the value again.
pub proof fn lemma_be_u16_round_trip(v: u16)
    ensures
        be_u16_bytes(v).len() == 2,
        be_u16_value(be_u16_bytes(v)) == v,
{
}

/// Reading back what was written big-endian gives the value again.
pub proof fn lemma_be_u32_round_trip(v: u32)
    ensures
        be_u32_bytes(v).len() == 4,
        be_u32_value(be_u32_bytes(v)) == v,
{
}

/// Reading back what was written little-endian gives the value again.
pub proof fn lemma_le_u32_round_trip(v: u32)
    ensures
        le_u32_bytes(v).len() == 4,
        le_u32_value(le_u32_bytes(v)) == v,
{
}

/// Writing what was read big-endian gives the two bytes again.
pub proof fn lemma_be_u16_bytes_of_value(b: Seq<u8>)
    requires
        b.len() == 2,
    ensures
        be_u16_bytes(be_u16_value(b)) == b,
{
}

/// Four bytes put together in base 256 come apart again by division.
proof fn lemma_base_256_digits(b0: int, b1: int, b2: int, b3: int)
    requires
        0 <= b0 < 0x100,
        0 <= b1 < 0x100,
        0 <= b2 < 0x100,
        0 <= b3 < 0x100,
    ensures
        ({
            let x = b0 * 0x100_0000 + b1 * 0x1_0000 + b2 * 0x100 + b3;
            &&& 0 <= x < 0x1_0000_0000
            &&& x / 0x100_0000 == b0
            &&& x / 0x1_0000 % 0x100 == b1
            &&& x / 0x100 % 0x100 == b2
            &&& x % 0x100 == b3
        }),
{
    let x = b0 * 0x100_0000 + b1 * 0x1_0000 + b2 * 0x100 + b3;
    vstd::arithmetic::div_mod::lemma_fundamental_div_mod_converse(
        x,
        0x100_0000,
        b0,
        b1 * 0x1_0000 + b2 * 0x100 + b3,
    );
    vstd::arithmetic::div_mod::lemma_fundamental_div_mod_converse(
        x,
        0x1_0000,
        b0 * 0x100 + b1,
        b2 * 0x100 + b3,
    );
    vstd::arithmetic::div_mod::lemma_fundamental_div_mod_converse(b0 * 0x100 + b1, 0x100, b0, b1);
    vstd::arithmetic::div_mod::lemma_fundamental_div_mod_converse(
        x,
        0x100,
        b0 * 0x1_0000 + b1 * 0x100 + b2,
        b3,
    );
    vstd::arithmetic::div_mod::lemma_fundamental_div_mod_converse(
        b0 * 0x1_0000 + b1 * 0x100 + b2,
        0x100,
        b0 * 0x100 + b1,
        b2,
    );
}

/// Writing what was read big-endian gives the four bytes again.
pub proof fn lemma_be_u32_bytes_of_value(b: Seq<u8>)
    requires
        b.len() == 4,
    ensures
        be_u32_bytes(be_u32_value(b)) == b,
{
    lemma_base_256_digits(b[0] as int, b[1] as int, b[2] as int, b[3] as int);
}

/// Writing what was read little-endian gives the four bytes again.
pub proof fn lemma_le_u32_bytes_of_value(b: Seq<u8>)
    requires
        b.len() == 4,
    ensures
        le_u32_bytes(le_u32_value(b)) == b,
{
    lemma_base_256_digits(b[3] as int, b[2] as int, b[1] as int, b[0] as int);
}

/// `nom::be_u8`: the first byte of `input`, or nothing when `input` is empty.
#[verifier::external_body]
pub(crate) fn be_u8(input: &[u8]) -> (r: Option<u8>)
    ensures
        r == (if input@.len() >= 1 {
            Some(input@[0])
        } else {
            None
        }),
{
    match nom::be_u8(input) {
        Ok((_, v)) => Some(v),
        Err(_) => None,
    }
}

/// `nom::be_u16`: the first two bytes of `input` read most significant first,
/// or nothing when `input` holds fewer than two bytes.
#[verifier::external_body]
pub(crate) fn be_u16(input: &[u8]) -> (r: Option<u16>)
    ensures
        r == (if input@.len() >= 2 {
            Some(be_u16_value(input@))
        } else {
            None
        }),
{
    match nom::be_u16(input) {
        Ok((_, v)) => Some(v),
        Err(_) => None,
    }
}

/// `nom::be_u32`: the first four bytes of `input` read most significant
/// first, or nothing when `input` holds fewer than four bytes.
#[verifier::external_body]
pub(crate) fn be_u32(input: &[u8]) -> (r: Option<u32>)
    ensures
        r == (if input@.len() >= 4 {
            Some(be_u32_value(input@))
        } else {
            None
        }),
{
    match nom::be_u32(input) {
        Ok((_, v)) => Some(v),
        Err(_) => None,
    }
}

/// `nom::le_u32`: the first four bytes of `input` read least significant
/// first, or nothing when `input` holds fewer than four bytes.
#[verifier::external_body]
pub(crate) fn le_u32(input: &[u8]) -> (r: Option<u32>)
    ensures
        r == (if input@.len() >= 4 {
            Some(le_u32_value(input@))
        } else {
            None
        }),
{
    match nom::le_u32(input) {
        Ok((_, v)) => Some(v),
        Err(_) => None,
    }
}

/// `byteorder::WriteBytesExt::write_u16::<BigEndian>` on a `Vec<u8>`: appends
/// the two bytes of `v`, most significant first. Writing to a vector does not
/// fail.
#[verifier::external_body]
pub(crate) fn push_u16_be(f: &mut Vec<u8>, v: u16)
    ensures
        final(f)@ == old(f)@ + be_u16_bytes(v),
{
    f.write_u16::<BigEndian>(v).unwrap();
}

/// `byteorder::WriteBytesExt::write_u16::<LittleEndian>` on a `Vec<u8>`:
/// appends the two bytes of `v`, least significant first. Writing to a vector
/// does not fail.
#[verifier::external_body]
pub(crate) fn push_u16_le(f: &mut Vec<u8>, v: u16)
    ensures
        final(f)@ == old(f)@ + le_u16_bytes(v),
{
    f.write_u16::<LittleEndian>(v).unwrap();
}

/// `byteorder::WriteBytesExt::write_u32::<BigEndian>` on a `Vec<u8>`: appends
/// the four bytes of `v`, most significant first. Writing to a vector does
/// not fail.
#[verifier::external_body]
pub(crate) fn push_u32_be(f: &mut Vec<u8>, v: u32)
    ensures
        final(f)@ == old(f)@ + be_u32_bytes(v),
{
    f.write_u32::<BigEndian>(v).unwrap();
}

/// `byteorder::WriteBytesExt::write_u32::<LittleEndian>` on a `Vec<u8>`:
/// appends the four bytes of `v`, least significant first. Writing to a
/// vector does not fail.
#[verifier::external_body]
pub(crate) fn push_u32_le(f: &mut Vec<u8>, v: u32)
    ensures
        final(f)@ == old(f)@ + le_u32_bytes(v),
{
    f.write_u32::<LittleEndian>(v).unwrap();
}

/// Appends `v` as a 32-bit field, big-endian when `endian` is set and
/// little-endian otherwise.
pub fn write_u32(v: u32, f: &mut Vec<u8>, endian: bool)
    ensures
        final(f)@ == old(f)@ + (if endian {
            be_u32_bytes(v)
        } else {
            le_u32_bytes(v)
        }),
{
    if endian {
        push_u32_be(f, v);
    } else {
        push_u32_le(f, v);
    }
}

/// Appends `v` as a 16-bit field, big-endian when `endian` is set and
/// little-endian otherwise.
pub fn write_u16(v: u16, f: &mut Vec<u8>, endian: bool)
    ensures
        final(f)@ == old(f)@ + (if endian {
            be_u16_bytes(v)
        } else {
            le_u16_bytes(v)
        }),
{
    if endian {
        push_u16_be(f, v);
    } else {
        push_u16_le(f, v);
    }
}

} // verus!
