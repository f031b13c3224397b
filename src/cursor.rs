//! The byte cursor: a borrowed slice that shrinks from the front as bytes are read,
//! and the fixed-width big-endian integers read from it.
use vstd::prelude::*;

use crate::ErrorKind;

verus! {

/// Splits the first `at` bytes off `raw`, if there are that many.
/// On failure `raw` is left as it was.
pub fn split_checked<'a>(raw: &mut &'a [u8], at: usize) -> (r: Option<&'a [u8]>)
    ensures
        at <= old(raw)@.len() ==> r.is_some() && r.unwrap()@ == old(raw)@.subrange(0, at as int)
            && final(raw)@ == old(raw)@.subrange(at as int, old(raw)@.len() as int),
        at > old(raw)@.len() ==> r.is_none() && final(raw)@ == old(raw)@,
{
    if at > raw.len() {
        None
    } else {
        let (extracted, remainder) = raw.split_at(at);
        *raw = remainder;
        Some(extracted)
    }
}

/// The value of two bytes read most significant first.
pub open spec fn be16(b0: u8, b1: u8) -> int {
    b0 * 0x100 + b1
}

/// The value of three bytes read most significant first.
pub open spec fn be24(b0: u8, b1: u8, b2: u8) -> int {
    b0 * 0x1_0000 + b1 * 0x100 + b2
}

/// The value of four bytes read most significant first.
pub open spec fn be32(b0: u8, b1: u8, b2: u8, b3: u8) -> int {
    b0 * 0x100_0000 + b1 * 0x1_0000 + b2 * 0x100 + b3
}

/// The outcome of a fixed-width read of `n` bytes: the cursor advances by `n` on
/// success and stays where it was on failure, which comes iff fewer than `n` remain.
pub open spec fn fixed_read<T>(before: Seq<u8>, after: Seq<u8>, n: int, r: Result<T, ErrorKind>) -> bool {
    &&& r.is_err() <==> before.len() < n
    &&& r.is_err() ==> r == Err::<T, ErrorKind>(ErrorKind::Invalid) && after == before
    &&& r.is_ok() ==> after == before.subrange(n, before.len() as int)
}

/// Reads one byte.
pub fn read_u8(raw: &mut &[u8]) -> (r: Result<u8, ErrorKind>)
    ensures
        fixed_read(old(raw)@, final(raw)@, 1, r),
        r.is_ok() ==> r.unwrap() == old(raw)@[0],
{
    match split_checked(raw, 1) {
        Some(bytes) => Ok(bytes[0]),
        None => Err(ErrorKind::Invalid),
    }
}

/// Reads a big-endian 16-bit integer.
pub fn read_u16(raw: &mut &[u8]) -> (r: Result<u16, ErrorKind>)
    ensures
        fixed_read(old(raw)@, final(raw)@, 2, r),
        r.is_ok() ==> r.unwrap() == be16(old(raw)@[0], old(raw)@[1]),
{
    match split_checked(raw, 2) {
        Some(bytes) => Ok(bytes[0] as u16 * 0x100 + bytes[1] as u16),
        None => Err(ErrorKind::Invalid),
    }
}

/// Reads a big-endian 32-bit integer.
pub fn read_u32(raw: &mut &[u8]) -> (r: Result<u32, ErrorKind>)
    ensures
        fixed_read(old(raw)@, final(raw)@, 4, r),
        r.is_ok() ==> r.unwrap() == be32(old(raw)@[0], old(raw)@[1], old(raw)@[2], old(raw)@[3]),
{
    match split_checked(raw, 4) {
        Some(bytes) => Ok(
            bytes[0] as u32 * 0x100_0000 + bytes[1] as u32 * 0x1_0000 + bytes[2] as u32 * 0x100
                + bytes[3] as u32,
        ),
        None => Err(ErrorKind::Invalid),
    }
}

/// The two bytes of `v`, most significant first.
pub open spec fn be16_bytes(v: u16) -> Seq<u8> {
    seq![(v / 0x100) as u8, (v % 0x100) as u8]
}

/// Writes `v` as two bytes, most significant first.
pub fn u16_to_be(v: u16) -> (r: [u8; 2])
    ensures
        r@ == be16_bytes(v),
        be16(r@[0], r@[1]) == v,
{
    let r = [(v / 0x100) as u8, (v % 0x100) as u8];
    assert(r@ =~= be16_bytes(v));
    r
}

} // verus!
