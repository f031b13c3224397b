//! Integers that occupy fewer bits than the native integer that stores them.
//!
//! Each type has a truncating constructor that keeps the low bits and always
//! succeeds, and a validating one that fails when a dropped bit was set.
use vstd::prelude::*;

use crate::cursor::{be16, be16_bytes, be24, read_u16, read_u8, split_checked};
use crate::{Conformance, ErrorKind};

verus! {

/// A 15-bit integer stored in a `u16`.
#[allow(non_camel_case_types)]
#[derive(Copy, Clone, PartialEq, Eq, Debug, Structural)]
pub struct u15(u16);

impl View for u15 {
    type V = u16;

    closed spec fn view(&self) -> u16 {
        self.0
    }
}

impl u15 {
    #[verifier::type_invariant]
    spec fn fits(self) -> bool {
        self.0 < 0x8000
    }

    /// Keeps the low 15 bits of `raw`.
    pub fn truncate(raw: u16) -> (r: Self)
        ensures
            r@ == raw & 0x7fff,
            r@ < 0x8000,
    {
        let v = raw & 0x7fff;
        assert(raw & 0x7fff < 0x8000) by (bit_vector);
        u15(v)
    }

    /// Succeeds iff `raw` fits in 15 bits.
    pub fn try_from(raw: u16) -> (r: Option<Self>)
        ensures
            r.is_some() <==> raw < 0x8000,
            r.is_some() ==> r.unwrap()@ == raw,
    {
        let trunc = raw & 0x7fff;
        assert((raw & 0x7fff == raw) <==> raw < 0x8000) by (bit_vector);
        if trunc == raw {
            Some(u15(trunc))
        } else {
            None
        }
    }

    /// The stored value.
    pub fn as_int(self) -> (r: u16)
        ensures
            r == self@,
            r < 0x8000,
    {
        proof {
            use_type_invariant(&self);
        }
        self.0
    }

    /// Reads a big-endian `u16`; a value wider than 15 bits is an error in
    /// strict mode and truncated in lenient mode.
    pub fn read(raw: &mut &[u8], mode: Conformance) -> (r: Result<Self, ErrorKind>)
        ensures
            old(raw)@.len() < 2 ==> r == Err::<Self, ErrorKind>(ErrorKind::Invalid) && final(raw)@
                == old(raw)@,
            old(raw)@.len() >= 2 ==> final(raw)@ == old(raw)@.subrange(2, old(raw)@.len() as int) && ({
                let w = be16(old(raw)@[0], old(raw)@[1]) as u16;
                match mode {
                    Conformance::Strict => if w < 0x8000 {
                        r.is_ok() && r.unwrap()@ == w
                    } else {
                        r == Err::<Self, ErrorKind>(ErrorKind::Malformed)
                    },
                    Conformance::Lenient => r.is_ok() && r.unwrap()@ == w & 0x7fff,
                }
            }),
    {
        let w = match read_u16(raw) {
            Ok(w) => w,
            Err(e) => return Err(e),
        };
        match mode {
            Conformance::Strict => match Self::try_from(w) {
                Some(v) => Ok(v),
                None => Err(ErrorKind::Malformed),
            },
            Conformance::Lenient => Ok(Self::truncate(w)),
        }
    }

    /// Two values are equal exactly when their stored integers are.
    pub proof fn lemma_eq_by_value(a: u15, b: u15)
        ensures
            (a@ == b@) == (a == b),
    {
    }
}

/// A 14-bit integer stored in a `u16`.
#[allow(non_camel_case_types)]
#[derive(Copy, Clone, PartialEq, Eq, Debug, Structural)]
pub struct u14(u16);

impl View for u14 {
    type V = u16;

    closed spec fn view(&self) -> u16 {
        self.0
    }
}

impl u14 {
    #[verifier::type_invariant]
    spec fn fits(self) -> bool {
        self.0 < 0x4000
    }

    /// Keeps the low 14 bits of `raw`.
    pub fn truncate(raw: u16) -> (r: Self)
        ensures
            r@ == raw & 0x3fff,
            r@ < 0x4000,
    {
        let v = raw & 0x3fff;
        assert(raw & 0x3fff < 0x4000) by (bit_vector);
        u14(v)
    }

    /// Succeeds iff `raw` fits in 14 bits.
    pub fn try_from(raw: u16) -> (r: Option<Self>)
        ensures
            r.is_some() <==> raw < 0x4000,
            r.is_some() ==> r.unwrap()@ == raw,
    {
        let trunc = raw & 0x3fff;
        assert((raw & 0x3fff == raw) <==> raw < 0x4000) by (bit_vector);
        if trunc == raw {
            Some(u14(trunc))
        } else {
            None
        }
    }

    /// The stored value.
    pub fn as_int(self) -> (r: u16)
        ensures
            r == self@,
            r < 0x4000,
    {
        proof {
            use_type_invariant(&self);
        }
        self.0
    }

    /// Reads a big-endian `u16`; a value wider than 14 bits is an error in
    /// strict mode and truncated in lenient mode.
    pub fn read(raw: &mut &[u8], mode: Conformance) -> (r: Result<Self, ErrorKind>)
        ensures
            old(raw)@.len() < 2 ==> r == Err::<Self, ErrorKind>(ErrorKind::Invalid) && final(raw)@
                == old(raw)@,
            old(raw)@.len() >= 2 ==> final(raw)@ == old(raw)@.subrange(2, old(raw)@.len() as int) && ({
                let w = be16(old(raw)@[0], old(raw)@[1]) as u16;
                match mode {
                    Conformance::Strict => if w < 0x4000 {
                        r.is_ok() && r.unwrap()@ == w
                    } else {
                        r == Err::<Self, ErrorKind>(ErrorKind::Malformed)
                    },
                    Conformance::Lenient => r.is_ok() && r.unwrap()@ == w & 0x3fff,
                }
            }),
    {
        let w = match read_u16(raw) {
            Ok(w) => w,
            Err(e) => return Err(e),
        };
        match mode {
            Conformance::Strict => match Self::try_from(w) {
                Some(v) => Ok(v),
                None => Err(ErrorKind::Malformed),
            },
            Conformance::Lenient => Ok(Self::truncate(w)),
        }
    }

    /// Reads two bytes that carry seven bits each, most significant first; the top
    /// bit of each byte is padding, and a set one is an error in strict mode.
    pub fn read_u7(raw: &mut &[u8], mode: Conformance) -> (r: Result<Self, ErrorKind>)
        ensures
            old(raw)@.len() < 2 ==> r == Err::<Self, ErrorKind>(ErrorKind::Invalid) && final(raw)@
                == old(raw)@,
            old(raw)@.len() >= 2 ==> final(raw)@ == old(raw)@.subrange(2, old(raw)@.len() as int) && ({
                let (b0, b1) = (old(raw)@[0], old(raw)@[1]);
                if mode == Conformance::Strict && (b0 >= 0x80 || b1 >= 0x80) {
                    r == Err::<Self, ErrorKind>(ErrorKind::Malformed)
                } else {
                    r.is_ok() && r.unwrap()@ == (b0 % 0x80) * 0x80 + b1 % 0x80
                }
            }),
    {
        let bytes = match split_checked(raw, 2) {
            Some(bytes) => bytes,
            None => return Err(ErrorKind::Invalid),
        };
        let (b0, b1) = (bytes[0], bytes[1]);
        if let Conformance::Strict = mode {
            if b0 >= 0x80 || b1 >= 0x80 {
                return Err(ErrorKind::Malformed);
            }
        }
        assert(b0 & 0x7f == b0 % 0x80) by (bit_vector);
        assert(b1 & 0x7f == b1 % 0x80) by (bit_vector);
        let w: u16 = (b0 & 0x7f) as u16 * 0x80 + (b1 & 0x7f) as u16;
        // At most fourteen bits were assembled, so the validating constructor succeeds
        // in strict mode and the truncating one keeps every bit in lenient mode.
        assert(w < 0x4000 ==> w & 0x3fff == w) by (bit_vector);
        match mode {
            Conformance::Strict => match Self::try_from(w) {
                Some(v) => Ok(v),
                None => Err(ErrorKind::Malformed),
            },
            Conformance::Lenient => Ok(Self::truncate(w)),
        }
    }
}

/// A 7-bit integer stored in a `u8`.
#[allow(non_camel_case_types)]
#[derive(Copy, Clone, PartialEq, Eq, Debug, Structural)]
pub struct u7(u8);

impl View for u7 {
    type V = u8;

    closed spec fn view(&self) -> u8 {
        self.0
    }
}

impl u7 {
    #[verifier::type_invariant]
    spec fn fits(self) -> bool {
        self.0 < 0x80
    }

    /// Keeps the low 7 bits of `raw`.
    pub fn truncate(raw: u8) -> (r: Self)
        ensures
            r@ == raw & 0x7f,
            r@ < 0x80,
    {
        let v = raw & 0x7f;
        assert(raw & 0x7f < 0x80) by (bit_vector);
        u7(v)
    }

    /// Succeeds iff `raw` fits in 7 bits.
    pub fn try_from(raw: u8) -> (r: Option<Self>)
        ensures
            r.is_some() <==> raw < 0x80,
            r.is_some() ==> r.unwrap()@ == raw,
    {
        let trunc = raw & 0x7f;
        assert((raw & 0x7f == raw) <==> raw < 0x80) by (bit_vector);
        if trunc == raw {
            Some(u7(trunc))
        } else {
            None
        }
    }

    /// The stored value.
    pub fn as_int(self) -> (r: u8)
        ensures
            r == self@,
            r < 0x80,
    {
        proof {
            use_type_invariant(&self);
        }
        self.0
    }

    /// Reads a big-endian `u8`; a value wider than 7 bits is an error in
    /// strict mode and truncated in lenient mode.
    pub fn read(raw: &mut &[u8], mode: Conformance) -> (r: Result<Self, ErrorKind>)
        ensures
            old(raw)@.len() < 1 ==> r == Err::<Self, ErrorKind>(ErrorKind::Invalid) && final(raw)@
                == old(raw)@,
            old(raw)@.len() >= 1 ==> final(raw)@ == old(raw)@.subrange(1, old(raw)@.len() as int) && ({
                let w = old(raw)@[0];
                match mode {
                    Conformance::Strict => if w < 0x80 {
                        r.is_ok() && r.unwrap()@ == w
                    } else {
                        r == Err::<Self, ErrorKind>(ErrorKind::Malformed)
                    },
                    Conformance::Lenient => r.is_ok() && r.unwrap()@ == w & 0x7f,
                }
            }),
    {
        let w = match read_u8(raw) {
            Ok(w) => w,
            Err(e) => return Err(e),
        };
        match mode {
            Conformance::Strict => match Self::try_from(w) {
                Some(v) => Ok(v),
                None => Err(ErrorKind::Malformed),
            },
            Conformance::Lenient => Ok(Self::truncate(w)),
        }
    }
}

/// A 4-bit integer stored in a `u8`.
#[allow(non_camel_case_types)]
#[derive(Copy, Clone, PartialEq, Eq, Debug, Structural)]
pub struct u4(u8);

impl View for u4 {
    type V = u8;

    closed spec fn view(&self) -> u8 {
        self.0
    }
}

impl u4 {
    #[verifier::type_invariant]
    spec fn fits(self) -> bool {
        self.0 < 0x10
    }

    /// Keeps the low 4 bits of `raw`.
    pub fn truncate(raw: u8) -> (r: Self)
        ensures
            r@ == raw & 0xf,
            r@ < 0x10,
    {
        let v = raw & 0xf;
        assert(raw & 0xf < 0x10) by (bit_vector);
        u4(v)
    }

    /// Succeeds iff `raw` fits in 4 bits.
    pub fn try_from(raw: u8) -> (r: Option<Self>)
        ensures
            r.is_some() <==> raw < 0x10,
            r.is_some() ==> r.unwrap()@ == raw,
    {
        let trunc = raw & 0xf;
        assert((raw & 0xf == raw) <==> raw < 0x10) by (bit_vector);
        if trunc == raw {
            Some(u4(trunc))
        } else {
            None
        }
    }

    /// The stored value.
    pub fn as_int(self) -> (r: u8)
        ensures
            r == self@,
            r < 0x10,
    {
        proof {
            use_type_invariant(&self);
        }
        self.0
    }

    /// Reads a big-endian `u8`; a value wider than 4 bits is an error in
    /// strict mode and truncated in lenient mode.
    pub fn read(raw: &mut &[u8], mode: Conformance) -> (r: Result<Self, ErrorKind>)
        ensures
            old(raw)@.len() < 1 ==> r == Err::<Self, ErrorKind>(ErrorKind::Invalid) && final(raw)@
                == old(raw)@,
            old(raw)@.len() >= 1 ==> final(raw)@ == old(raw)@.subrange(1, old(raw)@.len() as int) && ({
                let w = old(raw)@[0];
                match mode {
                    Conformance::Strict => if w < 0x10 {
                        r.is_ok() && r.unwrap()@ == w
                    } else {
                        r == Err::<Self, ErrorKind>(ErrorKind::Malformed)
                    },
                    Conformance::Lenient => r.is_ok() && r.unwrap()@ == w & 0xf,
                }
            }),
    {
        let w = match read_u8(raw) {
            Ok(w) => w,
            Err(e) => return Err(e),
        };
        match mode {
            Conformance::Strict => match Self::try_from(w) {
                Some(v) => Ok(v),
                None => Err(ErrorKind::Malformed),
            },
            Conformance::Lenient => Ok(Self::truncate(w)),
        }
    }
}

/// A 2-bit integer stored in a `u8`.
#[allow(non_camel_case_types)]
#[derive(Copy, Clone, PartialEq, Eq, Debug, Structural)]
pub struct u2(u8);

impl View for u2 {
    type V = u8;

    closed spec fn view(&self) -> u8 {
        self.0
    }
}

impl u2 {
    #[verifier::type_invariant]
    spec fn fits(self) -> bool {
        self.0 < 0x4
    }

    /// Keeps the low 2 bits of `raw`.
    pub fn truncate(raw: u8) -> (r: Self)
        ensures
            r@ == raw & 0x3,
            r@ < 0x4,
    {
        let v = raw & 0x3;
        assert(raw & 0x3 < 0x4) by (bit_vector);
        u2(v)
    }

    /// Succeeds iff `raw` fits in 2 bits.
    pub fn try_from(raw: u8) -> (r: Option<Self>)
        ensures
            r.is_some() <==> raw < 0x4,
            r.is_some() ==> r.unwrap()@ == raw,
    {
        let trunc = raw & 0x3;
        assert((raw & 0x3 == raw) <==> raw < 0x4) by (bit_vector);
        if trunc == raw {
            Some(u2(trunc))
        } else {
            None
        }
    }

    /// The stored value.
    pub fn as_int(self) -> (r: u8)
        ensures
            r == self@,
            r < 0x4,
    {
        proof {
            use_type_invariant(&self);
        }
        self.0
    }

    /// Reads a big-endian `u8`; a value wider than 2 bits is an error in
    /// strict mode and truncated in lenient mode.
    pub fn read(raw: &mut &[u8], mode: Conformance) -> (r: Result<Self, ErrorKind>)
        ensures
            old(raw)@.len() < 1 ==> r == Err::<Self, ErrorKind>(ErrorKind::Invalid) && final(raw)@
                == old(raw)@,
            old(raw)@.len() >= 1 ==> final(raw)@ == old(raw)@.subrange(1, old(raw)@.len() as int) && ({
                let w = old(raw)@[0];
                match mode {
                    Conformance::Strict => if w < 0x4 {
                        r.is_ok() && r.unwrap()@ == w
                    } else {
                        r == Err::<Self, ErrorKind>(ErrorKind::Malformed)
                    },
                    Conformance::Lenient => r.is_ok() && r.unwrap()@ == w & 0x3,
                }
            }),
    {
        let w = match read_u8(raw) {
            Ok(w) => w,
            Err(e) => return Err(e),
        };
        match mode {
            Conformance::Strict => match Self::try_from(w) {
                Some(v) => Ok(v),
                None => Err(ErrorKind::Malformed),
            },
            Conformance::Lenient => Ok(Self::truncate(w)),
        }
    }
}

/// A 24-bit integer stored in a `u32`.
#[allow(non_camel_case_types)]
#[derive(Copy, Clone, PartialEq, Eq, Debug, Structural)]
pub struct u24(u32);

impl View for u24 {
    type V = u32;

    closed spec fn view(&self) -> u32 {
        self.0
    }
}

impl u24 {
    #[verifier::type_invariant]
    spec fn fits(self) -> bool {
        self.0 < 0x100_0000
    }

    /// Keeps the low 24 bits of `raw`.
    pub fn truncate(raw: u32) -> (r: Self)
        ensures
            r@ == raw & 0xff_ffff,
            r@ < 0x100_0000,
    {
        let v = raw & 0xff_ffff;
        assert(raw & 0xff_ffff < 0x100_0000) by (bit_vector);
        u24(v)
    }

    /// Succeeds iff `raw` fits in 24 bits.
    pub fn try_from(raw: u32) -> (r: Option<Self>)
        ensures
            r.is_some() <==> raw < 0x100_0000,
            r.is_some() ==> r.unwrap()@ == raw,
    {
        let trunc = raw & 0xff_ffff;
        assert((raw & 0xff_ffff == raw) <==> raw < 0x100_0000) by (bit_vector);
        if trunc == raw {
            Some(u24(trunc))
        } else {
            None
        }
    }

    /// The stored value.
    pub fn as_int(self) -> (r: u32)
        ensures
            r == self@,
            r < 0x100_0000,
    {
        proof {
            use_type_invariant(&self);
        }
        self.0
    }

    /// Reads three bytes as a big-endian 24-bit integer, which always fits.
    pub fn read(raw: &mut &[u8]) -> (r: Result<Self, ErrorKind>)
        ensures
            old(raw)@.len() < 3 ==> r == Err::<Self, ErrorKind>(ErrorKind::Invalid) && final(raw)@
                == old(raw)@,
            old(raw)@.len() >= 3 ==> final(raw)@ == old(raw)@.subrange(3, old(raw)@.len() as int)
                && r.is_ok() && r.unwrap()@ == be24(old(raw)@[0], old(raw)@[1], old(raw)@[2]),
    {
        let bytes = match split_checked(raw, 3) {
            Some(bytes) => bytes,
            None => return Err(ErrorKind::Invalid),
        };
        let w: u32 = bytes[0] as u32 * 0x1_0000 + bytes[1] as u32 * 0x100 + bytes[2] as u32;
        assert(w < 0x100_0000 ==> w & 0xff_ffff == w) by (bit_vector);
        Ok(Self::truncate(w))
    }
}

/// A 28-bit integer stored in a `u32`.
#[allow(non_camel_case_types)]
#[derive(Copy, Clone, PartialEq, Eq, Debug, Structural)]
pub struct u28(u32);

impl View for u28 {
    type V = u32;

    closed spec fn view(&self) -> u32 {
        self.0
    }
}

impl u28 {
    #[verifier::type_invariant]
    spec fn fits(self) -> bool {
        self.0 < 0x1000_0000
    }

    /// Keeps the low 28 bits of `raw`.
    pub fn truncate(raw: u32) -> (r: Self)
        ensures
            r@ == raw & 0xfff_ffff,
            r@ < 0x1000_0000,
    {
        let v = raw & 0xfff_ffff;
        assert(raw & 0xfff_ffff < 0x1000_0000) by (bit_vector);
        u28(v)
    }

    /// Succeeds iff `raw` fits in 28 bits.
    pub fn try_from(raw: u32) -> (r: Option<Self>)
        ensures
            r.is_some() <==> raw < 0x1000_0000,
            r.is_some() ==> r.unwrap()@ == raw,
    {
        let trunc = raw & 0xfff_ffff;
        assert((raw & 0xfff_ffff == raw) <==> raw < 0x1000_0000) by (bit_vector);
        if trunc == raw {
            Some(u28(trunc))
        } else {
            None
        }
    }

    /// The stored value.
    pub fn as_int(self) -> (r: u32)
        ensures
            r == self@,
            r < 0x1000_0000,
    {
        proof {
            use_type_invariant(&self);
        }
        self.0
    }
}

/// The three bytes of `v`, most significant first.
pub open spec fn be24_bytes(v: u32) -> Seq<u8> {
    seq![(v / 0x1_0000) as u8, ((v / 0x100) % 0x100) as u8, (v % 0x100) as u8]
}

/// The two bytes that carry the seven-bit groups of `v`, most significant first.
pub open spec fn u7_pair_bytes(v: u16) -> Seq<u8> {
    seq![(v / 0x80) as u8, (v % 0x80) as u8]
}

/// Reading back the big-endian bytes of a 15-bit value gives the value in either
/// mode: the word is the value, it passes validation, and truncation keeps it.
pub proof fn lemma_u15_round_trip(v: u16)
    requires
        v < 0x8000,
    ensures
        be16(be16_bytes(v)[0], be16_bytes(v)[1]) == v,
        v & 0x7fff == v,
{
    assert(v < 0x8000 ==> v & 0x7fff == v) by (bit_vector);
}

/// Reading back the big-endian bytes of a 14-bit value gives the value in either mode.
pub proof fn lemma_u14_round_trip(v: u16)
    requires
        v < 0x4000,
    ensures
        be16(be16_bytes(v)[0], be16_bytes(v)[1]) == v,
        v & 0x3fff == v,
{
    assert(v < 0x4000 ==> v & 0x3fff == v) by (bit_vector);
}

/// Reading back the two seven-bit bytes of a 14-bit value gives the value in either
/// mode: neither byte has its top bit set.
pub proof fn lemma_u14_u7_round_trip(v: u16)
    requires
        v < 0x4000,
    ensures
        u7_pair_bytes(v)[0] < 0x80 && u7_pair_bytes(v)[1] < 0x80,
        (u7_pair_bytes(v)[0] % 0x80) * 0x80 + u7_pair_bytes(v)[1] % 0x80 == v,
{
}

/// Reading back the byte of a 7-, 4- or 2-bit value gives the value in either mode.
pub proof fn lemma_small_round_trip(v: u8)
    ensures
        v < 0x80 ==> v & 0x7f == v,
        v < 0x10 ==> v & 0xf == v,
        v < 0x4 ==> v & 0x3 == v,
{
    assert(v < 0x80 ==> v & 0x7f == v) by (bit_vector);
    assert(v < 0x10 ==> v & 0xf == v) by (bit_vector);
    assert(v < 0x4 ==> v & 0x3 == v) by (bit_vector);
}

/// Reading back the three big-endian bytes of a 24-bit value gives the value.
pub proof fn lemma_u24_round_trip(v: u32)
    requires
        v < 0x100_0000,
    ensures
        be24(be24_bytes(v)[0], be24_bytes(v)[1], be24_bytes(v)[2]) == v,
{
}

} // verus!
