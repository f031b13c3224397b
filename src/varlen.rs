//! The variable-length quantity: a 28-bit integer written in one to four bytes,
//! seven bits per byte, most significant group first, with the top bit of every
//! byte but the last set.
use vstd::prelude::*;

use crate::cursor::split_checked;
use crate::restricted::u28;
use crate::{Conformance, ErrorKind};

verus! {

/// `0x80` to the power `k`, for the group positions of a quantity.
pub open spec fn group_base(k: int) -> int {
    if k <= 0 {
        1
    } else if k == 1 {
        0x80
    } else if k == 2 {
        0x4000
    } else if k == 3 {
        0x20_0000
    } else {
        0x1000_0000
    }
}

/// The number of bytes a read takes from `s` when started at position `i`:
/// up to and including the first byte with a clear top bit, at most four, and
/// no more than `s` holds.
pub open spec fn vlq_stop(s: Seq<u8>, i: int) -> int
    decreases 4 - i,
{
    if i >= 4 || i >= s.len() {
        i
    } else if s[i] < 0x80 {
        i + 1
    } else {
        vlq_stop(s, i + 1)
    }
}

/// The number of bytes a read takes from the front of `s`.
pub open spec fn vlq_taken(s: Seq<u8>) -> int {
    vlq_stop(s, 0)
}

/// Whether the bytes a read takes end with a byte whose top bit is clear.
pub open spec fn vlq_terminated(s: Seq<u8>) -> bool {
    0 < vlq_taken(s) <= s.len() && s[vlq_taken(s) - 1] < 0x80
}

/// The low seven bits of the first `k` bytes of `s`, most significant first.
pub open spec fn vlq_acc(s: Seq<u8>, k: int) -> int
    decreases k,
{
    if k <= 0 {
        0
    } else {
        vlq_acc(s, k - 1) * 0x80 + s[k - 1] % 0x80
    }
}

/// The value a read of the front of `s` yields.
pub open spec fn vlq_value(s: Seq<u8>) -> int {
    vlq_acc(s, vlq_taken(s))
}

/// The number of bytes in the shortest encoding of `v`.
pub open spec fn vlq_len(v: int) -> int {
    if v < 0x80 {
        1
    } else if v < 0x4000 {
        2
    } else if v < 0x20_0000 {
        3
    } else {
        4
    }
}

/// The seven-bit group of `v` at position `k`, counted from the least significant.
pub open spec fn vlq_group(v: int, k: int) -> int {
    (v / group_base(k)) % 0x80
}

/// The byte that carries group `k` of `v`: every group but the last has its top bit set.
pub open spec fn vlq_byte(v: int, k: int) -> u8 {
    if k == 0 {
        vlq_group(v, k) as u8
    } else {
        (vlq_group(v, k) + 0x80) as u8
    }
}

/// The canonical encoding of `v`: the groups from the most significant nonzero one
/// (or the lowest, for zero) down to the lowest.
pub open spec fn vlq_encode(v: int) -> Seq<u8> {
    Seq::new(vlq_len(v) as nat, |i: int| vlq_byte(v, vlq_len(v) - 1 - i))
}

proof fn lemma_acc_bound(s: Seq<u8>, k: int)
    requires
        0 <= k <= 4,
    ensures
        0 <= vlq_acc(s, k) < group_base(k),
    decreases k,
{
    if k > 0 {
        lemma_acc_bound(s, k - 1);
    }
}

proof fn lemma_group_shift(v: u32, k: u32)
    requires
        k < 4,
    ensures
        ((v >> (k * 7)) & 0x7f) as int == vlq_group(v as int, k as int),
        ((v >> (k * 7)) & 0x7f) < 0x80,
{
    assert((v >> (k * 7)) & 0x7f < 0x80) by (bit_vector);
    if k == 0 {
        assert((v >> 0u32) & 0x7f == v % 0x80) by (bit_vector);
    } else if k == 1 {
        assert((v >> 7u32) & 0x7f == (v / 0x80) % 0x80) by (bit_vector);
    } else if k == 2 {
        assert((v >> 14u32) & 0x7f == (v / 0x4000) % 0x80) by (bit_vector);
    } else {
        assert((v >> 21u32) & 0x7f == (v / 0x20_0000) % 0x80) by (bit_vector);
    }
}

/// A zero group under a bound one group higher lowers the bound by one group.
proof fn lemma_group_zero(v: int, k: int)
    requires
        1 <= k < 4,
        0 <= v < group_base(k + 1),
        vlq_group(v, k) == 0,
    ensures
        v < group_base(k),
{
    if k == 1 {
        assert(v < 0x4000 && (v / 0x80) % 0x80 == 0 ==> v < 0x80) by (nonlinear_arith);
    } else if k == 2 {
        assert(v < 0x20_0000 && (v / 0x4000) % 0x80 == 0 ==> v < 0x4000) by (nonlinear_arith);
    } else {
        assert(v < 0x1000_0000 && (v / 0x20_0000) % 0x80 == 0 ==> v < 0x20_0000) by (nonlinear_arith);
    }
}

/// Where the first byte is emitted the encoding has exactly as many groups as remain.
proof fn lemma_len_at_top(v: int, k: int, skipping: bool, g: int)
    requires
        0 <= k < 4,
        0 <= v,
        g == vlq_group(v, k),
        skipping ==> v < group_base(k + 1),
        skipping ==> g != 0 || k == 0,
    ensures
        skipping ==> vlq_len(v) == k + 1,
{
    if skipping && k > 0 {
        if k == 1 {
            assert(0 <= v < 0x80 ==> (v / 0x80) % 0x80 == 0) by (nonlinear_arith);
        } else if k == 2 {
            assert(0 <= v < 0x4000 ==> (v / 0x4000) % 0x80 == 0) by (nonlinear_arith);
        } else {
            assert(0 <= v < 0x20_0000 ==> (v / 0x20_0000) % 0x80 == 0) by (nonlinear_arith);
        }
    }
}

/// Decoding the canonical encoding of a 28-bit value, whatever follows it, takes
/// exactly the encoding's bytes, finds its last byte, and yields the value.
pub proof fn lemma_vlq_round_trip(v: int, tail: Seq<u8>)
    requires
        0 <= v < 0x1000_0000,
    ensures
        ({
            let s = vlq_encode(v) + tail;
            &&& vlq_terminated(s)
            &&& vlq_taken(s) == vlq_encode(v).len()
            &&& vlq_value(s) == v
        }),
{
    let e = vlq_encode(v);
    let s = e + tail;
    let n = vlq_len(v);
    assert forall|k: int| 0 <= k < n implies #[trigger] s[k] == vlq_byte(v, n - 1 - k) by {}
    assert(0 <= v % 0x80 < 0x80);
    assert(s[n - 1] == (v % 0x80) as u8);
    assert(vlq_acc(s, 0) == 0);
    if n == 1 {
        assert(vlq_stop(s, 0) == 1);
        assert(s[0] % 0x80 == v % 0x80);
        assert(vlq_acc(s, 1) == v % 0x80);
    } else if n == 2 {
        assert(0 <= v / 0x80 < 0x80) by (nonlinear_arith)
            requires 0x80 <= v < 0x4000;
        assert(s[0] == v / 0x80 + 0x80);
        assert(vlq_stop(s, 1) == 2);
        assert(vlq_stop(s, 0) == 2);
        assert(s[0] % 0x80 == v / 0x80);
        assert(vlq_acc(s, 1) == v / 0x80);
        assert(vlq_acc(s, 2) == (v / 0x80) * 0x80 + v % 0x80);
    } else if n == 3 {
        assert(0 <= v / 0x4000 < 0x80) by (nonlinear_arith)
            requires 0x4000 <= v < 0x20_0000;
        assert((v / 0x80) % 0x80 + 0x80 < 0x100);
        assert(s[0] == v / 0x4000 + 0x80);
        assert(s[1] == (v / 0x80) % 0x80 + 0x80);
        assert(vlq_stop(s, 2) == 3);
        assert(vlq_stop(s, 1) == 3);
        assert(vlq_stop(s, 0) == 3);
        assert(s[0] % 0x80 == v / 0x4000);
        assert(vlq_acc(s, 1) == v / 0x4000);
        assert(vlq_acc(s, 2) == (v / 0x4000) * 0x80 + (v / 0x80) % 0x80);
        assert(vlq_acc(s, 3) == ((v / 0x4000) * 0x80 + (v / 0x80) % 0x80) * 0x80 + v % 0x80);
        assert(((v / 0x4000) * 0x80 + (v / 0x80) % 0x80) * 0x80 + v % 0x80 == v) by (nonlinear_arith)
            requires 0 <= v;
    } else {
        assert(0 <= v / 0x20_0000 < 0x80) by (nonlinear_arith)
            requires 0x20_0000 <= v < 0x1000_0000;
        assert((v / 0x80) % 0x80 + 0x80 < 0x100);
        assert((v / 0x4000) % 0x80 + 0x80 < 0x100);
        assert(s[0] == v / 0x20_0000 + 0x80);
        assert(s[1] == (v / 0x4000) % 0x80 + 0x80);
        assert(s[2] == (v / 0x80) % 0x80 + 0x80);
        assert(vlq_stop(s, 3) == 4);
        assert(vlq_stop(s, 2) == 4);
        assert(vlq_stop(s, 1) == 4);
        assert(vlq_stop(s, 0) == 4);
        assert(s[0] % 0x80 == v / 0x20_0000);
        assert(vlq_acc(s, 1) == v / 0x20_0000);
        assert(vlq_acc(s, 2) == (v / 0x20_0000) * 0x80 + (v / 0x4000) % 0x80);
        assert(vlq_acc(s, 3) == ((v / 0x20_0000) * 0x80 + (v / 0x4000) % 0x80) * 0x80 + (v / 0x80) % 0x80);
        assert((((v / 0x20_0000) * 0x80 + (v / 0x4000) % 0x80) * 0x80 + (v / 0x80) % 0x80) * 0x80
            + v % 0x80 == v) by (nonlinear_arith)
            requires 0 <= v;
    }
}

/// The canonical encoding of a 28-bit value is one to four bytes long and never
/// begins with a group of seven zero bits, except that zero is the one byte `0x00`.
pub proof fn lemma_vlq_minimal(v: int)
    requires
        0 <= v < 0x1000_0000,
    ensures
        1 <= vlq_encode(v).len() <= 4,
        vlq_encode(v)[0] % 0x80 == 0 ==> v == 0 && vlq_encode(v) == seq![0u8],
{
    let e = vlq_encode(v);
    let n = vlq_len(v);
    assert(e[0] == vlq_byte(v, n - 1));
    if n == 1 {
        if e[0] % 0x80 == 0 {
            assert(e =~= seq![0u8]);
        }
    } else if n == 2 {
        assert(1 <= v / 0x80 < 0x80) by (nonlinear_arith)
            requires 0x80 <= v < 0x4000;
    } else if n == 3 {
        assert(1 <= v / 0x4000 < 0x80) by (nonlinear_arith)
            requires 0x4000 <= v < 0x20_0000;
    } else {
        assert(1 <= v / 0x20_0000 < 0x80) by (nonlinear_arith)
            requires 0x20_0000 <= v < 0x1000_0000;
    }
}

impl u28 {
    /// Reads a variable-length quantity.
    ///
    /// Reading stops after a byte with a clear top bit or after four bytes. In strict
    /// mode a quantity that runs out of input, or whose fourth byte still has its top
    /// bit set, is malformed; in lenient mode what was gathered is returned.
    pub fn read_u7(raw: &mut &[u8], mode: Conformance) -> (r: Result<u28, ErrorKind>)
        ensures
            final(raw)@ == old(raw)@.subrange(vlq_taken(old(raw)@), old(raw)@.len() as int),
            mode == Conformance::Strict && !vlq_terminated(old(raw)@) ==> r == Err::<u28, ErrorKind>(
                ErrorKind::Malformed,
            ),
            mode == Conformance::Lenient || vlq_terminated(old(raw)@) ==> r.is_ok() && r.unwrap()@
                == vlq_value(old(raw)@),
    {
        let ghost s = raw@;
        let mut rest: &[u8] = *raw;
        let mut acc: u32 = 0;
        let mut i: usize = 0;
        while i < 4
            invariant
                s == old(raw)@,
                i <= 4,
                i <= s.len(),
                rest@ == s.subrange(i as int, s.len() as int),
                acc == vlq_acc(s, i as int),
                vlq_taken(s) == vlq_stop(s, i as int),
                forall|j: int| 0 <= j < i ==> s[j] >= 0x80,
            decreases 4 - i,
        {
            proof {
                lemma_acc_bound(s, i as int);
            }
            let byte = match split_checked(&mut rest, 1) {
                Some(slice) => slice[0],
                None => {
                    assert(vlq_stop(s, i as int) == i);
                    assert(i > 0 ==> s[i - 1] >= 0x80);
                    assert(vlq_taken(s) == i);
                    if let Conformance::Strict = mode {
                        *raw = rest;
                        return Err(ErrorKind::Malformed);
                    } else {
                        assert(acc < 0x1000_0000 ==> acc & 0xfff_ffff == acc) by (bit_vector);
                        *raw = rest;
                        return Ok(u28::truncate(acc));
                    }
                },
            };
            assert(byte == s[i as int]);
            assert(rest@ =~= s.subrange(i + 1, s.len() as int));
            assert(byte & 0x7f == byte % 0x80) by (bit_vector);
            acc = acc * 0x80 + (byte & 0x7f) as u32;
            i += 1;
            proof {
                lemma_acc_bound(s, i as int);
            }
            if byte < 0x80 {
                assert(vlq_stop(s, i - 1) == i);
                assert(acc < 0x1000_0000 ==> acc & 0xfff_ffff == acc) by (bit_vector);
                *raw = rest;
                return Ok(u28::truncate(acc));
            }
        }
        assert(acc < 0x1000_0000 ==> acc & 0xfff_ffff == acc) by (bit_vector);
        proof {
            lemma_acc_bound(s, 4);
        }
        assert(vlq_stop(s, 4) == 4);
        assert(s[3] >= 0x80);
        *raw = rest;
        if let Conformance::Strict = mode {
            Err(ErrorKind::Malformed)
        } else {
            Ok(u28::truncate(acc))
        }
    }

    /// Appends the canonical encoding of this value to `out`: the shortest one,
    /// with no leading group of seven zero bits (zero itself is one zero byte).
    pub fn write_varlen(&self, out: &mut Vec<u8>)
        ensures
            final(out)@ == old(out)@ + vlq_encode(self@ as int),
    {
        let v = self.as_int();
        let ghost enc = vlq_encode(v as int);
        let ghost len = vlq_len(v as int);
        let mut skipping = true;
        let mut i: u32 = 4;
        while i > 0
            invariant
                v < 0x1000_0000,
                enc == vlq_encode(v as int),
                len == vlq_len(v as int),
                i <= 4,
                skipping ==> i >= 1 && v < group_base(i as int) && out@ == old(out)@,
                !skipping ==> i < len && out@ == old(out)@ + enc.subrange(0, len - i),
            decreases i,
        {
            i -= 1;
            proof {
                lemma_group_shift(v, i);
            }
            let g = ((v >> (i * 7)) & 0x7f) as u8;
            if skipping && g == 0 && i != 0 {
                // A leading group of zeros is left out.
                assert(v < group_base(i as int)) by {
                    lemma_group_zero(v as int, i as int);
                }
            } else {
                let ghost was_skipping = skipping;
                proof {
                    lemma_len_at_top(v as int, i as int, was_skipping, g as int);
                }
                skipping = false;
                let byte = if i == 0 {
                    g
                } else {
                    g | 0x80
                };
                assert(g < 0x80 ==> g | 0x80 == g + 0x80) by (bit_vector);
                assert(byte == vlq_byte(v as int, i as int));
                out.push(byte);
                assert(out@ =~= old(out)@ + enc.subrange(0, len - i));
            }
        }
    }
}

/// Reads a slice written as a variable-length quantity `len` followed by `len` bytes.
///
/// Where fewer than `len` bytes remain, strict mode fails and lenient mode returns
/// what remains.
pub fn read_varlen_slice<'a>(raw: &mut &'a [u8], mode: Conformance) -> (r: Result<
    &'a [u8],
    ErrorKind,
>)
    ensures
        ({
            let s = old(raw)@;
            let rest = s.subrange(vlq_taken(s), s.len() as int);
            let len = vlq_value(s);
            if mode == Conformance::Strict && !vlq_terminated(s) {
                r == Err::<&[u8], ErrorKind>(ErrorKind::Malformed) && final(raw)@ == rest
            } else if len <= rest.len() {
                r.is_ok() && r.unwrap()@ == rest.subrange(0, len) && final(raw)@ == rest.subrange(
                    len,
                    rest.len() as int,
                )
            } else if mode == Conformance::Strict {
                r == Err::<&[u8], ErrorKind>(ErrorKind::Malformed) && final(raw)@ == rest
            } else {
                r.is_ok() && r.unwrap()@ == rest && final(raw)@.len() == 0
            }
        }),
{
    let len = match u28::read_u7(raw, mode) {
        Ok(len) => len.as_int(),
        Err(e) => return Err(e),
    };
    match split_checked(raw, len as usize) {
        Some(slice) => Ok(slice),
        None => {
            if let Conformance::Strict = mode {
                Err(ErrorKind::Malformed)
            } else {
                let all: &[u8] = *raw;
                *raw = &[];
                Ok(all)
            }
        },
    }
}

/// Appends `slice` to `out`, preceded by its length as a variable-length quantity.
/// A slice of `2^28` bytes or more cannot be written, and leaves `out` unchanged.
pub fn write_varlen_slice(slice: &[u8], out: &mut Vec<u8>) -> (r: Result<(), ErrorKind>)
    ensures
        slice@.len() < 0x1000_0000 ==> r.is_ok() && final(out)@ == old(out)@ + vlq_encode(
            slice@.len() as int,
        ) + slice@,
        slice@.len() >= 0x1000_0000 ==> r == Err::<(), ErrorKind>(ErrorKind::Invalid) && final(out)@
            == old(out)@,
{
    if slice.len() > 0xffff_ffff {
        return Err(ErrorKind::Invalid);
    }
    let len = match u28::try_from(slice.len() as u32) {
        Some(len) => len,
        None => return Err(ErrorKind::Invalid),
    };
    len.write_varlen(out);
    let ghost head = out@;
    let mut i: usize = 0;
    while i < slice.len()
        invariant
            i <= slice@.len(),
            out@ == head + slice@.subrange(0, i as int),
        decreases slice@.len() - i,
    {
        out.push(slice[i]);
        i += 1;
        assert(out@ =~= head + slice@.subrange(0, i as int));
    }
    assert(slice@.subrange(0, slice@.len() as int) =~= slice@);
    Ok(())
}

} // verus!
