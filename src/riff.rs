//! Unwrapping of RMID files: a Standard MIDI File stored as the `data` chunk of
//! a RIFF container of form type `RMID`.
//!
//! A chunk is a four-byte tag, a four-byte little-endian length, that many bytes
//! of data and, after an odd length, one pad byte. A chunk whose length runs past
//! the end of the input takes what remains.
use vstd::prelude::*;

use crate::cursor::split_checked;

verus! {

/// The tag `RIFF`.
pub open spec fn riff_tag() -> Seq<u8> {
    seq![0x52u8, 0x49, 0x46, 0x46]
}

/// The form type `RMID`.
pub open spec fn rmid_tag() -> Seq<u8> {
    seq![0x52u8, 0x4d, 0x49, 0x44]
}

/// The tag `data`.
pub open spec fn data_tag() -> Seq<u8> {
    seq![0x64u8, 0x61, 0x74, 0x61]
}

/// The four bytes of `n`, least significant first.
pub open spec fn le32_bytes(n: int) -> Seq<u8> {
    seq![
        (n % 0x100) as u8,
        ((n / 0x100) % 0x100) as u8,
        ((n / 0x1_0000) % 0x100) as u8,
        ((n / 0x100_0000) % 0x100) as u8,
    ]
}

/// The tag of the chunk at the front of `s`.
pub open spec fn chunk_tag(s: Seq<u8>) -> Seq<u8> {
    s.subrange(0, 4)
}

/// The declared length of the chunk at the front of `s`.
pub open spec fn chunk_len(s: Seq<u8>) -> int {
    s[4] + s[5] * 0x100 + s[6] * 0x1_0000 + s[7] * 0x100_0000
}

/// The data of the chunk at the front of `s`: its declared length, or what
/// follows the header where less remains.
pub open spec fn chunk_data(s: Seq<u8>) -> Seq<u8> {
    let body = s.subrange(8, s.len() as int);
    if chunk_len(s) <= body.len() {
        body.subrange(0, chunk_len(s))
    } else {
        body
    }
}

/// What follows the chunk at the front of `s`, its pad byte skipped.
pub open spec fn chunk_next(s: Seq<u8>) -> Seq<u8> {
    let body = s.subrange(8, s.len() as int);
    let after = if chunk_len(s) <= body.len() {
        body.subrange(chunk_len(s), body.len() as int)
    } else {
        Seq::empty()
    };
    if chunk_len(s) % 2 == 1 && after.len() >= 1 {
        after.subrange(1, after.len() as int)
    } else {
        after
    }
}

/// The data of the first chunk of `s` tagged `data`, if there is one.
pub open spec fn find_data(s: Seq<u8>) -> Option<Seq<u8>>
    decreases s.len(),
{
    if s.len() < 8 {
        None
    } else if chunk_tag(s) == data_tag() {
        Some(chunk_data(s))
    } else {
        find_data(chunk_next(s))
    }
}

/// The file that `raw` wraps: the first `data` chunk inside a first chunk tagged
/// `RIFF` whose data starts with the form type `RMID`.
pub open spec fn unwrapped(raw: Seq<u8>) -> Option<Seq<u8>> {
    if raw.len() < 8 || chunk_tag(raw) != riff_tag() {
        None
    } else {
        let riff = chunk_data(raw);
        if riff.len() < 4 || riff.subrange(0, 4) != rmid_tag() {
            None
        } else {
            find_data(riff.subrange(4, riff.len() as int))
        }
    }
}

proof fn lemma_le32(n: int)
    requires
        0 <= n < 0x1_0000_0000,
    ensures
        chunk_len(seq![0u8, 0, 0, 0] + le32_bytes(n)) == n,
{
    let s = seq![0u8, 0, 0, 0] + le32_bytes(n);
    assert(s[4] == n % 0x100);
    assert(s[5] == (n / 0x100) % 0x100);
    assert(s[6] == (n / 0x1_0000) % 0x100);
    assert(s[7] == (n / 0x100_0000) % 0x100);
    assert(n % 0x100 + ((n / 0x100) % 0x100) * 0x100 + ((n / 0x1_0000) % 0x100) * 0x1_0000 + ((n
        / 0x100_0000) % 0x100) * 0x100_0000 == n) by (nonlinear_arith)
        requires
            0 <= n < 0x1_0000_0000,
    ;
}

/// The header of a chunk reads back as the tag and length it was written from.
proof fn lemma_chunk_header(tag: Seq<u8>, n: int, rest: Seq<u8>)
    requires
        tag.len() == 4,
        0 <= n <= rest.len(),
        n < 0x1_0000_0000,
    ensures
        chunk_tag(tag + le32_bytes(n) + rest) == tag,
        chunk_len(tag + le32_bytes(n) + rest) == n,
        chunk_data(tag + le32_bytes(n) + rest) == rest.subrange(0, n),
{
    let s = tag + le32_bytes(n) + rest;
    lemma_le32(n);
    let t = seq![0u8, 0, 0, 0] + le32_bytes(n);
    assert(s[4] == t[4] && s[5] == t[5] && s[6] == t[6] && s[7] == t[7]);
    assert(chunk_tag(s) =~= tag);
    assert(s.subrange(8, s.len() as int) =~= rest);
    assert(chunk_data(s) =~= rest.subrange(0, n));
}

/// A well-formed RMID file (`RIFF`, its length, `RMID`, then a `data` chunk that
/// holds `payload`) unwraps to exactly `payload`, whatever follows it.
pub proof fn lemma_unwrap_extracts(payload: Seq<u8>, tail: Seq<u8>)
    requires
        payload.len() + 12 < 0x1_0000_0000,
    ensures
        unwrapped(
            riff_tag() + le32_bytes(payload.len() + 12 as int) + (rmid_tag() + (data_tag()
                + le32_bytes(payload.len() as int) + payload) + tail),
        ) == Some(payload),
{
    let n = payload.len() as int;
    let inner = data_tag() + le32_bytes(n) + payload;
    let riff = rmid_tag() + inner;
    let file = riff_tag() + le32_bytes(n + 12) + (riff + tail);
    lemma_chunk_header(riff_tag(), n + 12, riff + tail);
    assert((riff + tail).subrange(0, n + 12) =~= riff);
    assert(riff.subrange(0, 4) =~= rmid_tag());
    assert(riff.subrange(4, riff.len() as int) =~= inner);
    lemma_chunk_header(data_tag(), n, payload);
    assert(payload.subrange(0, n) =~= payload);
    assert(inner.len() >= 8);
    assert(find_data(inner) == Some(payload));
}

/// A buffer that does not start with the tag `RIFF` is not unwrapped.
pub proof fn lemma_unwrap_needs_riff(raw: Seq<u8>)
    requires
        raw.len() < 4 || raw.subrange(0, 4) != riff_tag(),
    ensures
        unwrapped(raw) is None,
{
}

/// After a chunk of odd length comes exactly one pad byte: the next chunk starts
/// right after it.
pub proof fn lemma_odd_chunk_padded(s: Seq<u8>)
    requires
        s.len() >= 8,
        chunk_len(s) % 2 == 1,
        8 + chunk_len(s) + 1 <= s.len(),
    ensures
        chunk_data(s) == s.subrange(8, 8 + chunk_len(s)),
        chunk_next(s) == s.subrange(9 + chunk_len(s), s.len() as int),
{
    assert(chunk_data(s) =~= s.subrange(8, 8 + chunk_len(s)));
    assert(chunk_next(s) =~= s.subrange(9 + chunk_len(s), s.len() as int));
}

/// Walks the chunks of a buffer one after another.
struct ChunkIter<'a> {
    rest: &'a [u8],
}

impl<'a> ChunkIter<'a> {
    /// The next chunk's tag and data, if a whole header remains.
    fn next(&mut self) -> (r: Option<(&'a [u8], &'a [u8])>)
        ensures
            old(self).rest@.len() < 8 ==> r.is_none() && final(self).rest@ == old(self).rest@,
            old(self).rest@.len() >= 8 ==> r.is_some() && r.unwrap().0@ == chunk_tag(old(self).rest@)
                && r.unwrap().1@ == chunk_data(old(self).rest@) && final(self).rest@ == chunk_next(
                old(self).rest@,
            ),
    {
        let ghost s = self.rest@;
        if self.rest.len() < 8 {
            return None;
        }
        let id = match split_checked(&mut self.rest, 4) {
            Some(id) => id,
            None => return None,
        };
        let len_bytes = match split_checked(&mut self.rest, 4) {
            Some(b) => b,
            None => return None,
        };
        let len: u32 = len_bytes[0] as u32 + len_bytes[1] as u32 * 0x100 + len_bytes[2] as u32 * 0x1_0000
            + len_bytes[3] as u32 * 0x100_0000;
        assert(self.rest@ =~= s.subrange(8, s.len() as int));
        assert(id@ =~= chunk_tag(s));
        let ghost body = self.rest@;
        let data = match split_checked(&mut self.rest, len as usize) {
            Some(data) => data,
            None => {
                let all: &'a [u8] = self.rest;
                self.rest = &[];
                all
            },
        };
        assert(self.rest@ =~= if len <= body.len() {
            body.subrange(len as int, body.len() as int)
        } else {
            Seq::empty()
        });
        if len % 2 == 1 {
            let ghost after = self.rest@;
            let _pad = split_checked(&mut self.rest, 1);
            assert(after.len() >= 1 ==> self.rest@ =~= after.subrange(1, after.len() as int));
        }
        Some((id, data))
    }
}

/// Whether two four-byte tags are equal.
fn same_tag(a: &[u8], b0: u8, b1: u8, b2: u8, b3: u8) -> (r: bool)
    requires
        a@.len() == 4,
    ensures
        r == (a@ == seq![b0, b1, b2, b3]),
{
    let r = a[0] == b0 && a[1] == b1 && a[2] == b2 && a[3] == b3;
    assert(r ==> a@ =~= seq![b0, b1, b2, b3]);
    r
}

/// The Standard MIDI File inside an RMID file, or `None` where `raw` is not one:
/// no `RIFF` chunk first, no `RMID` form type, or no `data` chunk.
pub fn unwrap(raw: &[u8]) -> (r: Option<&[u8]>)
    ensures
        match unwrapped(raw@) {
            Some(smf) => r.is_some() && r.unwrap()@ == smf,
            None => r.is_none(),
        },
{
    let mut outer = ChunkIter { rest: raw };
    let (id, riff) = match outer.next() {
        Some(chunk) => chunk,
        None => return None,
    };
    if !same_tag(id, 0x52, 0x49, 0x46, 0x46) {
        return None;
    }
    let mut riff: &[u8] = riff;
    let formtype = match split_checked(&mut riff, 4) {
        Some(f) => f,
        None => return None,
    };
    if !same_tag(formtype, 0x52, 0x4d, 0x49, 0x44) {
        return None;
    }
    let mut chunks = ChunkIter { rest: riff };
    loop
        invariant
            find_data(chunks.rest@) == unwrapped(raw@),
        decreases chunks.rest@.len(),
    {
        match chunks.next() {
            Some((id, chunk)) => {
                if same_tag(id, 0x64, 0x61, 0x74, 0x61) {
                    return Some(chunk);
                }
            },
            None => return None,
        }
    }
}

} // verus!
