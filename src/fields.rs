//! The fixed-layout header fields: playback format, timing division, SMPTE time
//! of day and the SMPTE frame rate.
use vstd::prelude::*;

use crate::cursor::{be16, read_u16, split_checked, u16_to_be};
use crate::restricted::{u15, u2};
use crate::ErrorKind;

verus! {

/// One of the four SMPTE frame rates.
#[derive(Copy, Clone, PartialEq, Eq, Debug, Structural)]
pub enum Fps {
    /// 24 frames per second.
    Fps24,
    /// 25 frames per second.
    Fps25,
    /// 29.97 (that is, 30 / 1.001) frames per second.
    Fps29,
    /// 30 frames per second.
    Fps30,
}

impl Fps {
    /// The nominal whole rate: 24, 25, 29 or 30.
    pub open spec fn rate(self) -> u8 {
        match self {
            Fps::Fps24 => 24,
            Fps::Fps25 => 25,
            Fps::Fps29 => 29,
            Fps::Fps30 => 30,
        }
    }

    /// The two-bit code of the rate.
    pub open spec fn code(self) -> u8 {
        match self {
            Fps::Fps24 => 0,
            Fps::Fps25 => 1,
            Fps::Fps29 => 2,
            Fps::Fps30 => 3,
        }
    }

    /// The rate with nominal whole rate `raw`, if there is one.
    pub open spec fn of_rate(raw: int) -> Option<Fps> {
        if raw == 24 {
            Some(Fps::Fps24)
        } else if raw == 25 {
            Some(Fps::Fps25)
        } else if raw == 29 {
            Some(Fps::Fps29)
        } else if raw == 30 {
            Some(Fps::Fps30)
        } else {
            None
        }
    }

    /// The rate with two-bit code `c`.
    pub open spec fn of_code(c: int) -> Fps {
        if c == 0 {
            Fps::Fps24
        } else if c == 1 {
            Fps::Fps25
        } else if c == 2 {
            Fps::Fps29
        } else {
            Fps::Fps30
        }
    }

    /// The rate with the given two-bit code.
    pub fn from_code(code: u2) -> (r: Self)
        ensures
            r == Fps::of_code(code@ as int),
            r.code() == code@,
    {
        let c = code.as_int();
        if c == 0 {
            Fps::Fps24
        } else if c == 1 {
            Fps::Fps25
        } else if c == 2 {
            Fps::Fps29
        } else {
            Fps::Fps30
        }
    }

    /// The two-bit code of this rate.
    pub fn as_code(self) -> (r: u2)
        ensures
            r@ == self.code(),
            Fps::of_code(r@ as int) == self,
    {
        let c: u8 = match self {
            Fps::Fps24 => 0,
            Fps::Fps25 => 1,
            Fps::Fps29 => 2,
            Fps::Fps30 => 3,
        };
        assert(c < 4 ==> c & 0x3 == c) by (bit_vector);
        u2::truncate(c)
    }

    /// The rate whose nominal whole rate is `raw` (29 stands for 29.97).
    pub fn from_int(raw: u8) -> (r: Option<Self>)
        ensures
            r == Fps::of_rate(raw as int),
            r.is_some() <==> (raw == 24 || raw == 25 || raw == 29 || raw == 30),
            r.is_some() ==> r.unwrap().rate() == raw,
    {
        match raw {
            24 => Some(Fps::Fps24),
            25 => Some(Fps::Fps25),
            29 => Some(Fps::Fps29),
            30 => Some(Fps::Fps30),
            _ => None,
        }
    }

    /// The nominal whole rate: 24, 25, 29 or 30.
    pub fn as_int(self) -> (r: u8)
        ensures
            r == self.rate(),
    {
        match self {
            Fps::Fps24 => 24,
            Fps::Fps25 => 25,
            Fps::Fps29 => 29,
            Fps::Fps30 => 30,
        }
    }
}

/// The order in which the tracks of a file are played.
#[derive(Copy, Clone, PartialEq, Eq, Debug, Structural)]
pub enum Format {
    /// A single track.
    SingleTrack,
    /// Several tracks played at once.
    Parallel,
    /// Several tracks, each a song of its own, played one after another.
    Sequential,
}

impl Format {
    /// The 16-bit code of the format.
    pub open spec fn code(self) -> u16 {
        match self {
            Format::SingleTrack => 0,
            Format::Parallel => 1,
            Format::Sequential => 2,
        }
    }

    /// The format with code `c`, if there is one.
    pub open spec fn of_code(c: int) -> Option<Format> {
        if c == 0 {
            Some(Format::SingleTrack)
        } else if c == 1 {
            Some(Format::Parallel)
        } else if c == 2 {
            Some(Format::Sequential)
        } else {
            None
        }
    }

    /// Reads a big-endian 16-bit format code; any code but 0, 1 and 2 is invalid.
    pub fn read(raw: &mut &[u8]) -> (r: Result<Self, ErrorKind>)
        ensures
            old(raw)@.len() < 2 ==> r == Err::<Self, ErrorKind>(ErrorKind::Invalid) && final(raw)@
                == old(raw)@,
            old(raw)@.len() >= 2 ==> final(raw)@ == old(raw)@.subrange(2, old(raw)@.len() as int)
                && match Format::of_code(be16(old(raw)@[0], old(raw)@[1])) {
                Some(f) => r == Ok::<Self, ErrorKind>(f),
                None => r == Err::<Self, ErrorKind>(ErrorKind::Invalid),
            },
    {
        let format = match read_u16(raw) {
            Ok(w) => w,
            Err(e) => return Err(e),
        };
        match format {
            0 => Ok(Format::SingleTrack),
            1 => Ok(Format::Parallel),
            2 => Ok(Format::Sequential),
            _ => Err(ErrorKind::Invalid),
        }
    }

    /// The two big-endian bytes of the format code.
    pub fn encode(&self) -> (r: [u8; 2])
        ensures
            r@ == seq![0u8, self.code() as u8],
            Format::of_code(be16(r@[0], r@[1])) == Some(*self),
    {
        let code: u16 = match self {
            Format::SingleTrack => 0,
            Format::Parallel => 1,
            Format::Sequential => 2,
        };
        let r = u16_to_be(code);
        assert(r@ =~= seq![0u8, self.code() as u8]);
        r
    }
}

/// The unit of the delta times of a file.
#[derive(Copy, Clone, PartialEq, Eq, Debug, Structural)]
pub enum Timing {
    /// Ticks per beat, a 15-bit integer.
    Metrical(u15),
    /// Ticks per second: a frame rate, and the ticks within one frame.
    Timecode(Fps, u8),
}

impl Timing {
    /// The rate that the high byte of a timecode division names: its negation as
    /// a signed byte.
    pub open spec fn timecode_rate(w: int) -> int {
        0x100 - w / 0x100
    }

    /// Whether the 16-bit division word `w` stands for `t`.
    pub open spec fn is_word_of(w: int, t: Timing) -> bool {
        match t {
            Timing::Metrical(x) => w < 0x8000 && x@ == w,
            Timing::Timecode(f, sub) => w >= 0x8000 && Fps::of_rate(Timing::timecode_rate(w)) == Some(f)
                && sub == w % 0x100,
        }
    }

    /// Whether the 16-bit division word `w` stands for some division.
    pub open spec fn is_valid_word(w: int) -> bool {
        w < 0x8000 || Fps::of_rate(Timing::timecode_rate(w)).is_some()
    }

    /// Whether a ticks-per-beat value fits in fifteen bits, as every value of
    /// the type does.
    pub open spec fn fits(self) -> bool {
        match self {
            Timing::Metrical(x) => x@ < 0x8000,
            Timing::Timecode(..) => true,
        }
    }

    /// The two bytes of the division.
    pub open spec fn bytes(self) -> Seq<u8> {
        match self {
            Timing::Metrical(x) => seq![(x@ / 0x100) as u8, (x@ % 0x100) as u8],
            Timing::Timecode(f, sub) => seq![(0x100 - f.rate()) as u8, sub],
        }
    }

    /// Reads a big-endian 16-bit division word. With the top bit set it is a
    /// timecode: the high byte is the negated frame rate, the low byte the ticks per
    /// frame; a rate that is not one of the four is invalid. Otherwise the low
    /// fifteen bits are the ticks per beat.
    pub fn read(raw: &mut &[u8]) -> (r: Result<Self, ErrorKind>)
        ensures
            old(raw)@.len() < 2 ==> r == Err::<Self, ErrorKind>(ErrorKind::Invalid) && final(raw)@
                == old(raw)@,
            old(raw)@.len() >= 2 ==> final(raw)@ == old(raw)@.subrange(2, old(raw)@.len() as int) && ({
                let w = be16(old(raw)@[0], old(raw)@[1]);
                if Timing::is_valid_word(w) {
                    r.is_ok() && Timing::is_word_of(w, r.unwrap())
                } else {
                    r == Err::<Self, ErrorKind>(ErrorKind::Invalid)
                }
            }),
    {
        let w = match read_u16(raw) {
            Ok(w) => w,
            Err(e) => return Err(e),
        };
        if w >= 0x8000 {
            let high = (w / 0x100) as u8;
            let rate = (0x100 - high as u16) as u8;
            let subframe = (w % 0x100) as u8;
            match Fps::from_int(rate) {
                Some(fps) => Ok(Timing::Timecode(fps, subframe)),
                None => Err(ErrorKind::Invalid),
            }
        } else {
            assert(w < 0x8000 ==> w & 0x7fff == w) by (bit_vector);
            Ok(Timing::Metrical(u15::truncate(w)))
        }
    }

    /// The two bytes of the division word.
    pub fn encode(&self) -> (r: [u8; 2])
        ensures
            r@ == self.bytes(),
    {
        match self {
            Timing::Metrical(ticks) => {
                let r = u16_to_be(ticks.as_int());
                assert(r@ =~= self.bytes());
                r
            },
            Timing::Timecode(fps, ticks) => {
                let r = [(0x100 - fps.as_int() as u16) as u8, *ticks];
                assert(r@ =~= self.bytes());
                r
            },
        }
    }
}

/// Reading back the two bytes of a division gives that division.
pub proof fn lemma_timing_round_trip(t: Timing)
    requires
        t.fits(),
    ensures
        Timing::is_word_of(be16(t.bytes()[0], t.bytes()[1]), t),
        forall|u: Timing| Timing::is_word_of(be16(t.bytes()[0], t.bytes()[1]), u) ==> u == t,
{
    match t {
        Timing::Metrical(x) => {
            assert forall|u: Timing| Timing::is_word_of(be16(t.bytes()[0], t.bytes()[1]), u) implies u == t by {
                if let Timing::Metrical(y) = u {
                    u15::lemma_eq_by_value(x, y);
                }
            }
        },
        Timing::Timecode(f, sub) => {},
    }
}

/// An SMPTE time of day: hours, minutes, seconds, frames and hundredths of a
/// frame, at a frame rate.
#[derive(Copy, Clone, PartialEq, Eq, Debug, Structural)]
pub struct SmpteTime {
    hour: u8,
    minute: u8,
    second: u8,
    frame: u8,
    subframe: u8,
    fps: Fps,
}

/// Whether the fields make a valid time of day at rate `fps`.
pub open spec fn smpte_valid(hour: int, minute: int, second: int, frame: int, subframe: int, fps: Fps) -> bool {
    &&& hour < 24
    &&& minute < 60
    &&& second < 60
    &&& frame < fps.rate()
    &&& subframe < 100
}

impl SmpteTime {
    #[verifier::type_invariant]
    spec fn in_range(self) -> bool {
        smpte_valid(
            self.hour as int,
            self.minute as int,
            self.second as int,
            self.frame as int,
            self.subframe as int,
            self.fps,
        )
    }

    /// The hour, below 24.
    pub closed spec fn spec_hour(self) -> u8 {
        self.hour
    }

    /// The minute, below 60.
    pub closed spec fn spec_minute(self) -> u8 {
        self.minute
    }

    /// The second, below 60.
    pub closed spec fn spec_second(self) -> u8 {
        self.second
    }

    /// The frame, below the frame rate.
    pub closed spec fn spec_frame(self) -> u8 {
        self.frame
    }

    /// The hundredths of a frame, below 100.
    pub closed spec fn spec_subframe(self) -> u8 {
        self.subframe
    }

    /// The frame rate.
    pub closed spec fn spec_fps(self) -> Fps {
        self.fps
    }

    /// Whether this time has the given fields.
    pub open spec fn has_fields(self, hour: u8, minute: u8, second: u8, frame: u8, subframe: u8, fps: Fps) -> bool {
        &&& self.spec_hour() == hour
        &&& self.spec_minute() == minute
        &&& self.spec_second() == second
        &&& self.spec_frame() == frame
        &&& self.spec_subframe() == subframe
        &&& self.spec_fps() == fps
    }

    /// The time with the given fields, if each is in its range.
    pub fn new(hour: u8, minute: u8, second: u8, frame: u8, subframe: u8, fps: Fps) -> (r: Option<Self>)
        ensures
            r.is_some() <==> smpte_valid(
                hour as int,
                minute as int,
                second as int,
                frame as int,
                subframe as int,
                fps,
            ),
            r.is_some() ==> r.unwrap().has_fields(hour, minute, second, frame, subframe, fps),
    {
        if !(hour < 24) {
            return None;
        }
        if !(minute < 60) {
            return None;
        }
        if !(second < 60) {
            return None;
        }
        if !(frame < fps.as_int()) {
            return None;
        }
        if !(subframe < 100) {
            return None;
        }
        Some(SmpteTime { hour, minute, second, frame, subframe, fps })
    }

    /// The hour, below 24.
    pub fn hour(&self) -> (r: u8)
        ensures
            r == self.spec_hour(),
            r < 24,
    {
        proof {
            use_type_invariant(self);
        }
        self.hour
    }

    /// The minute, below 60.
    pub fn minute(&self) -> (r: u8)
        ensures
            r == self.spec_minute(),
            r < 60,
    {
        proof {
            use_type_invariant(self);
        }
        self.minute
    }

    /// The second, below 60.
    pub fn second(&self) -> (r: u8)
        ensures
            r == self.spec_second(),
            r < 60,
    {
        proof {
            use_type_invariant(self);
        }
        self.second
    }

    /// The frame, below the frame rate.
    pub fn frame(&self) -> (r: u8)
        ensures
            r == self.spec_frame(),
            r < self.spec_fps().rate(),
    {
        proof {
            use_type_invariant(self);
        }
        self.frame
    }

    /// The hundredths of a frame, below 100.
    pub fn subframe(&self) -> (r: u8)
        ensures
            r == self.spec_subframe(),
            r < 100,
    {
        proof {
            use_type_invariant(self);
        }
        self.subframe
    }

    /// The frame rate.
    pub fn fps(&self) -> (r: Fps)
        ensures
            r == self.spec_fps(),
    {
        self.fps
    }

    /// The five bytes of the time: the hour in bits 0 to 4 of the first byte and the
    /// rate code in bits 5 and 6, then minute, second, frame and subframe.
    pub open spec fn bytes(self) -> Seq<u8> {
        seq![
            (self.spec_hour() + self.spec_fps().code() * 0x20) as u8,
            self.spec_minute(),
            self.spec_second(),
            self.spec_frame(),
            self.spec_subframe(),
        ]
    }

    /// Reads five bytes: the hour and the rate code packed in the first, then
    /// minute, second, frame and subframe. A field out of its range is invalid.
    pub fn read(raw: &mut &[u8]) -> (r: Result<Self, ErrorKind>)
        ensures
            old(raw)@.len() < 5 ==> r == Err::<Self, ErrorKind>(ErrorKind::Invalid) && final(raw)@
                == old(raw)@,
            old(raw)@.len() >= 5 ==> final(raw)@ == old(raw)@.subrange(5, old(raw)@.len() as int) && ({
                let b = old(raw)@;
                let hour = b[0] % 0x20;
                let fps = Fps::of_code(((b[0] / 0x20) % 4) as int);
                if smpte_valid(hour as int, b[1] as int, b[2] as int, b[3] as int, b[4] as int, fps) {
                    r.is_ok() && r.unwrap().has_fields(hour as u8, b[1], b[2], b[3], b[4], fps)
                } else {
                    r == Err::<Self, ErrorKind>(ErrorKind::Invalid)
                }
            }),
    {
        let data = match split_checked(raw, 5) {
            Some(data) => data,
            None => return Err(ErrorKind::Invalid),
        };
        let hour_fps = data[0];
        let hour = hour_fps & 0x1f;
        let code = (hour_fps >> 5) & 0x3;
        assert(hour_fps & 0x1f == hour_fps % 0x20) by (bit_vector);
        assert((hour_fps >> 5) & 0x3 == (hour_fps / 0x20) % 4) by (bit_vector);
        assert(code < 4 ==> code & 0x3 == code) by (bit_vector);
        let fps = Fps::from_code(u2::truncate(code));
        match SmpteTime::new(hour, data[1], data[2], data[3], data[4], fps) {
            Some(t) => Ok(t),
            None => Err(ErrorKind::Invalid),
        }
    }

    /// The five bytes of the time.
    pub fn encode(&self) -> (r: [u8; 5])
        ensures
            r@ == self.bytes(),
    {
        proof {
            use_type_invariant(self);
        }
        let hour = self.hour();
        let code = self.fps().as_code().as_int();
        let hour_fps = hour | code << 5;
        assert(hour < 24 && code < 4 ==> hour | code << 5 == hour + code * 0x20) by (bit_vector);
        let r = [hour_fps, self.minute(), self.second(), self.frame(), self.subframe()];
        assert(r@ =~= self.bytes());
        r
    }
}

/// At every frame rate the latest time of day is valid, while an hour of 24 or a
/// frame equal to the rate is not.
pub proof fn lemma_smpte_bounds(fps: Fps)
    ensures
        smpte_valid(23, 59, 59, fps.rate() - 1, 99, fps),
        !smpte_valid(24, 0, 0, 0, 0, fps),
        !smpte_valid(0, 0, 0, fps.rate() as int, 0, fps),
{
}

/// Reading back the five bytes of a time gives a time with the same fields.
pub proof fn lemma_smpte_round_trip(t: SmpteTime, hour: u8, minute: u8, second: u8, frame: u8, subframe: u8, fps: Fps)
    requires
        t.has_fields(hour, minute, second, frame, subframe, fps),
        smpte_valid(hour as int, minute as int, second as int, frame as int, subframe as int, fps),
    ensures
        ({
            let b = t.bytes();
            &&& b[0] % 0x20 == hour
            &&& Fps::of_code(((b[0] / 0x20) % 4) as int) == fps
            &&& b[1] == minute && b[2] == second && b[3] == frame && b[4] == subframe
        }),
{
}

} // verus!
