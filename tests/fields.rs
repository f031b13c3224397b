use midly::fields::{Format, Fps, SmpteTime, Timing};
use midly::restricted::{u15, u2};
use midly::ErrorKind;

const ALL_FPS: [Fps; 4] = [Fps::Fps24, Fps::Fps25, Fps::Fps29, Fps::Fps30];

#[test]
fn format_codes() {
    for (code, f) in [(0u8, Format::SingleTrack), (1, Format::Parallel), (2, Format::Sequential)] {
        assert_eq!(f.encode(), [0, code]);
        let bytes = f.encode();
        let mut raw: &[u8] = &bytes;
        assert_eq!(Format::read(&mut raw), Ok(f));
    }
    let data = [0x00u8, 0x03];
    let mut raw: &[u8] = &data;
    assert_eq!(Format::read(&mut raw), Err(ErrorKind::Invalid));
    let data = [0x01u8, 0x00];
    let mut raw: &[u8] = &data;
    assert_eq!(Format::read(&mut raw), Err(ErrorKind::Invalid));
    let data = [0x00u8];
    let mut raw: &[u8] = &data;
    assert_eq!(Format::read(&mut raw), Err(ErrorKind::Invalid));
}

#[test]
fn timing_metrical_round_trip() {
    let t = Timing::Metrical(u15::truncate(96));
    assert_eq!(t.encode(), [0x00, 0x60]);
    let bytes = t.encode();
    let mut raw: &[u8] = &bytes;
    assert_eq!(Timing::read(&mut raw), Ok(t));
}

#[test]
fn timing_timecode_round_trip() {
    let t = Timing::Timecode(Fps::Fps25, 40);
    assert_eq!(t.encode(), [0xe7, 0x28]);
    let bytes = t.encode();
    let mut raw: &[u8] = &bytes;
    assert_eq!(Timing::read(&mut raw), Ok(t));
    for fps in ALL_FPS {
        let t = Timing::Timecode(fps, 80);
        let bytes = t.encode();
        let mut raw: &[u8] = &bytes;
        assert_eq!(Timing::read(&mut raw), Ok(t));
    }
}

#[test]
fn timing_invalid_rate() {
    let data = [0xe6u8, 0x28];
    let mut raw: &[u8] = &data;
    assert_eq!(Timing::read(&mut raw), Err(ErrorKind::Invalid));
    let data = [0x80u8, 0x00];
    let mut raw: &[u8] = &data;
    assert_eq!(Timing::read(&mut raw), Err(ErrorKind::Invalid));
    let data = [0xe2u8, 0x04];
    let mut raw: &[u8] = &data;
    assert_eq!(Timing::read(&mut raw), Ok(Timing::Timecode(Fps::Fps30, 4)));
}

#[test]
fn fps_conversions() {
    for (i, fps) in ALL_FPS.iter().enumerate() {
        assert_eq!(fps.as_code().as_int(), i as u8);
        assert_eq!(Fps::from_code(u2::truncate(i as u8)), *fps);
        assert_eq!(Fps::from_int(fps.as_int()), Some(*fps));
    }
    assert_eq!(Fps::Fps29.as_int(), 29);
    assert_eq!(Fps::from_int(29), Some(Fps::Fps29));
    assert_eq!(Fps::from_int(30), Some(Fps::Fps30));
    assert_eq!(Fps::from_int(0), None);
    assert_eq!(Fps::from_int(28), None);
    assert_eq!(Fps::from_int(31), None);
}

#[test]
fn smpte_validity() {
    for fps in ALL_FPS {
        let t = SmpteTime::new(23, 59, 59, fps.as_int() - 1, 99, fps).unwrap();
        assert_eq!(t.hour(), 23);
        assert_eq!(t.minute(), 59);
        assert_eq!(t.second(), 59);
        assert_eq!(t.frame(), fps.as_int() - 1);
        assert_eq!(t.subframe(), 99);
        assert_eq!(t.fps(), fps);
        assert_eq!(SmpteTime::new(24, 0, 0, 0, 0, fps), None);
        assert_eq!(SmpteTime::new(0, 0, 0, fps.as_int(), 0, fps), None);
        assert_eq!(SmpteTime::new(0, 60, 0, 0, 0, fps), None);
        assert_eq!(SmpteTime::new(0, 0, 60, 0, 0, fps), None);
        assert_eq!(SmpteTime::new(0, 0, 0, 0, 100, fps), None);
    }
}

#[test]
fn smpte_bytes() {
    let t = SmpteTime::new(13, 45, 30, 24, 50, Fps::Fps29).unwrap();
    assert_eq!(t.encode(), [13 | (2 << 5), 45, 30, 24, 50]);
    let bytes = t.encode();
    let mut raw: &[u8] = &bytes;
    assert_eq!(SmpteTime::read(&mut raw), Ok(t));
    let data = [0x18u8, 0, 0, 0, 0];
    let mut raw: &[u8] = &data;
    assert_eq!(SmpteTime::read(&mut raw), Err(ErrorKind::Invalid));
    let data = [0x00u8, 0, 0, 24, 0];
    let mut raw: &[u8] = &data;
    assert_eq!(SmpteTime::read(&mut raw), Err(ErrorKind::Invalid));
    let data = [0x60u8, 0, 0, 29, 0];
    let mut raw: &[u8] = &data;
    assert_eq!(SmpteTime::read(&mut raw).map(|t| t.fps()), Ok(Fps::Fps30));
    let data = [0x00u8, 0, 0, 0];
    let mut raw: &[u8] = &data;
    assert_eq!(SmpteTime::read(&mut raw), Err(ErrorKind::Invalid));
    assert_eq!(raw.len(), 4);
}
