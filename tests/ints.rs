use midly::cursor::{read_u16, read_u32, read_u8, split_checked, u16_to_be};
use midly::restricted::{u14, u15, u2, u24, u28, u4, u7};
use midly::{Conformance, ErrorKind};

#[test]
fn split_checked_takes_prefix_or_nothing() {
    let data = [1u8, 2, 3, 4, 5];
    let mut raw: &[u8] = &data;
    assert_eq!(split_checked(&mut raw, 2), Some(&[1u8, 2][..]));
    assert_eq!(raw, &[3u8, 4, 5][..]);
    assert_eq!(split_checked(&mut raw, 4), None);
    assert_eq!(raw, &[3u8, 4, 5][..]);
    assert_eq!(split_checked(&mut raw, 3), Some(&[3u8, 4, 5][..]));
    assert!(raw.is_empty());
    assert_eq!(split_checked(&mut raw, 0), Some(&[][..]));
}

#[test]
fn fixed_width_reads_are_big_endian() {
    let data = [0x12u8, 0x34, 0x56, 0x78, 0x9a];
    let mut raw: &[u8] = &data;
    assert_eq!(read_u8(&mut raw), Ok(0x12));
    assert_eq!(read_u16(&mut raw), Ok(0x3456));
    assert_eq!(read_u32(&mut raw), Err(ErrorKind::Invalid));
    assert_eq!(raw, &[0x78u8, 0x9a][..]);
    let data = [0xdeu8, 0xad, 0xbe, 0xef];
    let mut raw: &[u8] = &data;
    assert_eq!(read_u32(&mut raw), Ok(0xdeadbeef));
    assert!(raw.is_empty());
    assert_eq!(read_u8(&mut raw), Err(ErrorKind::Invalid));
}

#[test]
fn u16_to_be_splits_bytes() {
    assert_eq!(u16_to_be(0x1234), [0x12, 0x34]);
    assert_eq!(u16_to_be(0x0060), [0x00, 0x60]);
}

#[test]
fn truncation_keeps_low_bits() {
    assert_eq!(u15::truncate(0xffff).as_int(), 0x7fff);
    assert_eq!(u14::truncate(0xffff).as_int(), 0x3fff);
    assert_eq!(u7::truncate(0xff).as_int(), 0x7f);
    assert_eq!(u4::truncate(0xab).as_int(), 0x0b);
    assert_eq!(u2::truncate(0x07).as_int(), 0x03);
    assert_eq!(u24::truncate(0x1234_5678).as_int(), 0x34_5678);
    assert_eq!(u28::truncate(0xffff_ffff).as_int(), 0x0fff_ffff);
    assert_eq!(u15::truncate(96).as_int(), 96);
}

#[test]
fn validation_accepts_exactly_fitting_values() {
    assert_eq!(u15::try_from(0x7fff).map(|v| v.as_int()), Some(0x7fff));
    assert_eq!(u15::try_from(0x8000), None);
    assert_eq!(u14::try_from(0x3fff).map(|v| v.as_int()), Some(0x3fff));
    assert_eq!(u14::try_from(0x4000), None);
    assert_eq!(u7::try_from(0x7f).map(|v| v.as_int()), Some(0x7f));
    assert_eq!(u7::try_from(0x80), None);
    assert_eq!(u4::try_from(0x0f).map(|v| v.as_int()), Some(0x0f));
    assert_eq!(u4::try_from(0x10), None);
    assert_eq!(u2::try_from(3).map(|v| v.as_int()), Some(3));
    assert_eq!(u2::try_from(4), None);
    assert_eq!(u24::try_from(0xff_ffff).map(|v| v.as_int()), Some(0xff_ffff));
    assert_eq!(u24::try_from(0x100_0000), None);
    assert_eq!(u28::try_from(0x0fff_ffff).map(|v| v.as_int()), Some(0x0fff_ffff));
    assert_eq!(u28::try_from(0x1000_0000), None);
}

#[test]
fn restricted_read_strict_and_lenient() {
    let data = [0x80u8, 0x01];
    let mut raw: &[u8] = &data;
    assert_eq!(u15::read(&mut raw, Conformance::Strict), Err(ErrorKind::Malformed));
    assert!(raw.is_empty());
    let mut raw: &[u8] = &data;
    assert_eq!(u15::read(&mut raw, Conformance::Lenient).map(|v| v.as_int()), Ok(0x0001));
    let data = [0x7fu8, 0xff];
    let mut raw: &[u8] = &data;
    assert_eq!(u15::read(&mut raw, Conformance::Strict).map(|v| v.as_int()), Ok(0x7fff));
    let data = [0x12u8];
    let mut raw: &[u8] = &data;
    assert_eq!(u15::read(&mut raw, Conformance::Lenient), Err(ErrorKind::Invalid));
    assert_eq!(raw, &[0x12u8][..]);

    let data = [0x45u8, 0x3f];
    let mut raw: &[u8] = &data;
    assert_eq!(u14::read(&mut raw, Conformance::Strict), Err(ErrorKind::Malformed));
    let mut raw: &[u8] = &data;
    assert_eq!(u14::read(&mut raw, Conformance::Lenient).map(|v| v.as_int()), Ok(0x053f));

    let data = [0x9au8];
    let mut raw: &[u8] = &data;
    assert_eq!(u7::read(&mut raw, Conformance::Strict), Err(ErrorKind::Malformed));
    let mut raw: &[u8] = &data;
    assert_eq!(u7::read(&mut raw, Conformance::Lenient).map(|v| v.as_int()), Ok(0x1a));
    let mut raw: &[u8] = &data;
    assert_eq!(u4::read(&mut raw, Conformance::Lenient).map(|v| v.as_int()), Ok(0x0a));
    let mut raw: &[u8] = &data;
    assert_eq!(u2::read(&mut raw, Conformance::Lenient).map(|v| v.as_int()), Ok(0x02));
    let data = [0x03u8];
    let mut raw: &[u8] = &data;
    assert_eq!(u2::read(&mut raw, Conformance::Strict).map(|v| v.as_int()), Ok(0x03));
}

#[test]
fn u14_read_u7_packs_two_seven_bit_groups() {
    let data = [0x7fu8, 0x7f];
    let mut raw: &[u8] = &data;
    assert_eq!(u14::read_u7(&mut raw, Conformance::Strict).map(|v| v.as_int()), Ok(0x3fff));
    let data = [0x01u8, 0x02];
    let mut raw: &[u8] = &data;
    assert_eq!(u14::read_u7(&mut raw, Conformance::Strict).map(|v| v.as_int()), Ok(0x0082));
    let data = [0x81u8, 0x02];
    let mut raw: &[u8] = &data;
    assert_eq!(u14::read_u7(&mut raw, Conformance::Strict), Err(ErrorKind::Malformed));
    let mut raw: &[u8] = &data;
    assert_eq!(u14::read_u7(&mut raw, Conformance::Lenient).map(|v| v.as_int()), Ok(0x0082));
    let data = [0x01u8];
    let mut raw: &[u8] = &data;
    assert_eq!(u14::read_u7(&mut raw, Conformance::Lenient), Err(ErrorKind::Invalid));
}

#[test]
fn u24_read_takes_three_bytes() {
    let data = [0x07u8, 0xa1, 0x20, 0x99];
    let mut raw: &[u8] = &data;
    assert_eq!(u24::read(&mut raw).map(|v| v.as_int()), Ok(500_000));
    assert_eq!(raw, &[0x99u8][..]);
    let data = [0x07u8, 0xa1];
    let mut raw: &[u8] = &data;
    assert_eq!(u24::read(&mut raw), Err(ErrorKind::Invalid));
}

#[test]
fn fixed_width_round_trip() {
    for v in [0u16, 1, 96, 0x1234, 0x7fff] {
        let bytes = u16_to_be(v);
        let mut raw: &[u8] = &bytes;
        assert_eq!(u15::read(&mut raw, Conformance::Strict).map(|x| x.as_int()), Ok(v));
        let mut raw: &[u8] = &bytes;
        assert_eq!(u15::read(&mut raw, Conformance::Lenient).map(|x| x.as_int()), Ok(v));
    }
    for v in [0u16, 0x82, 0x3fff] {
        let bytes = [(v / 0x80) as u8, (v % 0x80) as u8];
        let mut raw: &[u8] = &bytes;
        assert_eq!(u14::read_u7(&mut raw, Conformance::Strict).map(|x| x.as_int()), Ok(v));
    }
}
