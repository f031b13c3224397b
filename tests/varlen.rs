use midly::restricted::u28;
use midly::varlen::{read_varlen_slice, write_varlen_slice};
use midly::{Conformance, ErrorKind};

fn encode(v: u32) -> Vec<u8> {
    let mut out = Vec::new();
    u28::try_from(v).unwrap().write_varlen(&mut out);
    out
}

fn decode(bytes: &[u8], mode: Conformance) -> (Result<u32, ErrorKind>, usize) {
    let mut raw: &[u8] = bytes;
    let r = u28::read_u7(&mut raw, mode).map(|v| v.as_int());
    (r, bytes.len() - raw.len())
}

#[test]
fn vlq_boundary_encodings() {
    assert_eq!(encode(0), vec![0x00]);
    assert_eq!(encode(127), vec![0x7f]);
    assert_eq!(encode(128), vec![0x81, 0x00]);
    assert_eq!(encode(0x3fff), vec![0xff, 0x7f]);
    assert_eq!(encode(0x4000), vec![0x81, 0x80, 0x00]);
    assert_eq!(encode(0x1f_ffff), vec![0xff, 0xff, 0x7f]);
    assert_eq!(encode(0x20_0000), vec![0x81, 0x80, 0x80, 0x00]);
    assert_eq!(encode(0x0fff_ffff), vec![0xff, 0xff, 0xff, 0x7f]);
}

#[test]
fn vlq_write_appends() {
    let mut out = vec![0xaa];
    u28::truncate(200).write_varlen(&mut out);
    assert_eq!(out, vec![0xaa, 0x81, 0x48]);
}

#[test]
fn vlq_round_trip() {
    for v in [0u32, 1, 64, 127, 128, 200, 0x2000, 0x3fff, 0x4000, 0x12_3456, 0x20_0000, 0x0fff_ffff] {
        let mut bytes = encode(v);
        let n = bytes.len();
        bytes.push(0x90);
        assert_eq!(decode(&bytes, Conformance::Strict), (Ok(v), n));
        assert_eq!(decode(&bytes, Conformance::Lenient), (Ok(v), n));
    }
}

#[test]
fn vlq_encoding_is_minimal() {
    for v in [0u32, 1, 127, 128, 0x3fff, 0x4000, 0x1f_ffff, 0x20_0000, 0x0fff_ffff] {
        let bytes = encode(v);
        assert!(bytes.len() >= 1 && bytes.len() <= 4);
        if bytes.len() > 1 {
            assert_ne!(bytes[0] & 0x7f, 0);
        }
    }
}

#[test]
fn vlq_truncated_input() {
    assert_eq!(decode(&[0x81, 0x80], Conformance::Strict), (Err(ErrorKind::Malformed), 2));
    assert_eq!(decode(&[0x81, 0x80], Conformance::Lenient), (Ok(0x80), 2));
    assert_eq!(decode(&[], Conformance::Strict), (Err(ErrorKind::Malformed), 0));
    assert_eq!(decode(&[], Conformance::Lenient), (Ok(0), 0));
}

#[test]
fn vlq_longer_than_four_bytes() {
    let bytes = [0x81u8, 0x82, 0x83, 0x84, 0x05];
    assert_eq!(decode(&bytes, Conformance::Strict), (Err(ErrorKind::Malformed), 4));
    let expected = (1u32 << 21) | (2 << 14) | (3 << 7) | 4;
    assert_eq!(decode(&bytes, Conformance::Lenient), (Ok(expected), 4));
}

#[test]
fn varlen_slice_reads_prefixed_bytes() {
    let data = [0x03u8, 10, 20, 30, 40];
    let mut raw: &[u8] = &data;
    assert_eq!(read_varlen_slice(&mut raw, Conformance::Strict), Ok(&[10u8, 20, 30][..]));
    assert_eq!(raw, &[40u8][..]);
}

#[test]
fn varlen_slice_short_payload() {
    let data = [0x05u8, 10, 20];
    let mut raw: &[u8] = &data;
    assert_eq!(read_varlen_slice(&mut raw, Conformance::Strict), Err(ErrorKind::Malformed));
    let mut raw: &[u8] = &data;
    assert_eq!(read_varlen_slice(&mut raw, Conformance::Lenient), Ok(&[10u8, 20][..]));
    assert!(raw.is_empty());
    let data = [0x85u8];
    let mut raw: &[u8] = &data;
    assert_eq!(read_varlen_slice(&mut raw, Conformance::Strict), Err(ErrorKind::Malformed));
}

#[test]
fn varlen_slice_write_then_read() {
    let payload: Vec<u8> = (0..200u32).map(|i| i as u8).collect();
    let mut out = vec![0x11];
    assert_eq!(write_varlen_slice(&payload, &mut out), Ok(()));
    assert_eq!(&out[..3], &[0x11u8, 0x81, 0x48][..]);
    let mut raw: &[u8] = &out[1..];
    assert_eq!(read_varlen_slice(&mut raw, Conformance::Strict), Ok(&payload[..]));
    assert!(raw.is_empty());
}
