use midly::riff::unwrap;

fn le32(n: u32) -> [u8; 4] {
    n.to_le_bytes()
}

fn rmid(payload: &[u8]) -> Vec<u8> {
    let mut out = b"RIFF".to_vec();
    out.extend_from_slice(&le32(payload.len() as u32 + 12));
    out.extend_from_slice(b"RMID");
    out.extend_from_slice(b"data");
    out.extend_from_slice(&le32(payload.len() as u32));
    out.extend_from_slice(payload);
    out
}

#[test]
fn riff_extracts_data_payload() {
    let payload = b"MThd\x00\x00\x00\x06\x00\x00\x00\x01\x00\x60";
    let file = rmid(payload);
    assert_eq!(unwrap(&file), Some(&payload[..]));
    assert_eq!(unwrap(&rmid(b"")), Some(&b""[..]));
}

#[test]
fn riff_rejects_other_files() {
    let payload = b"MThd";
    let mut file = rmid(payload);
    file[0] = b'X';
    assert_eq!(unwrap(&file), None);
    assert_eq!(unwrap(b"MThd\x00\x00\x00\x06"), None);
    assert_eq!(unwrap(b""), None);
    let mut file = rmid(payload);
    file[8..12].copy_from_slice(b"WAVE");
    assert_eq!(unwrap(&file), None);
}

#[test]
fn riff_without_data_chunk() {
    let mut file = b"RIFF".to_vec();
    file.extend_from_slice(&le32(4 + 8 + 2));
    file.extend_from_slice(b"RMID");
    file.extend_from_slice(b"LIST");
    file.extend_from_slice(&le32(2));
    file.extend_from_slice(b"ab");
    assert_eq!(unwrap(&file), None);
}

#[test]
fn riff_odd_chunk_is_padded() {
    let mut file = b"RIFF".to_vec();
    file.extend_from_slice(&le32(4 + 8 + 3 + 1 + 8 + 2));
    file.extend_from_slice(b"RMID");
    file.extend_from_slice(b"INFO");
    file.extend_from_slice(&le32(3));
    file.extend_from_slice(b"xyz");
    file.push(0);
    file.extend_from_slice(b"data");
    file.extend_from_slice(&le32(2));
    file.extend_from_slice(b"ok");
    assert_eq!(unwrap(&file), Some(&b"ok"[..]));
}

#[test]
fn riff_truncated_data_chunk_takes_rest() {
    let mut file = b"RIFF".to_vec();
    file.extend_from_slice(&le32(100));
    file.extend_from_slice(b"RMID");
    file.extend_from_slice(b"data");
    file.extend_from_slice(&le32(50));
    file.extend_from_slice(b"short");
    assert_eq!(unwrap(&file), Some(&b"short"[..]));
}
