use routefinder::luabins::{DecodeError, DecodedValue, IntegerValue, TableEntry};
use routefinder::save::SaveError;
use routefinder::state::{decode_unpacked, load_state, load_state_or_empty, unpack_state, LoadError};

fn stream_bytes() -> Vec<u8> {
    vec![2u8, b'i', 7, 0, 0, 0, b'T', 0, 0, 0, 0, 1, 0, 0, 0, b'S', 1, 0, 0, 0, b'a', b'1']
}

fn stream_values() -> Vec<DecodedValue> {
    vec![
        DecodedValue::Integer(IntegerValue::I32(7)),
        DecodedValue::Table(vec![TableEntry {
            key: DecodedValue::Bytes(b"a".to_vec()),
            value: DecodedValue::Boolean(true),
        }]),
    ]
}

fn sum_of(bytes: &[u8]) -> u32 {
    let mut a: u64 = 1;
    let mut b: u64 = 0;
    for &x in bytes {
        a = (a + x as u64) % 65521;
        b = (b + a) % 65521;
    }
    (b * 65536 + a) as u32
}

fn file_with(version: u32, blob: &[u8]) -> Vec<u8> {
    let mut body = Vec::new();
    body.extend_from_slice(&version.to_le_bytes());
    body.extend_from_slice(&77u64.to_le_bytes());
    body.extend_from_slice(&[0, 0, 0, 0]);
    body.extend_from_slice(&[1, 0, 0, 0, 2, 0, 0, 0, 3, 0, 0, 0, 1, 0]);
    body.extend_from_slice(&[0, 0, 0, 0]);
    body.extend_from_slice(&[0, 0, 0, 0]);
    body.extend_from_slice(&[0, 0, 0, 0]);
    body.extend_from_slice(&(blob.len() as u32).to_le_bytes());
    body.extend_from_slice(blob);
    let mut out = b"SGB1".to_vec();
    out.extend_from_slice(&sum_of(&body).to_le_bytes());
    out.extend_from_slice(&body);
    out
}

fn packed(raw: &[u8]) -> Vec<u8> {
    lz4::block::compress(raw, None, false).unwrap()
}

#[test]
fn save_to_values() {
    let file = file_with(16, &packed(&stream_bytes()));
    assert_eq!(load_state(&file), Ok(stream_values()));
    let out = load_state_or_empty(&file);
    assert_eq!(out.values, stream_values());
    assert_eq!(out.fault, None);
}

#[test]
fn unpacking_undoes_packing() {
    let mut raw = vec![1u8, b'S', 200, 0, 0, 0];
    raw.extend_from_slice(&[b'z'; 200]);
    let blob = packed(&raw);
    assert!(blob.len() < raw.len());
    assert_eq!(unpack_state(&blob), Ok(vec![DecodedValue::Bytes(vec![b'z'; 200])]));
    // The packed bytes themselves are no stream of one string.
    assert!(unpack_state(&raw).is_err());
}

#[test]
fn unrecognized_version_leaves_empty_state() {
    let file = file_with(15, &packed(&stream_bytes()));
    assert_eq!(load_state(&file), Err(LoadError::Save(SaveError::UnsupportedVersion(15))));
    let out = load_state_or_empty(&file);
    assert!(out.values.is_empty());
    assert_eq!(out.fault, Some(LoadError::Save(SaveError::UnsupportedVersion(15))));
}

#[test]
fn corrupt_state_leaves_empty_state() {
    let file = file_with(16, &[0xff, 0xff, 0xff, 0xff, 0xff]);
    assert_eq!(load_state(&file), Err(LoadError::Decompression));
    let out = load_state_or_empty(&file);
    assert!(out.values.is_empty());
    assert_eq!(out.fault, Some(LoadError::Decompression));
}

#[test]
fn state_that_is_no_stream_leaves_empty_state() {
    let file = file_with(16, &packed(&[1u8, b'S', 10, 0, 0, 0, b'a', b'b']));
    assert_eq!(load_state(&file), Err(LoadError::Decode(DecodeError::UnexpectedEnd)));
    let file = file_with(16, &packed(&[1u8, b'#']));
    let out = load_state_or_empty(&file);
    assert!(out.values.is_empty());
    assert_eq!(out.fault, Some(LoadError::Decode(DecodeError::UnknownTag(b'#'))));
}

#[test]
fn missing_file_contents_leave_empty_state() {
    let out = load_state_or_empty(&[]);
    assert!(out.values.is_empty());
    assert_eq!(out.fault, Some(LoadError::Save(SaveError::UnexpectedEnd)));
}

#[test]
fn decoding_what_unpacking_gave() {
    assert_eq!(decode_unpacked(None), Err(LoadError::Decompression));
    assert_eq!(decode_unpacked(Some(stream_bytes())), Ok(stream_values()));
    assert_eq!(decode_unpacked(Some(vec![])), Err(LoadError::Decode(DecodeError::UnexpectedEnd)));
    assert_eq!(decode_unpacked(Some(vec![0])), Ok(vec![]));
}
