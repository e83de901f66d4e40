use routefinder::save::{checksum_from, read, uncompressed_size, HadesSaveV16, SaveError, UNCOMPRESSED_SIZE};

fn put_string(out: &mut Vec<u8>, s: &[u8]) {
    out.extend_from_slice(&(s.len() as u32).to_le_bytes());
    out.extend_from_slice(s);
}

fn reference_sum(bytes: &[u8]) -> u32 {
    let mut a: u64 = 1;
    let mut b: u64 = 0;
    for &x in bytes {
        a = (a + x as u64) % 65521;
        b = (b + a) % 65521;
    }
    (b * 65536 + a) as u32
}

fn save_bytes(version: u32, keys: &[&str], blob: &[u8]) -> Vec<u8> {
    let mut body = Vec::new();
    body.extend_from_slice(&version.to_le_bytes());
    body.extend_from_slice(&0x0102030405060708u64.to_le_bytes());
    put_string(&mut body, b"Tartarus");
    body.extend_from_slice(&12u32.to_le_bytes());
    body.extend_from_slice(&345u32.to_le_bytes());
    body.extend_from_slice(&6u32.to_le_bytes());
    body.push(0);
    body.push(1);
    body.extend_from_slice(&(keys.len() as u32).to_le_bytes());
    for k in keys {
        put_string(&mut body, k.as_bytes());
    }
    put_string(&mut body, b"A_Boss01");
    put_string(&mut body, b"A_PostBoss01");
    put_string(&mut body, blob);
    let mut out = b"SGB1".to_vec();
    out.extend_from_slice(&reference_sum(&body).to_le_bytes());
    out.extend_from_slice(&body);
    out
}

#[test]
fn whole_record() {
    let file = save_bytes(16, &["GameState", "CurrentRun"], &[9, 8, 7]);
    assert_eq!(
        read(&file),
        Ok(HadesSaveV16 {
            version: 16,
            timestamp: 0x0102030405060708,
            location: b"Tartarus".to_vec(),
            runs: 12,
            active_meta_points: 345,
            active_shrine_points: 6,
            god_mode_enabled: false,
            hell_mode_enabled: true,
            lua_keys: vec![b"GameState".to_vec(), b"CurrentRun".to_vec()],
            current_map_name: b"A_Boss01".to_vec(),
            start_next_map: b"A_PostBoss01".to_vec(),
            lua_state_lz4: vec![9, 8, 7],
        })
    );
}

#[test]
fn no_keys_and_trailing_bytes() {
    let mut file = save_bytes(16, &[], &[1]);
    let record = read(&file).unwrap();
    assert!(record.lua_keys.is_empty());
    assert_eq!(record.lua_state_lz4, vec![1]);
    // Bytes behind the state belong to the checksum, so adding them breaks it.
    file.push(0);
    assert_eq!(read(&file), Err(SaveError::ChecksumMismatch));
}

#[test]
fn unrecognized_version_is_named() {
    let file = save_bytes(15, &["k"], &[1, 2]);
    assert_eq!(read(&file), Err(SaveError::UnsupportedVersion(15)));
    let file = save_bytes(17, &["k"], &[1, 2]);
    assert_eq!(read(&file), Err(SaveError::UnsupportedVersion(17)));
}

#[test]
fn wrong_signature() {
    let mut file = save_bytes(16, &["k"], &[1, 2]);
    file[3] = b'2';
    assert_eq!(read(&file), Err(SaveError::BadSignature));
    assert_eq!(read(b"SGB2"), Err(SaveError::BadSignature));
}

#[test]
fn short_header() {
    assert_eq!(read(&[]), Err(SaveError::UnexpectedEnd));
    assert_eq!(read(b"SGB"), Err(SaveError::UnexpectedEnd));
    assert_eq!(read(b"SGB1"), Err(SaveError::UnexpectedEnd));
    assert_eq!(read(b"SGB1\0\0\0\0\x10\0\0"), Err(SaveError::UnexpectedEnd));
}

#[test]
fn corrupted_byte_fails_the_checksum() {
    let mut file = save_bytes(16, &["k"], &[1, 2]);
    let last = file.len() - 1;
    file[last] ^= 0x40;
    assert_eq!(read(&file), Err(SaveError::ChecksumMismatch));
    let mut file = save_bytes(16, &["k"], &[1, 2]);
    file[5] ^= 1;
    assert_eq!(read(&file), Err(SaveError::ChecksumMismatch));
}

#[test]
fn truncated_fields_with_a_fitting_checksum() {
    let whole = save_bytes(16, &["key"], &[1, 2, 3]);
    for cut in 12..whole.len() {
        let mut file = whole[..cut].to_vec();
        let sum = reference_sum(&file[8..]);
        file[4..8].copy_from_slice(&sum.to_le_bytes());
        assert_eq!(read(&file), Err(SaveError::UnexpectedEnd), "cut at {}", cut);
    }
}

#[test]
fn empty_state_is_refused() {
    let file = save_bytes(16, &["k"], &[]);
    assert_eq!(read(&file), Err(SaveError::EmptyState));
}

#[test]
fn checksum_of_known_bytes() {
    assert_eq!(checksum_from(b"abc", 0), 38600999);
    assert_eq!(checksum_from(b"xxabc", 2), 38600999);
    assert_eq!(checksum_from(b"abc", 3), 1);
    assert_eq!(checksum_from(&[], 0), 1);
    let long = vec![0xffu8; 70000];
    assert_eq!(checksum_from(&long, 0), reference_sum(&long));
}

#[test]
fn size_bound_by_version() {
    assert_eq!(uncompressed_size(16), Some(9388032));
    assert_eq!(uncompressed_size(16), Some(UNCOMPRESSED_SIZE));
    assert_eq!(uncompressed_size(15), None);
    assert_eq!(uncompressed_size(0), None);
}
