use routefinder::reader::{to_signed16, to_signed32, to_signed64, ReadError, Reader};

#[test]
fn reads_are_little_endian() {
    let buf = [0x01u8, 0x02, 0x03, 0x04, 0x05, 0x06, 0x07, 0x08];
    assert_eq!(Reader::new(&buf).read_u8(), Ok(0x01));
    assert_eq!(Reader::new(&buf).read_u16(), Ok(0x0201));
    assert_eq!(Reader::new(&buf).read_u32(), Ok(0x04030201));
    assert_eq!(Reader::new(&buf).read_u64(), Ok(0x0807060504030201));
}

#[test]
fn signed_reads_use_twos_complement() {
    let buf = [0xffu8, 0xff, 0xff, 0xff, 0xff, 0xff, 0xff, 0xff];
    assert_eq!(Reader::new(&buf).read_i16(), Ok(-1));
    assert_eq!(Reader::new(&buf).read_i32(), Ok(-1));
    assert_eq!(Reader::new(&buf).read_i64(), Ok(-1));
    let low = [0x00u8, 0x00, 0x00, 0x80];
    assert_eq!(Reader::new(&low).read_i32(), Ok(i32::MIN));
    let seven = [0x07u8, 0x00, 0x00, 0x00];
    assert_eq!(Reader::new(&seven).read_i32(), Ok(7));
    assert_eq!(to_signed16(0x8000), i16::MIN);
    assert_eq!(to_signed16(0x7fff), i16::MAX);
    assert_eq!(to_signed32(0xffff_fffe), -2);
    assert_eq!(to_signed64(0x8000_0000_0000_0000), i64::MIN);
    assert_eq!(to_signed64(5), 5);
}

#[test]
fn cursor_moves_by_the_width() {
    let buf = [1u8, 2, 0, 3, 0, 0, 0, 4, 0, 0, 0, 0, 0, 0, 0, 9];
    let mut r = Reader::new(&buf);
    assert_eq!(r.position(), 0);
    assert_eq!(r.remaining(), 16);
    assert_eq!(r.read_u8(), Ok(1));
    assert_eq!(r.position(), 1);
    assert_eq!(r.read_u16(), Ok(2));
    assert_eq!(r.position(), 3);
    assert_eq!(r.read_u32(), Ok(3));
    assert_eq!(r.position(), 7);
    assert_eq!(r.read_u64(), Ok(4));
    assert_eq!(r.position(), 15);
    assert_eq!(r.remaining(), 1);
    assert_eq!(r.read_u8(), Ok(9));
    assert_eq!(r.remaining(), 0);
    assert_eq!(r.read_u8(), Err(ReadError::UnexpectedEnd));
    assert_eq!(r.position(), 16);
}

#[test]
fn short_reads_fail_and_consume_nothing() {
    let buf = [1u8, 2, 3];
    let mut r = Reader::new(&buf);
    assert_eq!(r.read_u32(), Err(ReadError::UnexpectedEnd));
    assert_eq!(r.read_i32(), Err(ReadError::UnexpectedEnd));
    assert_eq!(r.read_u64(), Err(ReadError::UnexpectedEnd));
    assert_eq!(r.read_i64(), Err(ReadError::UnexpectedEnd));
    assert_eq!(r.read_bytes(4), Err(ReadError::UnexpectedEnd));
    assert_eq!(r.read_string(), Err(ReadError::UnexpectedEnd));
    assert_eq!(r.position(), 0);
    assert_eq!(r.read_u16(), Ok(0x0201));
    assert_eq!(r.read_u16(), Err(ReadError::UnexpectedEnd));
    assert_eq!(r.read_i16(), Err(ReadError::UnexpectedEnd));
    assert_eq!(r.position(), 2);
    let empty: [u8; 0] = [];
    assert_eq!(Reader::new(&empty).read_u8(), Err(ReadError::UnexpectedEnd));
    assert_eq!(Reader::new(&empty).read_bytes(0), Ok(vec![]));
}

#[test]
fn bytes_are_taken_verbatim() {
    let buf = [0xffu8, 0x00, 0xc3, 0x28, 0x41];
    let mut r = Reader::new(&buf);
    assert_eq!(r.read_bytes(4), Ok(vec![0xff, 0x00, 0xc3, 0x28]));
    assert_eq!(r.position(), 4);
    assert_eq!(r.read_bytes(2), Err(ReadError::UnexpectedEnd));
    assert_eq!(r.read_bytes(1), Ok(vec![0x41]));
}

#[test]
fn string_is_length_then_bytes() {
    let buf = [3u8, 0, 0, 0, b'a', b'b', 0xfe, 0, 0, 0, 0, 7];
    let mut r = Reader::new(&buf);
    assert_eq!(r.read_string(), Ok(vec![b'a', b'b', 0xfe]));
    assert_eq!(r.position(), 7);
    assert_eq!(r.read_string(), Ok(vec![]));
    assert_eq!(r.position(), 11);
    assert_eq!(r.read_string(), Err(ReadError::UnexpectedEnd));
    assert_eq!(r.position(), 11);
}

#[test]
fn string_longer_than_the_rest_consumes_nothing() {
    let buf = [5u8, 0, 0, 0, b'a', b'b'];
    let mut r = Reader::new(&buf);
    assert_eq!(r.read_string(), Err(ReadError::UnexpectedEnd));
    assert_eq!(r.position(), 0);
    assert_eq!(r.read_u32(), Ok(5));
}
