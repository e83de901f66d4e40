use routefinder::text::strip_byte_order_mark;

#[test]
fn mark_is_removed() {
    assert_eq!(strip_byte_order_mark(&[0xef, 0xbb, 0xbf, b'a', b'b']), vec![b'a', b'b']);
    assert_eq!(strip_byte_order_mark("\u{feff}print(1)".as_bytes()), b"print(1)".to_vec());
    assert_eq!(strip_byte_order_mark(&[0xef, 0xbb, 0xbf]), Vec::<u8>::new());
}

#[test]
fn only_a_leading_mark_is_removed() {
    let twice = [0xef, 0xbb, 0xbf, 0xef, 0xbb, 0xbf, b'x'];
    assert_eq!(strip_byte_order_mark(&twice), vec![0xef, 0xbb, 0xbf, b'x']);
    let inside = [b'x', 0xef, 0xbb, 0xbf];
    assert_eq!(strip_byte_order_mark(&inside), inside.to_vec());
}

#[test]
fn unmarked_bytes_are_kept() {
    assert_eq!(strip_byte_order_mark(&[]), Vec::<u8>::new());
    assert_eq!(strip_byte_order_mark(&[0xef, 0xbb]), vec![0xef, 0xbb]);
    assert_eq!(strip_byte_order_mark(&[0xef, 0xbb, 0xbe, 1]), vec![0xef, 0xbb, 0xbe, 1]);
    assert_eq!(strip_byte_order_mark(b"SGB1"), b"SGB1".to_vec());
}
