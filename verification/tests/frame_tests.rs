use bytes::BufMut;
use cache_rs::frame::{encode_frame, parse_frame_header, MESSAGE_TYPE_ENVELOPE, PROTOCOL_VERSION};

#[test]
fn test_read_frame_header() {
    // Construct a header: frame_len=10, version=1, msg_type=2, flags=0xAABB
    let mut header_buf = Vec::with_capacity(8);
    header_buf.put_u32(10);
    header_buf.put_u8(1);
    header_buf.put_u8(2);
    header_buf.put_u16(0xAABB);

    let (frame_len, version, msg_type, flags) = parse_frame_header(&header_buf);

    assert_eq!(frame_len, 10);
    assert_eq!(version, 1);
    assert_eq!(msg_type, 2);
    assert_eq!(flags, 0xAABB);
}

#[test]
fn test_write_frame() {
    let payload = b"hello";
    let buf = encode_frame(0x42, payload);
    // Header: len=1+1+2+5=9 -> [0,0,0,9], version=1, type=0x42, flags=0, payload="hello"
    let expected = [&9u32.to_be_bytes()[..], &[1], &[0x42], &0u16.to_be_bytes()[..], b"hello"].concat();
    assert_eq!(buf, expected);
}

#[test]
fn frame_reads_back_its_header() {
    let payload = vec![7u8; 300];
    let frame = encode_frame(MESSAGE_TYPE_ENVELOPE, &payload);
    assert_eq!(frame.len(), 308);
    let (frame_len, version, msg_type, flags) = parse_frame_header(&frame);
    assert_eq!(frame_len, 304);
    assert_eq!(version, PROTOCOL_VERSION);
    assert_eq!(msg_type, MESSAGE_TYPE_ENVELOPE);
    assert_eq!(flags, 0);
    assert_eq!(&frame[8..], &payload[..]);
}

#[test]
fn empty_payload_frame_is_header_only() {
    let frame = encode_frame(3, &[]);
    assert_eq!(frame, vec![0, 0, 0, 4, 1, 3, 0, 0]);
}

#[test]
fn header_is_big_endian() {
    let header = [0x01, 0x02, 0x03, 0x04, 9, 8, 0xFF, 0x01];
    assert_eq!(parse_frame_header(&header), (0x0102_0304, 9, 8, 0xFF01));
}
