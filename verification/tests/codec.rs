use minject::codec::{
    push_list16, push_text, push_u16_le, push_u32_le, push_u64_le, read_list16, read_text,
    read_u16_le, read_u32_le, read_u64_le, DecodeError,
};

#[test]
fn u16_bytes_are_little_endian() {
    let mut out = Vec::new();
    push_u16_le(&mut out, 0x1234);
    assert_eq!(out, vec![0x34, 0x12]);
}

#[test]
fn u32_bytes_are_little_endian() {
    let mut out = Vec::new();
    push_u32_le(&mut out, 0xdeadbeef);
    assert_eq!(out, vec![0xef, 0xbe, 0xad, 0xde]);
}

#[test]
fn u64_bytes_are_little_endian() {
    let mut out = Vec::new();
    push_u64_le(&mut out, 0x0102030405060708);
    assert_eq!(out, vec![8, 7, 6, 5, 4, 3, 2, 1]);
}

#[test]
fn integer_round_trips() {
    let mut out = Vec::new();
    push_u16_le(&mut out, 0xfffe);
    push_u32_le(&mut out, 7);
    push_u64_le(&mut out, u64::MAX);
    let (a, p) = read_u16_le(&out, 0).unwrap();
    let (b, p) = read_u32_le(&out, p).unwrap();
    let (c, p) = read_u64_le(&out, p).unwrap();
    assert_eq!((a, b, c), (0xfffe, 7, u64::MAX));
    assert_eq!(p, out.len());
}

#[test]
fn integer_reads_refuse_short_buffers() {
    let buf = vec![1u8, 2, 3];
    assert!(read_u32_le(&buf, 0).is_none());
    assert!(read_u16_le(&buf, 2).is_none());
    assert!(read_u64_le(&buf, 0).is_none());
    assert!(read_u16_le(&buf, 1).is_some());
}

#[test]
fn text_frame_layout() {
    let mut out = Vec::new();
    push_text(&mut out, "hi");
    assert_eq!(out, vec![2, 0, 0, 0, 0, 0, 0, 0, b'h', b'i']);
}

#[test]
fn text_round_trip() {
    let mut out = Vec::new();
    push_text(&mut out, "grüß dich");
    push_text(&mut out, "");
    let (a, p) = read_text(&out, 0).unwrap();
    let (b, p) = read_text(&out, p).unwrap();
    assert_eq!(a, "grüß dich");
    assert_eq!(b, "");
    assert_eq!(p, out.len());
}

#[test]
fn text_rejects_invalid_utf8() {
    let buf = vec![2, 0, 0, 0, 0, 0, 0, 0, 0xff, 0xfe];
    assert_eq!(read_text(&buf, 0), Err(DecodeError::InvalidUtf8));
}

#[test]
fn text_rejects_truncated_frames() {
    let buf = vec![9, 0, 0, 0, 0, 0, 0, 0, b'x'];
    assert_eq!(read_text(&buf, 0), Err(DecodeError::Eof));
    let buf = vec![9, 0, 0];
    assert_eq!(read_text(&buf, 0), Err(DecodeError::Eof));
}

#[test]
fn list16_frame_layout() {
    let mut out = Vec::new();
    push_list16(&mut out, &vec![-1i16, 0, 1]);
    assert_eq!(out, vec![3, 0, 0, 0, 0, 0, 0, 0, 0xff, 0xff, 0, 0, 1, 0]);
}

#[test]
fn list16_round_trip() {
    let mut out = Vec::new();
    push_list16(&mut out, &vec![-1i16, 0, 1]);
    let (l, p) = read_list16(&out, 0).unwrap();
    assert_eq!(l, vec![-1i16, 0, 1]);
    assert_eq!(p, out.len());
}

#[test]
fn list16_rejects_truncated_frames() {
    let buf = vec![3, 0, 0, 0, 0, 0, 0, 0, 0xff, 0xff];
    assert_eq!(read_list16(&buf, 0), Err(DecodeError::Eof));
}

#[test]
fn decode_error_describe_names_the_cause() {
    assert_eq!(DecodeError::Eof.describe(), "unexpected end of buffer");
    assert_eq!(DecodeError::InvalidUtf8.describe(), "string is not valid UTF-8");
}
