use pivagen::codec::{
    decode_bool, decode_len, decode_request, decode_string, decode_text, encode_bool,
    encode_request, encode_string, put_u64, DecodeError,
};
use pivagen::request::Request;

#[test]
fn bool_frames_are_one_byte() {
    assert_eq!(encode_bool(true), vec![1u8]);
    assert_eq!(encode_bool(false), vec![0u8]);
}

#[test]
fn any_nonzero_byte_reads_as_true() {
    assert_eq!(decode_bool(&[7u8, 9]), Ok((true, 1)));
    assert_eq!(decode_bool(&[0u8]), Ok((false, 1)));
    assert_eq!(decode_bool(&[]), Err(DecodeError::Truncated));
}

#[test]
fn string_frame_is_length_then_bytes() {
    let frame = encode_string("hello");
    assert_eq!(frame, vec![0, 0, 0, 0, 0, 0, 0, 5, b'h', b'e', b'l', b'l', b'o']);
}

#[test]
fn string_frame_counts_utf8_bytes() {
    let frame = encode_string("пиво");
    assert_eq!(&frame[..8], &[0, 0, 0, 0, 0, 0, 0, 8]);
    assert_eq!(&frame[8..], "пиво".as_bytes());
}

#[test]
fn empty_string_frame() {
    assert_eq!(encode_string(""), vec![0u8; 8]);
    assert_eq!(decode_string(&[0u8; 8]).unwrap(), (String::new(), 8));
}

#[test]
fn big_endian_length_prefix() {
    let mut out = Vec::new();
    put_u64(&mut out, 0x0102_0304_0506_0708);
    assert_eq!(out, vec![1, 2, 3, 4, 5, 6, 7, 8]);
    assert_eq!(decode_len(&out), Ok(0x0102_0304_0506_0708));
    assert_eq!(decode_len(&out[..7]), Err(DecodeError::Truncated));
}

#[test]
fn string_roundtrip_with_trailing_bytes() {
    let mut frame = encode_string("Привет, мир!");
    let n = frame.len();
    frame.extend_from_slice(&[42, 43]);
    let (s, used) = decode_string(&frame).unwrap();
    assert_eq!(s, "Привет, мир!");
    assert_eq!(used, n);
}

#[test]
fn partial_string_frame_is_truncated() {
    let frame = encode_string("abc");
    for k in 0..frame.len() {
        assert_eq!(decode_string(&frame[..k]), Err(DecodeError::Truncated));
    }
}

#[test]
fn invalid_utf8_body_is_rejected() {
    let bytes = [0u8, 0, 0, 0, 0, 0, 0, 2, 0xff, 0xfe];
    assert_eq!(decode_string(&bytes), Err(DecodeError::InvalidUtf8));
    assert_eq!(decode_text(vec![0xc3]), Err(DecodeError::InvalidUtf8));
    assert_eq!(decode_text(vec![0xc3, 0xa9]), Ok("é".to_string()));
}

#[test]
fn request_frame_is_flag_then_content() {
    let r = Request { write_intent: false, content: "hi".to_string() };
    assert_eq!(encode_request(&r), vec![0, 0, 0, 0, 0, 0, 0, 0, 2, b'h', b'i']);
    let r = Request::save("hi".to_string());
    assert_eq!(encode_request(&r), vec![1, 0, 0, 0, 0, 0, 0, 0, 2, b'h', b'i']);
}

#[test]
fn request_roundtrip() {
    for flag in [true, false] {
        let r = Request { write_intent: flag, content: "пиво и раки".to_string() };
        let frame = encode_request(&r);
        let (back, used) = decode_request(&frame).unwrap();
        assert_eq!(back.write_intent, flag);
        assert_eq!(back.content, "пиво и раки");
        assert_eq!(used, frame.len());
    }
}

#[test]
fn request_errors() {
    assert_eq!(decode_request(&[]).err(), Some(DecodeError::Truncated));
    assert_eq!(decode_request(&[1, 0, 0]).err(), Some(DecodeError::Truncated));
    assert_eq!(
        decode_request(&[1, 0, 0, 0, 0, 0, 0, 0, 1, 0x80]).err(),
        Some(DecodeError::InvalidUtf8)
    );
}

#[test]
fn request_constructors_set_write_intent() {
    let s = Request::save("a".to_string());
    assert!(s.write_intent);
    assert_eq!(s.content, "a");
    let g = Request::generate("b".to_string());
    assert!(g.write_intent);
    assert_eq!(g.content, "b");
}

#[test]
fn request_read_in_pieces() {
    let frame = encode_request(&Request::save("кружка".to_string()));
    let (flag, _) = decode_bool(&frame[..1]).unwrap();
    let len = decode_len(&frame[1..9]).unwrap() as usize;
    let text = decode_text(frame[9..9 + len].to_vec()).unwrap();
    let (whole, used) = decode_request(&frame).unwrap();
    assert_eq!(flag, whole.write_intent);
    assert_eq!(text, whole.content);
    assert_eq!(9 + len, used);
}
