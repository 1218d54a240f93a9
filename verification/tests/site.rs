use bytes::BytesMut;
use markhtml::message::{FrameError, MAX, PORT};
use markhtml::{Blog, JsonCodec, Message};

#[test]
fn blog_new() {
    assert!(Blog::new("src", "out").is_some());
    assert!(Blog::new("", "").is_some());
}

#[test]
fn message_holds_its_text() {
    let Message::Text(text) = Message::Text("HI".to_string());
    assert_eq!(text, "HI");
    assert_eq!(PORT, 6379);
    assert_eq!(MAX, 8388608);
}

#[test]
fn encode_writes_length_and_payload() {
    let mut codec = JsonCodec::new();
    let mut dst = BytesMut::new();
    assert!(codec.encode(b"{\"Text\":\"HI\"}", &mut dst).is_ok());
    assert_eq!(&dst[..], &b"\x0d\x00\x00\x00{\"Text\":\"HI\"}"[..]);
    assert!(codec.encode(b"", &mut dst).is_ok());
    assert_eq!(&dst[..], &b"\x0d\x00\x00\x00{\"Text\":\"HI\"}\x00\x00\x00\x00"[..]);
}

#[test]
fn encode_length_is_little_endian() {
    let mut codec = JsonCodec::new();
    let mut dst = BytesMut::new();
    let payload = vec![7u8; 0x01_02_03];
    assert!(codec.encode(&payload, &mut dst).is_ok());
    assert_eq!(dst.len(), 4 + 0x01_02_03);
    assert_eq!(&dst[..4], &[0x03, 0x02, 0x01, 0x00]);
    assert_eq!(&dst[4..], &payload[..]);
}

#[test]
fn encode_refuses_a_payload_that_is_too_long() {
    let mut codec = JsonCodec::new();
    let mut dst = BytesMut::from(&b"kept"[..]);
    let payload = vec![0u8; MAX + 1];
    match codec.encode(&payload, &mut dst) {
        Err(FrameError::TooLarge(len)) => assert_eq!(len, MAX + 1),
        Ok(()) => panic!("the payload was framed"),
    }
    assert_eq!(&dst[..], b"kept");
    let payload = vec![0u8; MAX];
    assert!(codec.encode(&payload, &mut dst).is_ok());
    assert_eq!(dst.len(), 4 + 4 + MAX);
    assert_eq!(&dst[4..8], &[0x00, 0x00, 0x80, 0x00]);
}

#[test]
fn error_message() {
    assert_eq!(FrameError::TooLarge(8388609).message(), "Frame of length 8388609 is too large.");
    assert_eq!(FrameError::TooLarge(0).message(), "Frame of length 0 is too large.");
}

#[test]
fn decode_waits_for_the_whole_frame() {
    let mut codec = JsonCodec::new();
    let mut src = BytesMut::new();
    assert!(matches!(codec.decode(&mut src), Ok(None)));
    src.extend_from_slice(&[5, 0, 0]);
    assert!(matches!(codec.decode(&mut src), Ok(None)));
    assert_eq!(&src[..], &[5, 0, 0]);
    src.extend_from_slice(&[0, b'h', b'e', b'l', b'l']);
    assert!(matches!(codec.decode(&mut src), Ok(None)));
    assert_eq!(&src[..], &[5, 0, 0, 0, b'h', b'e', b'l', b'l']);
    src.extend_from_slice(b"o\x01\x00\x00\x00!rest");
    assert_eq!(codec.decode(&mut src).unwrap(), Some(b"hello".to_vec()));
    assert_eq!(&src[..], b"\x01\x00\x00\x00!rest");
    assert_eq!(codec.decode(&mut src).unwrap(), Some(b"!".to_vec()));
    assert_eq!(&src[..], b"rest");
    assert!(matches!(codec.decode(&mut src), Err(FrameError::TooLarge(0x74736572))));
    assert_eq!(&src[..], b"rest");
}

#[test]
fn decode_an_empty_payload() {
    let mut codec = JsonCodec::new();
    let mut src = BytesMut::from(&[0u8, 0, 0, 0][..]);
    assert_eq!(codec.decode(&mut src).unwrap(), Some(Vec::new()));
    assert!(src.is_empty());
}

#[test]
fn decode_refuses_a_length_that_is_too_large() {
    let mut codec = JsonCodec::new();
    let mut src = BytesMut::from(&[0x01u8, 0x00, 0x80, 0x00, 1, 2, 3][..]);
    match codec.decode(&mut src) {
        Err(FrameError::TooLarge(len)) => assert_eq!(len, MAX + 1),
        other => panic!("{:?}", other),
    }
    assert_eq!(src.len(), 7);
    let mut src = BytesMut::from(&[0x00u8, 0x00, 0x80, 0x00, 1, 2, 3][..]);
    assert!(matches!(codec.decode(&mut src), Ok(None)));
    assert_eq!(&src[..], &[0x00u8, 0x00, 0x80, 0x00, 1, 2, 3]);
    let mut src = BytesMut::from(&[0xffu8, 0xff, 0xff, 0xff][..]);
    assert!(matches!(codec.decode(&mut src), Err(FrameError::TooLarge(0xffff_ffff))));
}

#[test]
fn decode_gives_back_what_encode_framed() {
    let mut codec = JsonCodec::new();
    let mut wire = BytesMut::new();
    let payloads: Vec<Vec<u8>> = vec![b"a".to_vec(), vec![], vec![9; 300], b"\x00\x01".to_vec()];
    for p in &payloads {
        codec.encode(p, &mut wire).unwrap();
    }
    for p in &payloads {
        assert_eq!(codec.decode(&mut wire).unwrap().as_ref(), Some(p));
    }
    assert!(wire.is_empty());
    assert!(matches!(codec.decode(&mut wire), Ok(None)));
}

#[test]
fn post_image_types() {
    assert_eq!(markhtml::posts::mime("png"), Some("image/png"));
    assert_eq!(markhtml::posts::mime("jpg"), Some("image/jpeg"));
    assert_eq!(markhtml::posts::mime("jpeg"), Some("image/jpeg"));
    assert_eq!(markhtml::posts::mime("PNG"), None);
    assert_eq!(markhtml::posts::mime("gif"), None);
    assert_eq!(markhtml::posts::mime(""), None);
    assert_eq!(markhtml::posts::mime("pn"), None);
    assert_eq!(markhtml::posts::mime("pngs"), None);
}

#[test]
fn misc_file_types() {
    assert_eq!(markhtml::file_server::mime("webmanifest"), Some("application/manifest+json"));
    assert_eq!(markhtml::file_server::mime("png"), Some("image/png"));
    assert_eq!(markhtml::file_server::mime("svg"), Some("image/svg+xml"));
    assert_eq!(markhtml::file_server::mime("ico"), Some("image/vnd.microsoft.icon"));
    assert_eq!(markhtml::file_server::mime("xml"), Some("application/xml"));
    assert_eq!(markhtml::file_server::mime("jpg"), None);
    assert_eq!(markhtml::file_server::mime("html"), None);
    assert_eq!(markhtml::file_server::mime(""), None);
}

#[test]
fn same_strings() {
    assert!(markhtml::text::same_str("", ""));
    assert!(markhtml::text::same_str("a\u{e9}b", "a\u{e9}b"));
    assert!(!markhtml::text::same_str("a", "b"));
    assert!(!markhtml::text::same_str("a", "ab"));
    assert!(!markhtml::text::same_str("ab", "a"));
    assert!(!markhtml::text::same_str("\u{e9}", "\u{e8}"));
}

#[test]
fn encode_if_room_frames_like_encode() {
    let mut codec = JsonCodec::new();
    let mut dst = BytesMut::from(&b"x"[..]);
    assert!(matches!(codec.encode_if_room(b"ab", &mut dst), Some(Ok(()))));
    assert_eq!(&dst[..], b"x\x02\x00\x00\x00ab");
    let payload = vec![0u8; MAX + 1];
    match codec.encode_if_room(&payload, &mut dst) {
        Some(Err(FrameError::TooLarge(len))) => assert_eq!(len, MAX + 1),
        other => panic!("{:?}", other),
    }
    assert_eq!(&dst[..], b"x\x02\x00\x00\x00ab");
}
