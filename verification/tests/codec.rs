use bytes::BytesMut;
use dredd_hooks::codec::{decode_line, encode_line, LineError};

#[test]
fn decode_takes_the_first_line() {
    let mut buf = BytesMut::from(&b"{\"event\":\"beforeAll\"}\nrest"[..]);
    assert_eq!(decode_line(&mut buf), Ok(Some("{\"event\":\"beforeAll\"}".to_string())));
    assert_eq!(&buf[..], b"rest");
}

#[test]
fn decode_waits_for_a_line_feed() {
    let mut buf = BytesMut::from(&b"partial"[..]);
    assert_eq!(decode_line(&mut buf), Ok(None));
    assert_eq!(&buf[..], b"partial");
    let mut empty = BytesMut::new();
    assert_eq!(decode_line(&mut empty), Ok(None));
}

#[test]
fn decode_reads_an_empty_line() {
    let mut buf = BytesMut::from(&b"\n\nx"[..]);
    assert_eq!(decode_line(&mut buf), Ok(Some(String::new())));
    assert_eq!(decode_line(&mut buf), Ok(Some(String::new())));
    assert_eq!(&buf[..], b"x");
}

#[test]
fn decode_refuses_invalid_utf8_and_drops_the_line() {
    let mut buf = BytesMut::from(&[0xffu8, 0xfe, b'\n', b'o', b'k', b'\n'][..]);
    assert_eq!(decode_line(&mut buf), Err(LineError::InvalidUtf8));
    assert_eq!(decode_line(&mut buf), Ok(Some("ok".to_string())));
    assert!(buf.is_empty());
}

#[test]
fn encode_appends_the_message_and_a_line_feed() {
    let mut buf = BytesMut::from(&b"ab"[..]);
    encode_line("héllo".to_string(), &mut buf);
    assert_eq!(&buf[..], "abhéllo\n".as_bytes());
}

#[test]
fn encoded_lines_are_decoded_in_order() {
    let mut buf = BytesMut::new();
    encode_line("first ✓".to_string(), &mut buf);
    encode_line(String::new(), &mut buf);
    encode_line("third".to_string(), &mut buf);
    assert_eq!(decode_line(&mut buf), Ok(Some("first ✓".to_string())));
    assert_eq!(decode_line(&mut buf), Ok(Some(String::new())));
    assert_eq!(decode_line(&mut buf), Ok(Some("third".to_string())));
    assert_eq!(decode_line(&mut buf), Ok(None));
}
