use small_apps::chat::{decode_message, encode_message, message_text, CLIENT_MSG_SIZE, SERVER_MSG_SIZE};

#[test]
fn frames_pad_with_zeros() {
    assert_eq!(encode_message(b"hi", 5), vec![b'h', b'i', 0, 0, 0]);
    assert_eq!(encode_message(b"hi", SERVER_MSG_SIZE).len(), 64);
    assert_eq!(encode_message(b"hi", CLIENT_MSG_SIZE).len(), 32);
}

#[test]
fn frames_cut_long_messages() {
    assert_eq!(encode_message(b"hello", 3), b"hel".to_vec());
}

#[test]
fn message_is_bytes_before_first_zero() {
    assert_eq!(decode_message(&[b'a', b'b', 0, b'c']), b"ab".to_vec());
    assert_eq!(decode_message(b"abc"), b"abc".to_vec());
    assert_eq!(decode_message(&[0, 1]), Vec::<u8>::new());
}

#[test]
fn round_trip() {
    let m = "héllo wörld".as_bytes();
    let f = encode_message(m, SERVER_MSG_SIZE);
    assert_eq!(decode_message(&f), m.to_vec());
    assert_eq!(message_text(decode_message(&f)).unwrap(), "héllo wörld");
}

#[test]
fn invalid_utf8_has_no_text() {
    assert_eq!(message_text(vec![0xff, 0x41]), None);
    assert_eq!(message_text(b"ok".to_vec()).unwrap(), "ok");
}
