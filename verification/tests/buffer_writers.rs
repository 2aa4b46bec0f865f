use shelly_rpc::util::{copy_slice, json_escape_into, url_encode_into};
use shelly_rpc::Error;

#[test]
fn url_encode_unreserved_passthrough() {
    let mut buf = [0u8; 64];
    let n = url_encode_into(&mut buf, b"hello-world_2.0~test").unwrap();
    assert_eq!(&buf[..n], b"hello-world_2.0~test");
}

#[test]
fn url_encode_spaces_and_special() {
    let mut buf = [0u8; 64];
    let n = url_encode_into(&mut buf, b"a b+c&d=e").unwrap();
    assert_eq!(
        core::str::from_utf8(&buf[..n]).unwrap(),
        "a%20b%2Bc%26d%3De"
    );
}

#[test]
fn url_encode_json_braces() {
    let mut buf = [0u8; 64];
    let n = url_encode_into(&mut buf, br#"{"k":"v"}"#).unwrap();
    assert_eq!(
        core::str::from_utf8(&buf[..n]).unwrap(),
        "%7B%22k%22%3A%22v%22%7D"
    );
}

#[test]
fn url_encode_buffer_too_small() {
    let mut buf = [0u8; 2];
    // Space needs 3 bytes (%20) but only 2 available
    assert!(url_encode_into(&mut buf, b" ").is_err());
}

#[test]
fn url_encode_empty() {
    let mut buf = [0u8; 8];
    let n = url_encode_into(&mut buf, b"").unwrap();
    assert_eq!(n, 0);
}

#[test]
fn json_escape_plain() {
    let mut buf = [0u8; 32];
    let n = json_escape_into(&mut buf, b"hello").unwrap();
    assert_eq!(&buf[..n], b"hello");
}

#[test]
fn json_escape_special_chars() {
    let mut buf = [0u8; 64];
    let n = json_escape_into(&mut buf, br#"say "hi" \ and	tab"#).unwrap();
    assert_eq!(
        core::str::from_utf8(&buf[..n]).unwrap(),
        r#"say \"hi\" \\ and\ttab"#
    );
}

#[test]
fn json_escape_newlines() {
    let mut buf = [0u8; 32];
    let n = json_escape_into(&mut buf, b"a\nb\rc").unwrap();
    assert_eq!(&buf[..n], br#"a\nb\rc"#);
}

#[test]
fn json_escape_buffer_too_small() {
    let mut buf = [0u8; 3];
    let r = json_escape_into(&mut buf, b"hello");
    assert!(r.is_err());
}

#[test]
fn json_escape_backslash_doubles_length() {
    let mut buf = [0u8; 4];
    // 2 backslashes -> 4 bytes escaped
    let n = json_escape_into(&mut buf, b"\\\\").unwrap();
    assert_eq!(&buf[..n], b"\\\\\\\\");
}

#[test]
fn copy_slice_writes_at_offset() {
    let mut buf = [b'.'; 6];
    let n = copy_slice(&mut buf, 2, b"ab").unwrap();
    assert_eq!(n, 2);
    assert_eq!(&buf, b"..ab..");
}

#[test]
fn copy_slice_rejects_overflow_and_keeps_buffer() {
    let mut buf = [b'.'; 4];
    assert_eq!(copy_slice(&mut buf, 3, b"ab"), Err(Error::BufferTooSmall));
    assert_eq!(&buf, b"....");
}

#[test]
fn url_encode_lowercase_hex_is_never_emitted() {
    let mut buf = [0u8; 8];
    let n = url_encode_into(&mut buf, &[0xAB]).unwrap();
    assert_eq!(&buf[..n], b"%AB");
}

#[test]
fn json_escape_exact_fit() {
    let mut buf = [0u8; 2];
    let n = json_escape_into(&mut buf, b"\"").unwrap();
    assert_eq!(&buf[..n], b"\\\"");
}

#[test]
fn json_escape_writes_control_bytes_as_unicode_escapes() {
    let mut buf = [0u8; 64];
    let n = json_escape_into(&mut buf, b"a\x01b\x1f\x00\t").unwrap();
    assert_eq!(&buf[..n], b"a\\u0001b\\u001F\\u0000\\t");
}
