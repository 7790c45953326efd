use unity_asset_bundle::text::read_text;

#[test]
fn ascii_bytes_are_text() {
    assert_eq!(read_text(b"UnityFS"), Some("UnityFS".to_string()));
    assert_eq!(read_text(b"2019.4.1f1"), Some("2019.4.1f1".to_string()));
    assert_eq!(read_text(b""), Some(String::new()));
    assert_eq!(read_text(b"\x7f\x01 ~"), Some("\u{7f}\u{1} ~".to_string()));
}

#[test]
fn well_formed_utf8_is_text() {
    assert_eq!(read_text("caf\u{e9}".as_bytes()), Some("caf\u{e9}".to_string()));
    assert_eq!(read_text(&[0xe4, 0xb8, 0xad]), Some("\u{4e2d}".to_string()));
    assert_eq!(read_text(&[0xf0, 0x9f, 0x98, 0x80]), Some("\u{1f600}".to_string()));
}

#[test]
fn ill_formed_utf8_is_no_text() {
    assert_eq!(read_text(&[0xff]), None);
    assert_eq!(read_text(&[0x80]), None);
    assert_eq!(read_text(&[b'a', 0xc3]), None);
    // An overlong form and a surrogate.
    assert_eq!(read_text(&[0xc0, 0x80]), None);
    assert_eq!(read_text(&[0xed, 0xa0, 0x80]), None);
}
