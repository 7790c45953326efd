use unity_asset_bundle::header::{read_unity_asset_bundle_header, read_unity_container_header};
use unity_asset_bundle::{BundleError, UnityContainerHeader};

fn header_bytes(signature: &[u8], version: u32, engine: &[u8], revision: &[u8]) -> Vec<u8> {
    let mut buf = signature.to_vec();
    buf.push(0);
    buf.extend_from_slice(&version.to_be_bytes());
    buf.extend_from_slice(engine);
    buf.push(0);
    buf.extend_from_slice(revision);
    buf.push(0);
    buf
}

#[test]
fn header_fields_are_read_in_order() {
    let mut buf = header_bytes(b"UnityFS", 6, b"5.x.x", b"2019.4.1f1");
    buf.extend_from_slice(b"tail");
    let (rest, header) = read_unity_asset_bundle_header(&buf).unwrap();
    assert_eq!(header.signature, "UnityFS");
    assert_eq!(header.version, 6);
    assert_eq!(header.unity_version, "5.x.x");
    assert_eq!(header.unity_revision, "2019.4.1f1");
    assert_eq!(rest, b"tail");
}

#[test]
fn header_version_is_big_endian() {
    let buf = header_bytes(b"UnityRaw", 0x0102_0304, b"", b"");
    assert_eq!(&buf[9..13], &[1, 2, 3, 4]);
    let (rest, header) = read_unity_asset_bundle_header(&buf).unwrap();
    assert_eq!(header.version, 0x0102_0304);
    assert_eq!(header.unity_version, "");
    assert_eq!(header.unity_revision, "");
    assert!(rest.is_empty());
    let buf = header_bytes(b"x", 0xffff_fffe, b"a", b"b");
    assert_eq!(read_unity_asset_bundle_header(&buf).unwrap().1.version, 0xffff_fffe);
}

#[test]
fn header_version_bytes_may_hold_nul() {
    // The four bytes of the version are not searched for a terminator.
    let buf = header_bytes(b"UnityFS", 0, b"v", b"r");
    let (_, header) = read_unity_asset_bundle_header(&buf).unwrap();
    assert_eq!(header.version, 0);
    assert_eq!(header.unity_version, "v");
    assert_eq!(header.unity_revision, "r");
}

#[test]
fn header_strings_may_hold_utf8() {
    let buf = header_bytes(b"Any", 1, "vers\u{e9}".as_bytes(), "r\u{4e2d}".as_bytes());
    let (_, header) = read_unity_asset_bundle_header(&buf).unwrap();
    assert_eq!(header.signature, "Any");
    assert_eq!(header.unity_version, "vers\u{e9}");
    assert_eq!(header.unity_revision, "r\u{4e2d}");
}

#[test]
fn header_without_signature_is_malformed() {
    for buf in [&b""[..], b"\0", b"\0\0\0\0\x06a\0b\0", b"1Unity\0\0\0\0\x06a\0b\0", b"\xc3\xa9\0"] {
        assert_eq!(
            read_unity_asset_bundle_header(buf).unwrap_err(),
            BundleError::MalformedHeader
        );
    }
}

#[test]
fn header_signature_must_be_letters_up_to_the_nul() {
    for sig in [&b"Unity1"[..], b"Unity FS", b"UnityFS.", b"Unit\xc3\xa9", b"Unity_FS"] {
        let buf = header_bytes(sig, 6, b"5.x.x", b"2019.4.1f1");
        assert_eq!(
            read_unity_asset_bundle_header(&buf).unwrap_err(),
            BundleError::MalformedHeader
        );
    }
}

#[test]
fn header_cut_short_is_malformed() {
    let buf = header_bytes(b"UnityFS", 6, b"5.x.x", b"2019.4.1f1");
    for cut in 0..buf.len() {
        assert_eq!(
            read_unity_asset_bundle_header(&buf[..cut]).unwrap_err(),
            BundleError::MalformedHeader
        );
    }
    assert!(read_unity_asset_bundle_header(&buf).is_ok());
}

#[test]
fn header_strings_that_are_not_text_are_malformed() {
    let buf = header_bytes(b"UnityFS", 6, b"5.\xff.x", b"2019.4.1f1");
    assert_eq!(read_unity_asset_bundle_header(&buf).unwrap_err(), BundleError::MalformedHeader);
    let buf = header_bytes(b"UnityFS", 6, b"5.x.x", b"2019\xc3");
    assert_eq!(read_unity_asset_bundle_header(&buf).unwrap_err(), BundleError::MalformedHeader);
}

#[test]
fn container_header_fields_are_read_in_order() {
    let mut buf = Vec::new();
    buf.extend_from_slice(&4465i64.to_be_bytes());
    buf.extend_from_slice(&85u32.to_be_bytes());
    buf.extend_from_slice(&153u32.to_be_bytes());
    buf.extend_from_slice(&67u32.to_be_bytes());
    buf.extend_from_slice(b"xyz");
    let (rest, container) = read_unity_container_header(&buf).unwrap();
    assert_eq!(
        container,
        UnityContainerHeader {
            size: 4465,
            compressed_blocks_info_size: 85,
            uncompressed_blocks_info_size: 153,
            flags: 67,
        }
    );
    assert_eq!(rest, b"xyz");
}

#[test]
fn container_header_size_is_signed() {
    let mut buf = Vec::new();
    buf.extend_from_slice(&(-2i64).to_be_bytes());
    buf.extend_from_slice(&u32::MAX.to_be_bytes());
    buf.extend_from_slice(&0x8000_0000u32.to_be_bytes());
    buf.extend_from_slice(&0x0102_0304u32.to_be_bytes());
    let (rest, container) = read_unity_container_header(&buf).unwrap();
    assert_eq!(container.size, -2);
    assert_eq!(container.compressed_blocks_info_size, u32::MAX);
    assert_eq!(container.uncompressed_blocks_info_size, 0x8000_0000);
    assert_eq!(container.flags, 0x0102_0304);
    assert!(rest.is_empty());

    let mut buf = i64::MIN.to_be_bytes().to_vec();
    buf.extend_from_slice(&[0; 12]);
    assert_eq!(read_unity_container_header(&buf).unwrap().1.size, i64::MIN);
    let mut buf = i64::MAX.to_be_bytes().to_vec();
    buf.extend_from_slice(&[0; 12]);
    assert_eq!(read_unity_container_header(&buf).unwrap().1.size, i64::MAX);
    let mut buf = 0x0102_0304_0506_0708i64.to_be_bytes().to_vec();
    buf.extend_from_slice(&[0; 12]);
    assert_eq!(read_unity_container_header(&buf).unwrap().1.size, 0x0102_0304_0506_0708);
}

#[test]
fn container_header_cut_short_is_malformed() {
    let buf = [0u8; 20];
    for cut in 0..20 {
        assert_eq!(
            read_unity_container_header(&buf[..cut]).unwrap_err(),
            BundleError::MalformedHeader
        );
    }
    assert!(read_unity_container_header(&buf).is_ok());
}
