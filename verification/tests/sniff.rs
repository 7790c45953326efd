use unity_asset_bundle::sniff::{probe_serialized_assets, starts_with_signature};
use unity_asset_bundle::{classify, FileKind};

fn narrow_header(file_size: u32, version: u32, data_offset: u32, len: usize) -> Vec<u8> {
    let mut buf = Vec::new();
    buf.extend_from_slice(&0x1234u32.to_be_bytes());
    buf.extend_from_slice(&file_size.to_be_bytes());
    buf.extend_from_slice(&version.to_be_bytes());
    buf.extend_from_slice(&data_offset.to_be_bytes());
    buf.push(0);
    buf.extend_from_slice(&[0, 0, 0]);
    buf.resize(len, 0xab);
    buf
}

fn wide_header(file_size: u64, version: u32, data_offset: u64, len: usize) -> Vec<u8> {
    let mut buf = Vec::new();
    buf.extend_from_slice(&0u32.to_be_bytes());
    buf.extend_from_slice(&0u32.to_be_bytes());
    buf.extend_from_slice(&version.to_be_bytes());
    buf.extend_from_slice(&0u32.to_be_bytes());
    buf.push(0);
    buf.extend_from_slice(&[0, 0, 0]);
    buf.extend_from_slice(&0x1234u32.to_be_bytes());
    buf.extend_from_slice(&file_size.to_be_bytes());
    buf.extend_from_slice(&data_offset.to_be_bytes());
    buf.resize(len, 0xcd);
    buf
}

#[test]
fn bundle_signatures_are_recognised() {
    assert_eq!(classify(b"UnityFS\0\0\0\0\x06"), FileKind::BundleFile);
    assert_eq!(classify(b"UnityWeb\0rest"), FileKind::BundleFile);
    assert_eq!(classify(b"UnityRaw\0rest"), FileKind::BundleFile);
    assert_eq!(classify(b"UnityArchive\0rest"), FileKind::BundleFile);
    assert_eq!(classify(b"UnityFS\0"), FileKind::BundleFile);
}

#[test]
fn web_data_signature_is_recognised() {
    assert_eq!(classify(b"UnityWebData1.0\0rest"), FileKind::WebDataFile);
    assert_eq!(classify(b"UnityWebData1.0\0"), FileKind::WebDataFile);
}

#[test]
fn a_signature_needs_its_nul() {
    assert_eq!(classify(b"UnityFS"), FileKind::OpaqueResourceFile);
    assert_eq!(classify(b"UnityFSx\0"), FileKind::OpaqueResourceFile);
    assert_eq!(classify(b"UnityWebData1.0"), FileKind::OpaqueResourceFile);
    assert_eq!(classify(b"UnityWebData\0"), FileKind::OpaqueResourceFile);
    assert_eq!(classify(b"unityfs\0"), FileKind::OpaqueResourceFile);
    assert_eq!(classify(b"\0UnityFS\0"), FileKind::OpaqueResourceFile);
}

#[test]
fn starts_with_signature_compares_bytes_and_terminator() {
    assert!(starts_with_signature(b"abc\0", "abc"));
    assert!(starts_with_signature(b"abc\0def", "abc"));
    assert!(starts_with_signature(b"\0", ""));
    assert!(!starts_with_signature(b"abc", "abc"));
    assert!(!starts_with_signature(b"abd\0", "abc"));
    assert!(!starts_with_signature(b"abcd\0", "abc"));
    assert!(!starts_with_signature(b"", "abc"));
    assert!(!starts_with_signature(b"", ""));
}

#[test]
fn classification_is_repeatable_and_leaves_the_input_alone() {
    let inputs: Vec<Vec<u8>> = vec![
        b"UnityFS\0abc".to_vec(),
        b"UnityWebData1.0\0".to_vec(),
        narrow_header(32, 17, 20, 32),
        vec![0xff; 64],
        Vec::new(),
    ];
    for input in inputs {
        let before = input.clone();
        let first = classify(&input);
        let second = classify(&input);
        assert_eq!(first, second);
        assert_eq!(input, before);
    }
}

#[test]
fn short_buffers_are_opaque() {
    for len in 0..20usize {
        // The declared size agrees with the length, yet the buffer is too short.
        let buf = narrow_header(len as u32, 17, 0, 20);
        assert_eq!(classify(&buf[..len]), FileKind::OpaqueResourceFile);
        assert!(!probe_serialized_assets(&buf[..len]));
    }
    assert_eq!(classify(&[]), FileKind::OpaqueResourceFile);
}

#[test]
fn narrow_header_that_agrees_is_serialized_assets() {
    assert_eq!(classify(&narrow_header(20, 17, 20, 20)), FileKind::SerializedAssetsFile);
    assert_eq!(classify(&narrow_header(100, 21, 0, 100)), FileKind::SerializedAssetsFile);
    assert_eq!(classify(&narrow_header(100, 0, 100, 100)), FileKind::SerializedAssetsFile);
}

#[test]
fn wrong_declared_size_is_opaque() {
    assert_eq!(classify(&narrow_header(99, 17, 20, 100)), FileKind::OpaqueResourceFile);
    assert_eq!(classify(&narrow_header(101, 17, 20, 100)), FileKind::OpaqueResourceFile);
    assert_eq!(classify(&narrow_header(0, 17, 0, 100)), FileKind::OpaqueResourceFile);
    assert_eq!(classify(&wide_header(99, 22, 48, 100)), FileKind::OpaqueResourceFile);
}

#[test]
fn data_offset_beyond_the_end_is_opaque() {
    assert_eq!(classify(&narrow_header(100, 17, 101, 100)), FileKind::OpaqueResourceFile);
    assert_eq!(classify(&wide_header(100, 22, 101, 100)), FileKind::OpaqueResourceFile);
    assert_eq!(classify(&wide_header(100, 22, 100, 100)), FileKind::SerializedAssetsFile);
}

#[test]
fn wide_header_is_read_from_its_own_fields() {
    assert_eq!(classify(&wide_header(48, 22, 48, 48)), FileKind::SerializedAssetsFile);
    assert_eq!(classify(&wide_header(200, 30, 64, 200)), FileKind::SerializedAssetsFile);
    // The narrow fields are zero in these buffers: they are not what is compared.
    assert!(probe_serialized_assets(&wide_header(200, 22, 0, 200)));
}

#[test]
fn wide_header_needs_forty_eight_bytes() {
    for len in 20..48usize {
        let buf = wide_header(len as u64, 22, 0, 48);
        assert_eq!(classify(&buf[..len]), FileKind::OpaqueResourceFile);
    }
}

#[test]
fn wide_fields_are_compared_by_their_low_32_bits() {
    let high = 0x0000_0007_0000_0000u64;
    assert_eq!(classify(&wide_header(high + 64, 22, high + 48, 64)), FileKind::SerializedAssetsFile);
    assert_eq!(classify(&wide_header(high + 65, 22, 48, 64)), FileKind::OpaqueResourceFile);
    assert_eq!(classify(&wide_header(64, 22, high + 65, 64)), FileKind::OpaqueResourceFile);
}
