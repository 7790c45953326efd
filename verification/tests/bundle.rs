use unity_asset_bundle::{classify, read_unity_asset_bundle, BundleError, FileKind};

const FIRST_PATH: &str = "CAB-5813386f0ea15049abeb5a688d9031d3";
const SECOND_PATH: &str = "CAB-5813386f0ea15049abeb5a688d9031d3.resS";

fn length_bytes(mut n: usize, out: &mut Vec<u8>) {
    while n >= 255 {
        out.push(255);
        n -= 255;
    }
    out.push(n as u8);
}

/// One LZ4 sequence: the literals, then a copy of `len` bytes from `offset`
/// bytes back. The last sequence of a block has no copy.
fn lz4_sequence(literals: &[u8], copy: Option<(u16, usize)>) -> Vec<u8> {
    let mut out = Vec::new();
    let copy_code = match copy {
        Some((_, len)) => (len - 4).min(15),
        None => 0,
    };
    out.push(((literals.len().min(15) << 4) | copy_code) as u8);
    if literals.len() >= 15 {
        length_bytes(literals.len() - 15, &mut out);
    }
    out.extend_from_slice(literals);
    if let Some((offset, len)) = copy {
        out.extend_from_slice(&offset.to_le_bytes());
        if len - 4 >= 15 {
            length_bytes(len - 4 - 15, &mut out);
        }
    }
    out
}

fn header() -> Vec<u8> {
    let mut buf = b"UnityFS\0".to_vec();
    buf.extend_from_slice(&6u32.to_be_bytes());
    buf.extend_from_slice(b"5.x.x\0");
    buf.extend_from_slice(b"2019.4.1f1\0");
    buf
}

fn container(size: i64, compressed: u32, uncompressed: u32, flags: u32) -> Vec<u8> {
    let mut buf = Vec::new();
    buf.extend_from_slice(&size.to_be_bytes());
    buf.extend_from_slice(&compressed.to_be_bytes());
    buf.extend_from_slice(&uncompressed.to_be_bytes());
    buf.extend_from_slice(&flags.to_be_bytes());
    buf
}

fn tables(hash: &[u8; 16], block: (u32, u32, u16), second_size: i64) -> Vec<u8> {
    let mut buf = hash.to_vec();
    buf.extend_from_slice(&1i32.to_be_bytes());
    buf.extend_from_slice(&block.0.to_be_bytes());
    buf.extend_from_slice(&block.1.to_be_bytes());
    buf.extend_from_slice(&block.2.to_be_bytes());
    buf.extend_from_slice(&2i32.to_be_bytes());
    buf.extend_from_slice(&0i64.to_be_bytes());
    buf.extend_from_slice(&4512i64.to_be_bytes());
    buf.extend_from_slice(&4u32.to_be_bytes());
    buf.extend_from_slice(FIRST_PATH.as_bytes());
    buf.push(0);
    buf.extend_from_slice(&4512i64.to_be_bytes());
    buf.extend_from_slice(&second_size.to_be_bytes());
    buf.extend_from_slice(&4u32.to_be_bytes());
    buf.extend_from_slice(SECOND_PATH.as_bytes());
    buf.push(0);
    buf
}

fn asset_bytes(len: usize) -> Vec<u8> {
    (0..len).map(|i| ((i * 31 + i / 7) % 251) as u8).collect()
}

/// An archive laid out by hand, LZ4 streams included: 4465 bytes, with
/// tables of 153 bytes packed into 85.
fn hand_made_archive() -> (Vec<u8>, Vec<u8>) {
    let hash = [0x21, 0x22, 0x23, 0x24, 0x25, 0, 0, 0, 0, 0, 0, 0, 0, 0, 0, 0];
    let info = tables(&hash, (9024, 4331, 3), 4512);
    assert_eq!(info.len(), 153);
    let mut packed_info = Vec::new();
    packed_info.extend_from_slice(&lz4_sequence(&info[0..6], Some((1, 13))));
    packed_info.extend_from_slice(&lz4_sequence(&info[19..34], Some((29, 14))));
    packed_info.extend_from_slice(&lz4_sequence(&info[48..90], Some((49, 12))));
    packed_info.extend_from_slice(&lz4_sequence(&[], Some((57, 45))));
    packed_info.extend_from_slice(&lz4_sequence(&info[147..153], None));
    assert_eq!(packed_info.len(), 85);

    let mut payload = asset_bytes(4286);
    for i in 4286..9019 {
        payload.push(payload[i - 4286]);
    }
    payload.extend_from_slice(b"close");
    assert_eq!(payload.len(), 9024);
    let mut packed_payload = lz4_sequence(&payload[..4286], Some((4286, 4733)));
    packed_payload.extend_from_slice(&lz4_sequence(b"close", None));
    assert_eq!(packed_payload.len(), 4331);

    let mut archive = header();
    archive.extend_from_slice(&container(4465, 85, 153, 67));
    archive.extend_from_slice(&packed_info);
    archive.extend_from_slice(&packed_payload);
    assert_eq!(archive.len(), 4465);
    (archive, payload)
}

#[test]
fn test_read_unity_asset_bundle_header() {
    let (file, _) = hand_made_archive();
    let unity_asset_bundle = read_unity_asset_bundle(&file).unwrap().1;
    assert_eq!("UnityFS", unity_asset_bundle.header.signature);
    assert_eq!(6, unity_asset_bundle.header.version);
    assert_eq!("5.x.x", unity_asset_bundle.header.unity_version);
    assert_eq!("2019.4.1f1", unity_asset_bundle.header.unity_revision);
    assert_eq!(4465, unity_asset_bundle.container_header.size);
    assert_eq!(
        85,
        unity_asset_bundle
            .container_header
            .compressed_blocks_info_size
    );
    assert_eq!(
        153,
        unity_asset_bundle
            .container_header
            .uncompressed_blocks_info_size
    );
    assert_eq!(67, unity_asset_bundle.container_header.flags);
    assert_eq!(2, unity_asset_bundle.directory_info.len());
    assert_eq!(0, unity_asset_bundle.directory_info[0].offset);
    assert_eq!(4512, unity_asset_bundle.directory_info[0].size);
    assert_eq!(4, unity_asset_bundle.directory_info[0].flags);
    assert_eq!(
        "CAB-5813386f0ea15049abeb5a688d9031d3",
        unity_asset_bundle.directory_info[0].path
    );
}

#[test]
fn hand_made_archive_gives_its_files() {
    let (file, payload) = hand_made_archive();
    assert_eq!(classify(&file), FileKind::BundleFile);
    let (rest, bundle) = read_unity_asset_bundle(&file).unwrap();
    assert!(rest.is_empty());
    assert_eq!(bundle.header.signature, "UnityFS");
    assert_eq!(bundle.storage_blocks.len(), 1);
    assert_eq!(bundle.storage_blocks[0].uncompressed_size, 9024);
    assert_eq!(bundle.storage_blocks[0].compressed_size, 4331);
    assert_eq!(bundle.storage_blocks[0].flags, 3);
    assert_eq!(bundle.stream_files.len(), 2);
    assert_eq!(bundle.stream_files[0].path, FIRST_PATH);
    assert_eq!(bundle.stream_files[0].file_name, FIRST_PATH);
    assert_eq!(bundle.stream_files[0].body.len(), 4512);
    assert_eq!(bundle.stream_files[0].body, &payload[..4512]);
    assert_eq!(bundle.stream_files[1].path, SECOND_PATH);
    assert_eq!(bundle.stream_files[1].body, &payload[4512..]);
    assert_eq!(bundle.directory_info[1].offset, 4512);
    assert_eq!(bundle.directory_info[1].path, SECOND_PATH);
}

/// An archive packed by the LZ4 encoder, with its tables either right after
/// the container header or at the very end.
fn packed_archive(at_end: bool, extra: &[u8]) -> (Vec<u8>, Vec<u8>) {
    let payload = asset_bytes(4512 + 700);
    let packed_payload = lz4_flex::block::compress(&payload);
    let info = tables(&[7; 16], (payload.len() as u32, packed_payload.len() as u32, 0x43), 700);
    let packed_info = lz4_flex::block::compress(&info);
    let flags = if at_end { 0x83 } else { 67 };
    let mut archive = header();
    archive.extend_from_slice(&container(0, packed_info.len() as u32, info.len() as u32, flags));
    if at_end {
        archive.extend_from_slice(&packed_payload);
        archive.extend_from_slice(extra);
        archive.extend_from_slice(&packed_info);
    } else {
        archive.extend_from_slice(&packed_info);
        archive.extend_from_slice(&packed_payload);
        archive.extend_from_slice(extra);
    }
    (archive, payload)
}

#[test]
fn end_to_end_with_inline_tables() {
    let (archive, payload) = packed_archive(false, b"trailer");
    let (rest, bundle) = read_unity_asset_bundle(&archive).unwrap();
    assert_eq!(rest, b"trailer");
    assert_eq!(bundle.header.signature, "UnityFS");
    assert_eq!(bundle.header.version, 6);
    assert_eq!(bundle.header.unity_version, "5.x.x");
    assert_eq!(bundle.header.unity_revision, "2019.4.1f1");
    assert_eq!(bundle.container_header.flags, 67);
    assert_eq!(bundle.directory_info.len(), 2);
    assert_eq!(bundle.stream_files.len(), 2);
    assert_eq!(bundle.stream_files[0].path, "CAB-5813386f0ea15049abeb5a688d9031d3");
    assert_eq!(bundle.stream_files[0].body.len(), 4512);
    assert_eq!(bundle.stream_files[0].body, &payload[..4512]);
    assert_eq!(bundle.stream_files[1].body, &payload[4512..]);
}

#[test]
fn end_to_end_with_tables_at_the_end() {
    let (archive, payload) = packed_archive(true, b"gap");
    let (rest, bundle) = read_unity_asset_bundle(&archive).unwrap();
    // What follows the storage blocks is the gap and then the tables.
    assert_eq!(&rest[..3], b"gap");
    assert_eq!(rest.len(), 3 + bundle.container_header.compressed_blocks_info_size as usize);
    assert_eq!(bundle.container_header.flags, 0x83);
    assert_eq!(bundle.stream_files.len(), 2);
    assert_eq!(bundle.stream_files[0].body, &payload[..4512]);
    assert_eq!(bundle.stream_files[1].body.len(), 700);
}

#[test]
fn every_prefix_of_an_archive_fails_cleanly() {
    let (archive, _) = packed_archive(false, b"");
    let header_len = header().len();
    let tables_len = {
        let (_, bundle) = read_unity_asset_bundle(&archive).unwrap();
        bundle.container_header.compressed_blocks_info_size as usize
    };
    for cut in 0..archive.len() {
        let error = read_unity_asset_bundle(&archive[..cut]).unwrap_err();
        let expected = if cut < header_len + 20 {
            BundleError::MalformedHeader
        } else if cut < header_len + 20 + tables_len {
            BundleError::TruncatedBlocksInfo
        } else {
            BundleError::TruncatedPayload
        };
        assert_eq!(error, expected);
    }
}

#[test]
fn damaged_tables_fail_to_expand() {
    let (mut archive, _) = packed_archive(false, b"");
    let at = header().len() + 20;
    // The first sequence of the packed tables now copies from before the start.
    archive[at] = 0x0f;
    archive[at + 1] = 0xff;
    archive[at + 2] = 0xff;
    assert_eq!(read_unity_asset_bundle(&archive).unwrap_err(), BundleError::DecompressionFailure);
}

#[test]
fn version_seven_is_unsupported() {
    let (mut archive, _) = packed_archive(false, b"");
    archive[11] = 7;
    assert_eq!(
        read_unity_asset_bundle(&archive).unwrap_err(),
        BundleError::UnsupportedFormatVersion
    );
    archive[11] = 5;
    assert!(read_unity_asset_bundle(&archive).is_ok());
}

#[test]
fn lzma_tables_are_unsupported() {
    let (mut archive, _) = packed_archive(false, b"");
    let flags_at = header().len() + 19;
    archive[flags_at] = 0x41;
    assert_eq!(read_unity_asset_bundle(&archive).unwrap_err(), BundleError::UnsupportedCodec);
}

#[test]
fn stored_archive_with_wrong_block_size_is_a_size_mismatch() {
    let mut info = vec![0u8; 16];
    info.extend_from_slice(&1i32.to_be_bytes());
    info.extend_from_slice(&5u32.to_be_bytes());
    info.extend_from_slice(&4u32.to_be_bytes());
    info.extend_from_slice(&0u16.to_be_bytes());
    info.extend_from_slice(&0i32.to_be_bytes());
    let mut archive = header();
    archive.extend_from_slice(&container(0, info.len() as u32, info.len() as u32, 0));
    archive.extend_from_slice(&info);
    archive.extend_from_slice(b"data");
    assert_eq!(read_unity_asset_bundle(&archive).unwrap_err(), BundleError::SizeMismatch);
}

#[test]
fn stored_archive_without_files() {
    let mut info = vec![0u8; 16];
    info.extend_from_slice(&0i32.to_be_bytes());
    info.extend_from_slice(&0i32.to_be_bytes());
    let mut archive = header();
    // The declared size of stored tables is not checked.
    archive.extend_from_slice(&container(-1, info.len() as u32, 9999, 0));
    archive.extend_from_slice(&info);
    let (rest, bundle) = read_unity_asset_bundle(&archive).unwrap();
    assert!(rest.is_empty());
    assert_eq!(bundle.container_header.size, -1);
    assert_eq!(bundle.container_header.uncompressed_blocks_info_size, 9999);
    assert!(bundle.storage_blocks.is_empty());
    assert!(bundle.directory_info.is_empty());
    assert!(bundle.stream_files.is_empty());
}
