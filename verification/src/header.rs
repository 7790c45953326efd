use crate::bytes::{
    be_i64_at, be_u32_at, find_nul, lemma_letters_end, lemma_nul_index, letters_end, nul_index,
    read_be_i64, read_be_u32, scan_letters, tail_from,
};
use crate::error::BundleError;
use crate::text::{ascii_chars, lemma_ascii_is_text, read_text, text_of};
use vstd::prelude::*;
use vstd::slice::slice_subrange;

verus! {

/// The textual preamble of an archive.
#[derive(Debug, PartialEq, Eq, PartialOrd, Ord)]
pub struct UnityAssetBundleHeader {
    pub signature: String,
    pub version: u32,
    pub unity_version: String,
    pub unity_revision: String,
}

/// What a `UnityAssetBundleHeader` holds, as mathematical values.
pub struct HeaderView {
    pub signature: Seq<char>,
    pub version: u32,
    pub unity_version: Seq<char>,
    pub unity_revision: Seq<char>,
}

impl View for UnityAssetBundleHeader {
    type V = HeaderView;

    open spec fn view(&self) -> HeaderView {
        HeaderView {
            signature: self.signature@,
            version: self.version,
            unity_version: self.unity_version@,
            unity_revision: self.unity_revision@,
        }
    }
}

/// The fixed-size block that follows the header and says where the
/// blocks-info table lies and how it is compressed.
#[derive(Clone, Copy, Debug, Default, PartialEq, Eq, PartialOrd, Ord)]
pub struct UnityContainerHeader {
    pub size: i64,
    pub compressed_blocks_info_size: u32,
    pub uncompressed_blocks_info_size: u32,
    pub flags: u32,
}

/// The number of bytes that the container header occupies.
pub const CONTAINER_HEADER_LEN: usize = 20;

/// The header at the front of `s` and the number of bytes it occupies:
/// a non-empty run of ASCII letters closed by NUL, a big-endian `u32`, and
/// two NUL-terminated strings that must be text. `None` when `s` does not
/// start that way.
pub open spec fn header_of(s: Seq<u8>) -> Option<(HeaderView, int)> {
    let signature_end = letters_end(s, 0);
    let version_at = signature_end + 1;
    let engine_at = version_at + 4;
    let engine_end = nul_index(s, engine_at);
    let revision_at = engine_end + 1;
    let revision_end = nul_index(s, revision_at);
    if signature_end == 0 || signature_end >= s.len() || s[signature_end] != 0 {
        None
    } else if engine_at > s.len() || engine_end >= s.len() || revision_end >= s.len() {
        None
    } else {
        match (
            text_of(s.subrange(engine_at, engine_end)),
            text_of(s.subrange(revision_at, revision_end)),
        ) {
            (Some(unity_version), Some(unity_revision)) => Some(
                (
                    HeaderView {
                        signature: ascii_chars(s.subrange(0, signature_end)),
                        version: be_u32_at(s.skip(version_at)),
                        unity_version,
                        unity_revision,
                    },
                    revision_end + 1,
                ),
            ),
            _ => None,
        }
    }
}

/// The signature token at the front of `s`: a non-empty run of ASCII letters
/// with a NUL byte right after it. `None` when `s` does not open with one.
pub open spec fn signature_of(s: Seq<u8>) -> Option<Seq<char>> {
    let end = letters_end(s, 0);
    if end == 0 || end >= s.len() || s[end] != 0 {
        None
    } else {
        Some(ascii_chars(s.subrange(0, end)))
    }
}

/// A header carries the signature token of its bytes, and bytes without a
/// signature token have no header.
pub proof fn lemma_header_signature(s: Seq<u8>)
    ensures
        header_of(s) matches Some((header, _)) ==> signature_of(s) == Some(header.signature),
        signature_of(s) is None ==> header_of(s) is None,
{
}

/// A header takes at least eight bytes (a letter, three NULs and the
/// version) and never more than there are.
pub proof fn lemma_header_len(s: Seq<u8>)
    requires
        header_of(s) is Some,
    ensures
        8 <= header_of(s)->Some_0.1 <= s.len(),
{
    let signature_end = letters_end(s, 0);
    lemma_letters_end(s, 0);
    let engine_at = signature_end + 5;
    lemma_nul_index(s, engine_at);
    lemma_nul_index(s, nul_index(s, engine_at) + 1);
}

/// The container header at the front of `s`: four big-endian fields in
/// twenty bytes. `None` when `s` is shorter than that.
pub open spec fn container_header_of(s: Seq<u8>) -> Option<UnityContainerHeader> {
    if s.len() < CONTAINER_HEADER_LEN {
        None
    } else {
        Some(
            UnityContainerHeader {
                size: be_i64_at(s),
                compressed_blocks_info_size: be_u32_at(s.skip(8)),
                uncompressed_blocks_info_size: be_u32_at(s.skip(12)),
                flags: be_u32_at(s.skip(16)),
            },
        )
    }
}

/// Reads the header at the front of `input` and returns it with the bytes
/// that follow it.
pub fn read_unity_asset_bundle_header<'a>(input: &'a [u8]) -> (r: Result<
    (&'a [u8], UnityAssetBundleHeader),
    BundleError,
>)
    ensures
        match r {
            Ok((rest, header)) => header_of(input@) == Some(
                (header@, input@.len() - rest@.len()),
            ) && rest@.len() < input@.len() && rest@ == input@.skip(input@.len() - rest@.len()),
            Err(e) => e == BundleError::MalformedHeader && header_of(input@) is None,
        },
{
    let len: usize = input.len();
    let signature_end: usize = scan_letters(input, 0);
    if signature_end == 0 || signature_end >= len || input[signature_end] != 0 {
        return Err(BundleError::MalformedHeader);
    }
    let version_at: usize = signature_end + 1;
    if len - version_at < 4 {
        return Err(BundleError::MalformedHeader);
    }
    let engine_at: usize = version_at + 4;
    let version: u32 = read_be_u32(input, version_at);
    let engine_end: usize = find_nul(input, engine_at);
    if engine_end >= len {
        return Err(BundleError::MalformedHeader);
    }
    let revision_at: usize = engine_end + 1;
    let revision_end: usize = find_nul(input, revision_at);
    if revision_end >= len {
        return Err(BundleError::MalformedHeader);
    }
    proof {
        let token = input@.subrange(0, signature_end as int);
        lemma_letters_end(input@, 0);
        assert forall|i: int| 0 <= i < token.len() implies #[trigger] token[i] < 0x80 by {
            assert(token[i] == input@[i]);
        }
        lemma_ascii_is_text(token);
    }
    let signature = match read_text(slice_subrange(input, 0, signature_end)) {
        Some(t) => t,
        None => { return Err(BundleError::MalformedHeader); },
    };
    let unity_version = match read_text(slice_subrange(input, engine_at, engine_end)) {
        Some(t) => t,
        None => { return Err(BundleError::MalformedHeader); },
    };
    let unity_revision = match read_text(slice_subrange(input, revision_at, revision_end)) {
        Some(t) => t,
        None => { return Err(BundleError::MalformedHeader); },
    };
    let rest = tail_from(input, revision_end + 1);
    Ok((rest, UnityAssetBundleHeader { signature, version, unity_version, unity_revision }))
}

/// Reads the container header at the front of `input` and returns it with
/// the bytes that follow it.
pub fn read_unity_container_header<'a>(input: &'a [u8]) -> (r: Result<
    (&'a [u8], UnityContainerHeader),
    BundleError,
>)
    ensures
        match r {
            Ok((rest, header)) => container_header_of(input@) == Some(header) && rest@
                == input@.skip(CONTAINER_HEADER_LEN as int),
            Err(e) => e == BundleError::MalformedHeader && container_header_of(input@) is None,
        },
{
    if input.len() < CONTAINER_HEADER_LEN {
        return Err(BundleError::MalformedHeader);
    }
    let size: i64 = read_be_i64(input, 0);
    let compressed_blocks_info_size: u32 = read_be_u32(input, 8);
    let uncompressed_blocks_info_size: u32 = read_be_u32(input, 12);
    let flags: u32 = read_be_u32(input, 16);
    assert(input@.skip(0) == input@);
    let rest = tail_from(input, CONTAINER_HEADER_LEN);
    Ok(
        (
            rest,
            UnityContainerHeader {
                size,
                compressed_blocks_info_size,
                uncompressed_blocks_info_size,
                flags,
            },
        ),
    )
}

} // verus!
