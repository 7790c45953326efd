use crate::bytes::{
    be_u32_at, be_u64_at, is_ascii_letter, lemma_letters_end, lemma_letters_end_is, letters_end,
    read_be_u32, read_be_u64,
};
use crate::header::signature_of;
use crate::text::ascii_chars;
use vstd::prelude::*;
use vstd::utf8::{encode_utf8, is_ascii_chars_encode_utf8};

verus! {

/// The kinds of container that a buffer can turn out to be.
#[derive(Clone, Copy, Debug, PartialEq, Eq, Structural)]
pub enum FileKind {
    /// An asset bundle: the buffer opens with one of the bundle signatures.
    BundleFile,
    /// A web-data container: the buffer opens with the web-data signature.
    WebDataFile,
    /// A serialized-assets file: the buffer has no known signature, and its
    /// first bytes are a header that agrees with the buffer's length.
    SerializedAssetsFile,
    /// Anything else.
    OpaqueResourceFile,
}

/// The smallest serialized-assets header.
pub const SERIALIZED_HEADER_LEN: usize = 20;

/// The length of a serialized-assets header of the wide layout.
pub const WIDE_SERIALIZED_HEADER_LEN: usize = 48;

/// The first serialized-assets format version with the wide layout.
pub const FIRST_WIDE_VERSION: u32 = 22;

/// Whether `s` opens with the bytes of `name` and a NUL byte right after them.
pub open spec fn has_signature(s: Seq<u8>, name: Seq<char>) -> bool {
    let token = encode_utf8(name);
    s.len() > token.len() && s.subrange(0, token.len() as int) == token && s[token.len() as int]
        == 0
}

/// Whether `s` opens with one of the four bundle signatures.
pub open spec fn has_bundle_signature(s: Seq<u8>) -> bool {
    has_signature(s, "UnityWeb"@) || has_signature(s, "UnityRaw"@) || has_signature(
        s,
        "UnityArchive"@,
    ) || has_signature(s, "UnityFS"@)
}

/// Whether `s` opens with the web-data signature.
pub open spec fn has_web_data_signature(s: Seq<u8>) -> bool {
    has_signature(s, "UnityWebData1.0"@)
}

/// The format version that a serialized-assets header in `s` declares.
pub open spec fn declared_format_version(s: Seq<u8>) -> u32 {
    be_u32_at(s.skip(8))
}

/// The file size that a serialized-assets header in `s` declares: a 32-bit
/// field of the narrow layout, or the low 32 bits of a 64-bit field of the
/// wide one.
pub open spec fn declared_file_size(s: Seq<u8>) -> int {
    if declared_format_version(s) >= FIRST_WIDE_VERSION {
        be_u64_at(s.skip(24)) as int % 0x1_0000_0000
    } else {
        be_u32_at(s.skip(4)) as int
    }
}

/// The data offset that a serialized-assets header in `s` declares, read
/// like the file size.
pub open spec fn declared_data_offset(s: Seq<u8>) -> int {
    if declared_format_version(s) >= FIRST_WIDE_VERSION {
        be_u64_at(s.skip(32)) as int % 0x1_0000_0000
    } else {
        be_u32_at(s.skip(12)) as int
    }
}

/// Whether `s` passes for a serialized-assets file: it is long enough for
/// the header layout that its version calls for, the declared file size is
/// the length of `s`, and the declared data offset lies within `s`.
pub open spec fn serialized_probe(s: Seq<u8>) -> bool {
    &&& s.len() >= SERIALIZED_HEADER_LEN
    &&& declared_format_version(s) >= FIRST_WIDE_VERSION ==> s.len()
        >= WIDE_SERIALIZED_HEADER_LEN
    &&& declared_file_size(s) == s.len()
    &&& declared_data_offset(s) <= s.len()
}

/// The kind of container that the bytes `s` are.
pub open spec fn kind_of(s: Seq<u8>) -> FileKind {
    if has_bundle_signature(s) {
        FileKind::BundleFile
    } else if has_web_data_signature(s) {
        FileKind::WebDataFile
    } else if serialized_probe(s) {
        FileKind::SerializedAssetsFile
    } else {
        FileKind::OpaqueResourceFile
    }
}

/// Tells whether `input` opens with `name` and a NUL byte.
pub fn starts_with_signature(input: &[u8], name: &str) -> (found: bool)
    ensures
        found == has_signature(input@, name@),
{
    let token: &[u8] = name.as_bytes();
    let n: usize = token.len();
    if input.len() <= n {
        return false;
    }
    let mut k: usize = 0;
    while k < n
        invariant
            k <= n,
            n == token@.len(),
            n < input@.len(),
            token@ == encode_utf8(name@),
            forall|j: int| 0 <= j < k ==> input@[j] == token@[j],
        decreases n - k,
    {
        if input[k] != token[k] {
            assert(input@.subrange(0, n as int)[k as int] != token@[k as int]);
            return false;
        }
        k = k + 1;
    }
    assert(input@.subrange(0, n as int) =~= token@);
    input[n] == 0
}

/// Checks whether `input` passes for a serialized-assets file. Nothing is
/// consumed: the check reads fields at fixed places.
pub fn probe_serialized_assets(input: &[u8]) -> (passes: bool)
    ensures
        passes == serialized_probe(input@),
{
    let len: usize = input.len();
    if len < SERIALIZED_HEADER_LEN {
        return false;
    }
    let version: u32 = read_be_u32(input, 8);
    if version >= FIRST_WIDE_VERSION {
        if len < WIDE_SERIALIZED_HEADER_LEN {
            return false;
        }
        let file_size: u64 = read_be_u64(input, 24) % 0x1_0000_0000;
        let data_offset: u64 = read_be_u64(input, 32) % 0x1_0000_0000;
        file_size == len as u64 && data_offset <= len as u64
    } else {
        let file_size: u32 = read_be_u32(input, 4);
        let data_offset: u32 = read_be_u32(input, 12);
        file_size as u64 == len as u64 && data_offset as u64 <= len as u64
    }
}

/// Tells what kind of container `input` is. Every buffer has a kind; the
/// answer depends on the bytes alone.
pub fn classify(input: &[u8]) -> (kind: FileKind)
    ensures
        kind == kind_of(input@),
        input@.len() < SERIALIZED_HEADER_LEN ==> kind != FileKind::SerializedAssetsFile,
        declared_file_size(input@) != input@.len() ==> kind != FileKind::SerializedAssetsFile,
{
    if starts_with_signature(input, "UnityWeb") || starts_with_signature(input, "UnityRaw")
        || starts_with_signature(input, "UnityArchive") || starts_with_signature(
        input,
        "UnityFS",
    ) {
        FileKind::BundleFile
    } else if starts_with_signature(input, "UnityWebData1.0") {
        FileKind::WebDataFile
    } else if probe_serialized_assets(input) {
        FileKind::SerializedAssetsFile
    } else {
        FileKind::OpaqueResourceFile
    }
}

/// Whether `name` is made of ASCII letters only.
pub open spec fn is_letters(name: Seq<char>) -> bool {
    forall|i: int|
        0 <= i < name.len() ==> ('A' <= #[trigger] name[i] <= 'Z') || ('a' <= name[i] <= 'z')
}

/// For a name made of letters, to open with the name and a NUL byte is the
/// same as to have the name as signature token.
pub proof fn lemma_signature_is_token(s: Seq<u8>, name: Seq<char>)
    requires
        is_letters(name),
        name.len() > 0,
    ensures
        has_signature(s, name) <==> signature_of(s) == Some(name),
{
    let token = encode_utf8(name);
    let n = name.len() as int;
    assert forall|i: int| 0 <= i < name.len() implies '\0' <= #[trigger] name[i] <= '\u{7f}' by {
        assert(('A' <= name[i] <= 'Z') || ('a' <= name[i] <= 'z'));
    }
    is_ascii_chars_encode_utf8(name);
    assert forall|i: int| 0 <= i < n implies is_ascii_letter(#[trigger] token[i]) && token[i] as char
        == name[i] by {
        assert(('A' <= name[i] <= 'Z') || ('a' <= name[i] <= 'z'));
        assert(name[i] as u8 == token[i]);
    }
    if has_signature(s, name) {
        assert forall|i: int| 0 <= i < n implies is_ascii_letter(#[trigger] s[i]) by {
            assert(s.subrange(0, n)[i] == token[i]);
        }
        lemma_letters_end_is(s, 0, n);
        assert(ascii_chars(s.subrange(0, n)) =~= name);
    }
    if signature_of(s) == Some(name) {
        let end = letters_end(s, 0);
        lemma_letters_end(s, 0);
        let run = s.subrange(0, end);
        assert(ascii_chars(run).len() == n);
        assert forall|i: int| 0 <= i < n implies run[i] == token[i] by {
            assert(ascii_chars(run)[i] == name[i]);
            assert(is_ascii_letter(s[i]));
            assert(run[i] == s[i]);
        }
        assert(run =~= token);
    }
}

/// A buffer is taken for a bundle exactly when its signature token is one
/// of the four bundle signatures. The web-data signature is no token of
/// letters: a buffer that opens with it has no signature token at all.
pub proof fn lemma_bundle_kind_is_signature_token(s: Seq<u8>)
    ensures
        kind_of(s) == FileKind::BundleFile <==> (signature_of(s) matches Some(token) && (token
            == "UnityWeb"@ || token == "UnityRaw"@ || token == "UnityArchive"@ || token
            == "UnityFS"@)),
        has_web_data_signature(s) ==> signature_of(s) is None && kind_of(s)
            == FileKind::WebDataFile,
{
    reveal_strlit("UnityWeb");
    reveal_strlit("UnityRaw");
    reveal_strlit("UnityArchive");
    reveal_strlit("UnityFS");
    reveal_strlit("UnityWebData1.0");
    lemma_signature_is_token(s, "UnityWeb"@);
    lemma_signature_is_token(s, "UnityRaw"@);
    lemma_signature_is_token(s, "UnityArchive"@);
    lemma_signature_is_token(s, "UnityFS"@);
    if has_web_data_signature(s) {
        let name = "UnityWebData1.0"@;
        let token = encode_utf8(name);
        assert forall|i: int| 0 <= i < name.len() implies '\0' <= #[trigger] name[i] <= '\u{7f}' by {}
        is_ascii_chars_encode_utf8(name);
        assert forall|i: int| 0 <= i < 12 implies is_ascii_letter(#[trigger] s[i]) by {
            assert(s.subrange(0, 15)[i] == token[i]);
            assert(name[i] as u8 == token[i]);
        }
        assert(s.subrange(0, 15)[12] == token[12]);
        assert(name[12] as u8 == token[12]);
        assert(!is_ascii_letter(s[12]));
        lemma_letters_end_is(s, 0, 12);
    }
}

/// A buffer shorter than the smallest serialized-assets header is never
/// taken for a serialized-assets file; unless it opens with a known
/// signature, it is opaque.
pub proof fn lemma_short_buffer_kind(s: Seq<u8>)
    requires
        s.len() < SERIALIZED_HEADER_LEN,
    ensures
        kind_of(s) != FileKind::SerializedAssetsFile,
        !has_bundle_signature(s) && !has_web_data_signature(s) ==> kind_of(s)
            == FileKind::OpaqueResourceFile,
{
}

/// A buffer whose declared file size is not its length is never taken for a
/// serialized-assets file, whatever its other fields say; unless it opens
/// with a known signature, it is opaque.
pub proof fn lemma_wrong_file_size_kind(s: Seq<u8>)
    requires
        declared_file_size(s) != s.len(),
    ensures
        !serialized_probe(s),
        kind_of(s) != FileKind::SerializedAssetsFile,
        !has_bundle_signature(s) && !has_web_data_signature(s) ==> kind_of(s)
            == FileKind::OpaqueResourceFile,
{
}

/// A declared data offset beyond the end of the buffer fails the probe too.
pub proof fn lemma_data_offset_beyond_end_kind(s: Seq<u8>)
    requires
        declared_data_offset(s) > s.len(),
    ensures
        !serialized_probe(s),
        kind_of(s) != FileKind::SerializedAssetsFile,
{
}

} // verus!
